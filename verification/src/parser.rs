//! The parsers of the pages of the site: search results, charts, seasons and download links.
//!
//! Each parser asks for the elements it needs and reads its result off them. The reading is a
//! function of its own, on which the contract of the parser rests.

use crate::dom::{
    attr_at, attr_of, capture, first_capture, first_inner, first_node, inner_at, last_inner,
    last_node, Match, MatchView, select, selection,
};
use crate::models::{
    AnimeInfo, AnimeInfoView, Episode, EpisodeView, ListEntry, ListEntryView, ScrapeError,
    ScrapeErrorView, ScrapeResult, SearchResult, SearchResultView,
};
use crate::seqs::{first_index, lemma_first_index_at, lemma_first_index_none};
use crate::text::{
    contains, contains_seq, lowercase_of, parse_decimal, parse_u32, to_lowercase, trim, trimmed,
};
use vstd::prelude::*;

verus! {

/// The results that `f` gives for the items of a list, in order; the first failure, where there
/// is one. `f` is told the position of each item.
pub open spec fn collect<A, B, E>(items: Seq<A>, f: spec_fn(int, A) -> Result<B, E>) -> Result<
    Seq<B>,
    E,
>
    decreases items.len(),
{
    if items.len() == 0 {
        Ok(Seq::empty())
    } else {
        match collect(items.drop_last(), f) {
            Err(e) => Err(e),
            Ok(done) => match f(items.len() - 1, items.last()) {
                Err(e) => Err(e),
                Ok(b) => Ok(done.push(b)),
            },
        }
    }
}

/// A failure among the first items of a list is the failure of the whole list.
pub proof fn lemma_collect_stops<A, B, E>(
    items: Seq<A>,
    f: spec_fn(int, A) -> Result<B, E>,
    k: int,
)
    requires
        0 <= k <= items.len(),
        collect(items.take(k), f) is Err,
    ensures
        collect(items, f) == collect(items.take(k), f),
    decreases items.len() - k,
{
    if k < items.len() {
        assert(items.drop_last().take(k) =~= items.take(k));
        lemma_collect_stops(items.drop_last(), f, k);
    } else {
        assert(items.take(k) =~= items);
    }
}

/// One more item read with success.
pub proof fn lemma_collect_step<A, B, E>(
    items: Seq<A>,
    f: spec_fn(int, A) -> Result<B, E>,
    k: int,
)
    requires
        0 <= k < items.len(),
    ensures
        collect(items.take(k + 1), f) == match collect(items.take(k), f) {
            Err(e) => Err(e),
            Ok(done) => match f(k, items[k]) {
                Err(e) => Err(e),
                Ok(b) => Ok(done.push(b)),
            },
        },
{
    assert(items.take(k + 1).drop_last() =~= items.take(k));
}

/// View of what a parser returns.
pub open spec fn outcome_view<T: DeepView>(r: Result<T, ScrapeError>) -> Result<
    T::V,
    ScrapeErrorView,
> {
    match r {
        Ok(value) => Ok(value.deep_view()),
        Err(e) => Err(e@),
    }
}

/// The failure of a parser whose selectors the selector engine refuses.
pub open spec fn bad_selector() -> ScrapeErrorView {
    ScrapeErrorView::Parse("Invalid selector"@)
}

fn selector_refused() -> (e: ScrapeError)
    ensures
        e@ == bad_selector(),
{
    ScrapeError::Parse("Invalid selector".to_string())
}

/// The views of a list of strings.
pub open spec fn texts(items: Seq<&str>) -> Seq<Seq<char>> {
    Seq::new(items.len(), |i: int| items[i]@)
}

/// A list of selectors or attribute names.
fn names(items: &[&str]) -> (list: Vec<String>)
    ensures
        list.deep_view() == texts(items@),
{
    let mut list: Vec<String> = Vec::new();
    let mut i: usize = 0;
    while i < items.len()
        invariant
            i <= items.len(),
            list.len() == i,
            forall|k: int| 0 <= k < i ==> (#[trigger] list@[k])@ == items@[k]@,
        decreases items.len() - i,
    {
        list.push(items[i].to_string());
        i = i + 1;
    }
    assert(list.deep_view() =~= texts(items@));
    list
}

/// The selector of the entries of a search page.
pub open spec fn search_item() -> Seq<char> {
    ".similarimg"@
}

/// The selectors that are read below each entry of a search page: the link, the cover, the name.
pub open spec fn search_inner() -> Seq<Seq<char>> {
    seq!["a[href*='anime.php']"@, "img.coverimg"@, ".similarname a"@]
}

/// The attributes that are read of the elements of a search page.
pub open spec fn search_attrs() -> Seq<Seq<char>> {
    seq!["href"@, "src"@, "alt"@]
}

/// What one entry of a search page says. It must have a link with a target and a cover with a
/// source. Its title is the trimmed markup of its name, or else the alternative text of its
/// cover, or else `Unknown`.
pub open spec fn search_result_of(m: MatchView) -> Result<SearchResultView, ScrapeErrorView> {
    match first_node(inner_at(m, 0)) {
        None => Err(ScrapeErrorView::NotFound),
        Some(link) => match attr_at(link, 0) {
            None => Err(ScrapeErrorView::NotFound),
            Some(href) => match first_node(inner_at(m, 1)) {
                None => Err(ScrapeErrorView::NotFound),
                Some(cover) => match attr_at(cover, 1) {
                    None => Err(ScrapeErrorView::NotFound),
                    Some(src) => Ok(
                        SearchResultView {
                            title: match first_node(inner_at(m, 2)) {
                                Some(name) => trimmed(name.inner_html),
                                None => match attr_at(cover, 2) {
                                    Some(alt) => alt,
                                    None => "Unknown"@,
                                },
                            },
                            url: href,
                            image: src,
                        },
                    ),
                },
            },
        },
    }
}

/// The reading of search entries, as a function of position and entry.
pub open spec fn search_reader() -> spec_fn(int, MatchView) -> Result<
    SearchResultView,
    ScrapeErrorView,
> {
    |i: int, m: MatchView| search_result_of(m)
}

/// Reads one entry of a search page.
pub fn search_result_from(m: &Match) -> (r: ScrapeResult<SearchResult>)
    ensures
        outcome_view(r) == search_result_of(m@),
{
    let link = match first_inner(m, 0) {
        Some(link) => link,
        None => {
            return Err(ScrapeError::NotFound);
        },
    };
    let href = match attr_of(link, 0) {
        Some(href) => href,
        None => {
            return Err(ScrapeError::NotFound);
        },
    };
    let cover = match first_inner(m, 1) {
        Some(cover) => cover,
        None => {
            return Err(ScrapeError::NotFound);
        },
    };
    let src = match attr_of(cover, 1) {
        Some(src) => src,
        None => {
            return Err(ScrapeError::NotFound);
        },
    };
    let title = match first_inner(m, 2) {
        Some(name) => trim(name.inner_html.as_str()),
        None => match attr_of(cover, 2) {
            Some(alt) => alt.clone(),
            None => "Unknown".to_string(),
        },
    };
    Ok(SearchResult { title, url: href.clone(), image: src.clone() })
}

/// Reads the entries of a search page, in order; fails where one of them lacks its link or its
/// cover.
pub fn search_results_from(matches: &Vec<Match>) -> (r: ScrapeResult<Vec<SearchResult>>)
    ensures
        outcome_view(r) == collect(matches.deep_view(), search_reader()),
{
    let mut results: Vec<SearchResult> = Vec::new();
    let mut i: usize = 0;
    assert(results.deep_view() =~= Seq::<SearchResultView>::empty());
    while i < matches.len()
        invariant
            i <= matches.len(),
            collect(matches.deep_view().take(i as int), search_reader()) == Ok::<
                Seq<SearchResultView>,
                ScrapeErrorView,
            >(results.deep_view()),
        decreases matches.len() - i,
    {
        proof {
            lemma_collect_step(matches.deep_view(), search_reader(), i as int);
        }
        match search_result_from(&matches[i]) {
            Ok(result) => {
                let ghost before = results.deep_view();
                results.push(result);
                assert(results.deep_view() =~= before.push(result@));
            },
            Err(e) => {
                proof {
                    lemma_collect_stops(matches.deep_view(), search_reader(), i + 1);
                }
                return Err(e);
            },
        }
        i = i + 1;
    }
    assert(matches.deep_view().take(matches.len() as int) =~= matches.deep_view());
    Ok(results)
}

/// What a search page says: its entries as the selector engine finds them, read one by one.
pub open spec fn search_page(html: Seq<char>) -> Result<Seq<SearchResultView>, ScrapeErrorView> {
    match selection(html, search_item(), search_inner(), search_attrs()) {
        Some(matches) => collect(matches, search_reader()),
        None => Err(bad_selector()),
    }
}

/// Parses a search page.
pub fn parse_search(html: &str) -> (r: ScrapeResult<Vec<SearchResult>>)
    ensures
        outcome_view(r) == search_page(html@),
{
    let inner = names(&["a[href*='anime.php']", "img.coverimg", ".similarname a"]);
    let attrs = names(&["href", "src", "alt"]);
    assert(inner.deep_view() =~= search_inner());
    assert(attrs.deep_view() =~= search_attrs());
    match select(html, ".similarimg", &inner, &attrs) {
        Some(matches) => search_results_from(&matches),
        None => Err(selector_refused()),
    }
}

/// The selector of the rows of a chart.
pub open spec fn chart_item() -> Seq<char> {
    ".chart"@
}

/// The selectors that are read below each row of a chart: the link, the cover, the title, the
/// time and the latest episode.
pub open spec fn chart_inner() -> Seq<Seq<char>> {
    seq![".chartimg a"@, "img.coverimg"@, ".charttitle a"@, ".charttimer"@, ".chartepm"@]
}

/// The attributes that are read of the elements of a chart.
pub open spec fn chart_attrs() -> Seq<Seq<char>> {
    seq!["href"@, "src"@]
}

/// The rank of the row at position `i` of a chart of popular titles: rows count from one.
pub open spec fn rank_at(i: int) -> u32 {
    ((i + 1) % 0x1_0000_0000) as u32
}

/// What one row of a chart says. It must have a link with a target, a cover with a source and a
/// title. Time and latest episode are empty where the row has none. Only the rows of a chart of
/// popular titles have a rank.
pub open spec fn list_entry_of(i: int, m: MatchView, is_popular: bool) -> Result<
    ListEntryView,
    ScrapeErrorView,
> {
    match first_node(inner_at(m, 0)) {
        None => Err(ScrapeErrorView::NotFound),
        Some(link) => match attr_at(link, 0) {
            None => Err(ScrapeErrorView::NotFound),
            Some(href) => match first_node(inner_at(m, 1)) {
                None => Err(ScrapeErrorView::NotFound),
                Some(cover) => match attr_at(cover, 1) {
                    None => Err(ScrapeErrorView::NotFound),
                    Some(src) => match first_node(inner_at(m, 2)) {
                        None => Err(ScrapeErrorView::NotFound),
                        Some(title) => Ok(
                            ListEntryView {
                                title: trimmed(title.inner_html),
                                url: href,
                                image: src,
                                latest_ep: match first_node(inner_at(m, 4)) {
                                    Some(latest) => trimmed(latest.inner_html),
                                    None => Seq::empty(),
                                },
                                time_ago: match first_node(inner_at(m, 3)) {
                                    Some(time) => trimmed(time.text),
                                    None => Seq::empty(),
                                },
                                rank: if is_popular {
                                    Some(rank_at(i))
                                } else {
                                    None
                                },
                            },
                        ),
                    },
                },
            },
        },
    }
}

/// The reading of chart rows, as a function of position and row.
pub open spec fn chart_reader(is_popular: bool) -> spec_fn(int, MatchView) -> Result<
    ListEntryView,
    ScrapeErrorView,
> {
    |i: int, m: MatchView| list_entry_of(i, m, is_popular)
}

/// Reads the row at position `i` of a chart.
pub fn list_entry_from(i: usize, m: &Match, is_popular: bool) -> (r: ScrapeResult<ListEntry>)
    ensures
        outcome_view(r) == list_entry_of(i as int, m@, is_popular),
{
    let link = match first_inner(m, 0) {
        Some(link) => link,
        None => {
            return Err(ScrapeError::NotFound);
        },
    };
    let href = match attr_of(link, 0) {
        Some(href) => href,
        None => {
            return Err(ScrapeError::NotFound);
        },
    };
    let cover = match first_inner(m, 1) {
        Some(cover) => cover,
        None => {
            return Err(ScrapeError::NotFound);
        },
    };
    let src = match attr_of(cover, 1) {
        Some(src) => src,
        None => {
            return Err(ScrapeError::NotFound);
        },
    };
    let title = match first_inner(m, 2) {
        Some(title) => trim(title.inner_html.as_str()),
        None => {
            return Err(ScrapeError::NotFound);
        },
    };
    let time_ago = match first_inner(m, 3) {
        Some(time) => trim(time.text.as_str()),
        None => String::new(),
    };
    let latest_ep = match first_inner(m, 4) {
        Some(latest) => trim(latest.inner_html.as_str()),
        None => String::new(),
    };
    let rank = if is_popular {
        Some((((i as u64) % 0x1_0000_0000 + 1) % 0x1_0000_0000) as u32)
    } else {
        None
    };
    Ok(ListEntry { title, url: href.clone(), image: src.clone(), latest_ep, time_ago, rank })
}

/// Reads the rows of a chart, in order; fails where one of them lacks its link, its cover or its
/// title.
pub fn list_entries_from(matches: &Vec<Match>, is_popular: bool) -> (r: ScrapeResult<
    Vec<ListEntry>,
>)
    ensures
        outcome_view(r) == collect(matches.deep_view(), chart_reader(is_popular)),
{
    let mut entries: Vec<ListEntry> = Vec::new();
    let mut i: usize = 0;
    assert(entries.deep_view() =~= Seq::<ListEntryView>::empty());
    while i < matches.len()
        invariant
            i <= matches.len(),
            collect(matches.deep_view().take(i as int), chart_reader(is_popular)) == Ok::<
                Seq<ListEntryView>,
                ScrapeErrorView,
            >(entries.deep_view()),
        decreases matches.len() - i,
    {
        proof {
            lemma_collect_step(matches.deep_view(), chart_reader(is_popular), i as int);
        }
        match list_entry_from(i, &matches[i], is_popular) {
            Ok(entry) => {
                let ghost before = entries.deep_view();
                entries.push(entry);
                assert(entries.deep_view() =~= before.push(entry@));
            },
            Err(e) => {
                proof {
                    lemma_collect_stops(matches.deep_view(), chart_reader(is_popular), i + 1);
                }
                return Err(e);
            },
        }
        i = i + 1;
    }
    assert(matches.deep_view().take(matches.len() as int) =~= matches.deep_view());
    Ok(entries)
}

/// What a chart says: its rows as the selector engine finds them, read one by one.
pub open spec fn chart_page(html: Seq<char>, is_popular: bool) -> Result<
    Seq<ListEntryView>,
    ScrapeErrorView,
> {
    match selection(html, chart_item(), chart_inner(), chart_attrs()) {
        Some(matches) => collect(matches, chart_reader(is_popular)),
        None => Err(bad_selector()),
    }
}

/// Parses a chart of new or of popular titles.
pub fn parse_list(html: &str, is_popular: bool) -> (r: ScrapeResult<Vec<ListEntry>>)
    ensures
        outcome_view(r) == chart_page(html@, is_popular),
{
    let inner = names(
        &[".chartimg a", "img.coverimg", ".charttitle a", ".charttimer", ".chartepm"],
    );
    let attrs = names(&["href", "src"]);
    assert(inner.deep_view() =~= chart_inner());
    assert(attrs.deep_view() =~= chart_attrs());
    match select(html, ".chart", &inner, &attrs) {
        Some(matches) => list_entries_from(&matches, is_popular),
        None => Err(selector_refused()),
    }
}

/// The target of a link; empty where it has none.
pub open spec fn target_of(m: MatchView) -> Seq<char> {
    match attr_at(m.node, 0) {
        Some(href) => href,
        None => Seq::empty(),
    }
}

/// Whether a link with the markup `lowered`, which is in lower case, and the target `href` is
/// the download link: the markup speaks of a download, and the target names the video.
pub open spec fn says_download(lowered: Seq<char>, href: Seq<char>) -> bool {
    contains_seq(lowered, "download"@) && contains_seq(href, "video.mp4"@)
}

/// Tells whether a link is the download link, from its markup in lower case and its target.
pub fn is_download(lowered: &str, href: &str) -> (yes: bool)
    ensures
        yes == says_download(lowered@, href@),
{
    contains(lowered, "download") && contains(href, "video.mp4")
}

/// Whether a link is the download link: its markup, in lower case, speaks of a download, and
/// its target names the video.
pub open spec fn is_download_link(m: MatchView) -> bool {
    says_download(lowercase_of(m.node.inner_html), target_of(m))
}

/// The predicate "is the download link".
pub open spec fn download_link() -> spec_fn(MatchView) -> bool {
    |m: MatchView| is_download_link(m)
}

/// The target of the first download link among `links`.
pub open spec fn download_target(links: Seq<MatchView>) -> Option<Seq<char>> {
    match first_index(links, download_link()) {
        Some(i) => Some(target_of(links[i])),
        None => None,
    }
}

/// Finds the first download link among the links of a page and returns its target.
pub fn download_link_from(links: &Vec<Match>) -> (target: Option<String>)
    ensures
        target.deep_view() == download_target(links.deep_view()),
{
    let mut i: usize = 0;
    while i < links.len()
        invariant
            i <= links.len(),
            forall|k: int| 0 <= k < i ==> !download_link()(#[trigger] links.deep_view()[k]),
        decreases links.len() - i,
    {
        let link = &links[i];
        let text = to_lowercase(link.node.inner_html.as_str());
        let href = match attr_of(&link.node, 0) {
            Some(href) => href.clone(),
            None => String::new(),
        };
        if is_download(text.as_str(), href.as_str()) {
            proof {
                lemma_first_index_at(links.deep_view(), download_link(), i as int);
            }
            return Some(href);
        }
        i = i + 1;
    }
    proof {
        lemma_first_index_none(links.deep_view(), download_link());
    }
    None
}

/// The attributes that are read of the links of a page.
pub open spec fn link_attrs() -> Seq<Seq<char>> {
    seq!["href"@]
}

/// No selectors.
pub open spec fn no_names() -> Seq<Seq<char>> {
    Seq::empty()
}

/// What a page says of its download link: the target of the first link, among all the links
/// that the selector engine finds, that is the download link.
pub open spec fn download_page(html: Seq<char>) -> Option<Seq<char>> {
    match selection(html, "a"@, no_names(), link_attrs()) {
        Some(links) => download_target(links),
        None => None,
    }
}

/// Parses the page of an episode for the link to its video.
pub fn parse_download_link(html: &str) -> (target: Option<String>)
    ensures
        target.deep_view() == download_page(html@),
{
    let inner: Vec<String> = Vec::new();
    let attrs = names(&["href"]);
    assert(inner.deep_view() =~= no_names());
    assert(attrs.deep_view() =~= link_attrs());
    match select(html, "a", &inner, &attrs) {
        Some(links) => download_link_from(&links),
        None => None,
    }
}

/// The pattern that finds a gate id in the click handler of an episode link.
pub open spec fn gate_pattern() -> Seq<char> {
    "gate\\(\"([^\"]+)\"\\)"@
}

/// The pattern that finds the year in the facts line of a season page.
pub open spec fn year_pattern() -> Seq<char> {
    "Year:\\s*(.*?)(?:Score|$)"@
}

/// A text that may be missing; empty where it is.
pub open spec fn or_empty(text: Option<Seq<char>>) -> Seq<char> {
    match text {
        Some(t) => t,
        None => Seq::empty(),
    }
}

/// What a pattern captured; nothing where the pattern was refused, did not match, or matched
/// without the group.
pub open spec fn captured(found: Option<Option<Seq<char>>>) -> Option<Seq<char>> {
    match found {
        Some(Some(text)) => Some(text),
        _ => None,
    }
}

/// The number that the text of an episode link shows; zero where it shows none.
pub open spec fn shown_number(text: Seq<char>) -> u32 {
    match parse_decimal(text, u32::MAX as nat) {
        Some(n) => n as u32,
        None => 0,
    }
}

/// The text in which an episode link shows its number: the trimmed markup of the first element
/// that is marked for it, and `0` where there is none.
pub open spec fn number_text(m: MatchView) -> Seq<char> {
    match first_node(inner_at(m, 0)) {
        Some(n) => trimmed(n.inner_html),
        None => "0"@,
    }
}

/// What one episode link of a season page says, given what was captured as gate id in its
/// click handler. A link that shows no number above zero is no episode. The name of an episode
/// is `Episode`, its number as shown, and the trimmed markup of the last element marked as a
/// time; its gate id is what was captured, and empty where nothing was.
pub open spec fn episode_with(m: MatchView, gate: Option<Option<Seq<char>>>) -> Option<
    EpisodeView,
> {
    if shown_number(number_text(m)) > 0 {
        Some(
            EpisodeView {
                name: "Episode "@ + number_text(m) + " "@ + match last_node(inner_at(m, 1)) {
                    Some(n) => trimmed(n.inner_html),
                    None => Seq::empty(),
                },
                number: shown_number(number_text(m)),
                url: or_empty(attr_at(m.node, 1)),
                gate_id: or_empty(captured(gate)),
            },
        )
    } else {
        None
    }
}

/// What one episode link of a season page says.
pub open spec fn episode_of(m: MatchView) -> Option<EpisodeView> {
    episode_with(m, capture(gate_pattern(), or_empty(attr_at(m.node, 0)), 1))
}

/// Reads one episode link, given what was captured as gate id in its click handler.
pub fn episode_from(m: &Match, gate: Option<Option<String>>) -> (episode: Option<Episode>)
    ensures
        episode.deep_view() == episode_with(m@, gate.deep_view()),
{
    let shown = match first_inner(m, 0) {
        Some(n) => trim(n.inner_html.as_str()),
        None => "0".to_string(),
    };
    let number = match parse_u32(shown.as_str()) {
        Some(n) => n,
        None => 0,
    };
    if number == 0 {
        return None;
    }
    let time = match last_inner(m, 1) {
        Some(n) => trim(n.inner_html.as_str()),
        None => String::new(),
    };
    let mut name = "Episode ".to_string();
    name.append(shown.as_str());
    name.append(" ");
    name.append(time.as_str());
    let url = match attr_of(&m.node, 1) {
        Some(href) => href.clone(),
        None => String::new(),
    };
    let gate_id = match gate {
        Some(Some(id)) => id,
        _ => String::new(),
    };
    Some(Episode { name, number, url, gate_id })
}

/// The predicate "has a number above `number`".
pub open spec fn later(number: u32) -> spec_fn(EpisodeView) -> bool {
    |e: EpisodeView| e.number > number
}

/// A list of episodes in the order of their numbers, with one more episode put in: before the
/// first episode with a greater number, and so after every episode with the same number.
pub open spec fn inserted(sorted: Seq<EpisodeView>, e: EpisodeView) -> Seq<EpisodeView> {
    match first_index(sorted, later(e.number)) {
        Some(i) => sorted.insert(i, e),
        None => sorted.push(e),
    }
}

/// Episodes in the order of their numbers; episodes with one number keep the order they had.
pub open spec fn by_number(episodes: Seq<EpisodeView>) -> Seq<EpisodeView>
    decreases episodes.len(),
{
    if episodes.len() == 0 {
        Seq::empty()
    } else {
        inserted(by_number(episodes.drop_last()), episodes.last())
    }
}

/// Whether the numbers of a list of episodes never fall.
pub open spec fn ordered(episodes: Seq<EpisodeView>) -> bool {
    forall|i: int, k: int|
        0 <= i <= k < episodes.len() ==> (#[trigger] episodes[i]).number <= (
        #[trigger] episodes[k]).number
}

/// Putting an episode into an ordered list leaves the list ordered.
pub proof fn lemma_inserted_ordered(sorted: Seq<EpisodeView>, e: EpisodeView)
    requires
        ordered(sorted),
    ensures
        ordered(inserted(sorted, e)),
        inserted(sorted, e).len() == sorted.len() + 1,
{
    crate::seqs::lemma_first_index(sorted, later(e.number));
    let after = inserted(sorted, e);
    match first_index(sorted, later(e.number)) {
        Some(at) => {
            assert forall|i: int, k: int| 0 <= i <= k < after.len() implies (#[trigger] after[i]).number
                <= (#[trigger] after[k]).number by {
                if i < at {
                    assert(after[i] == sorted[i]);
                    assert(!later(e.number)(sorted[i]));
                }
                if i > at {
                    assert(after[i] == sorted[i - 1]);
                }
                if k < at {
                    assert(after[k] == sorted[k]);
                }
                if k > at {
                    assert(after[k] == sorted[k - 1]);
                    assert(sorted[at].number <= sorted[k - 1].number);
                }
            }
        },
        None => {
            assert forall|i: int, k: int| 0 <= i <= k < after.len() implies (#[trigger] after[i]).number
                <= (#[trigger] after[k]).number by {
                if i < sorted.len() {
                    assert(!later(e.number)(sorted[i]));
                }
            }
        },
    }
}

/// Episodes sorted by number are ordered, and as many as before.
pub proof fn lemma_by_number_ordered(episodes: Seq<EpisodeView>)
    ensures
        ordered(by_number(episodes)),
        by_number(episodes).len() == episodes.len(),
    decreases episodes.len(),
{
    if episodes.len() > 0 {
        lemma_by_number_ordered(episodes.drop_last());
        lemma_inserted_ordered(by_number(episodes.drop_last()), episodes.last());
    }
}

/// Puts an episode into a list that is in the order of its numbers.
pub fn insert_by_number(sorted: &mut Vec<Episode>, episode: Episode)
    ensures
        final(sorted).deep_view() == inserted(old(sorted).deep_view(), episode@),
{
    let mut i: usize = 0;
    while i < sorted.len()
        invariant
            i <= sorted.len(),
            sorted == old(sorted),
            forall|k: int| 0 <= k < i ==> !later(episode.number)(#[trigger] sorted.deep_view()[k]),
        decreases sorted.len() - i,
    {
        if sorted[i].number > episode.number {
            proof {
                lemma_first_index_at(sorted.deep_view(), later(episode.number), i as int);
            }
            sorted.insert(i, episode);
            assert(sorted.deep_view() =~= old(sorted).deep_view().insert(i as int, episode@));
            return ;
        }
        i = i + 1;
    }
    proof {
        lemma_first_index_none(sorted.deep_view(), later(episode.number));
    }
    sorted.push(episode);
    assert(sorted.deep_view() =~= old(sorted).deep_view().push(episode@));
}

/// The episodes that the episode links of a season page show, in the order of the links.
pub open spec fn episodes_of(links: Seq<MatchView>) -> Seq<EpisodeView>
    decreases links.len(),
{
    if links.len() == 0 {
        Seq::empty()
    } else {
        match episode_of(links.last()) {
            Some(e) => episodes_of(links.drop_last()).push(e),
            None => episodes_of(links.drop_last()),
        }
    }
}

/// Reads the episode links of a season page into episodes in the order of their numbers.
fn episodes_from(links: &Vec<Match>) -> (episodes: Vec<Episode>)
    ensures
        episodes.deep_view() == by_number(episodes_of(links.deep_view())),
{
    let mut episodes: Vec<Episode> = Vec::new();
    let mut i: usize = 0;
    assert(episodes.deep_view() =~= Seq::<EpisodeView>::empty());
    while i < links.len()
        invariant
            i <= links.len(),
            episodes.deep_view() == by_number(episodes_of(links.deep_view().take(i as int))),
        decreases links.len() - i,
    {
        proof {
            let next = links.deep_view().take(i + 1);
            assert(next.drop_last() =~= links.deep_view().take(i as int));
            assert(next.last() == links@[i as int]@);
            let seen = episodes_of(links.deep_view().take(i as int));
            match episode_of(links@[i as int]@) {
                Some(e) => {
                    assert(seen.push(e).drop_last() =~= seen);
                },
                None => {},
            }
        }
        let link = &links[i];
        let onclick = match attr_of(&link.node, 0) {
            Some(text) => text.clone(),
            None => String::new(),
        };
        let gate = first_capture("gate\\(\"([^\"]+)\"\\)", onclick.as_str(), 1);
        match episode_from(link, gate) {
            Some(episode) => {
                insert_by_number(&mut episodes, episode);
            },
            None => {},
        }
        i = i + 1;
    }
    assert(links.deep_view().take(links.len() as int) =~= links.deep_view());
    episodes
}

/// The trimmed text of the first of a list of elements.
pub open spec fn first_text(found: Seq<MatchView>) -> Option<Seq<char>> {
    if found.len() > 0 {
        Some(trimmed(found[0].node.text))
    } else {
        None
    }
}

/// Reads the trimmed text of the first of a list of elements.
pub fn first_text_from(found: &Vec<Match>) -> (text: Option<String>)
    ensures
        text.deep_view() == first_text(found.deep_view()),
{
    if found.len() > 0 {
        Some(trim(found[0].node.text.as_str()))
    } else {
        None
    }
}

/// The tags of a season page: the trimmed texts of its tag elements, without the empty ones.
pub open spec fn tag_texts(found: Seq<MatchView>) -> Seq<Seq<char>>
    decreases found.len(),
{
    if found.len() == 0 {
        Seq::empty()
    } else if trimmed(found.last().node.text).len() > 0 {
        tag_texts(found.drop_last()).push(trimmed(found.last().node.text))
    } else {
        tag_texts(found.drop_last())
    }
}

/// The tags of a season page, or nothing where it has none.
pub open spec fn tags_of(found: Seq<MatchView>) -> Option<Seq<Seq<char>>> {
    if tag_texts(found).len() > 0 {
        Some(tag_texts(found))
    } else {
        None
    }
}

/// Reads the tags of a season page off its tag elements.
pub fn tags_from(found: &Vec<Match>) -> (tags: Option<Vec<String>>)
    ensures
        tags.deep_view() == tags_of(found.deep_view()),
{
    let mut tags: Vec<String> = Vec::new();
    let mut i: usize = 0;
    assert(tags.deep_view() =~= Seq::<Seq<char>>::empty());
    while i < found.len()
        invariant
            i <= found.len(),
            tags.deep_view() == tag_texts(found.deep_view().take(i as int)),
        decreases found.len() - i,
    {
        proof {
            let next = found.deep_view().take(i + 1);
            assert(next.drop_last() =~= found.deep_view().take(i as int));
            assert(next.last() == found@[i as int]@);
        }
        let tag = trim(found[i].node.text.as_str());
        if tag.as_str().unicode_len() > 0 {
            let ghost before = tags.deep_view();
            tags.push(tag);
            assert(tags.deep_view() =~= before.push(tag@));
        }
        i = i + 1;
    }
    assert(found.deep_view().take(found.len() as int) =~= found.deep_view());
    if tags.len() > 0 {
        Some(tags)
    } else {
        None
    }
}

/// The year of a season page, given what the year pattern captured in its facts line: the
/// capture, trimmed.
pub open spec fn year_with(found: Option<Option<Seq<char>>>) -> Option<Seq<char>> {
    match captured(found) {
        Some(text) => Some(trimmed(text)),
        None => None,
    }
}

/// Reads the year off what the year pattern captured.
pub fn year_from(found: Option<Option<String>>) -> (year: Option<String>)
    ensures
        year.deep_view() == year_with(found.deep_view()),
{
    match found {
        Some(Some(text)) => Some(trim(text.as_str())),
        _ => None,
    }
}

/// The year of a season page: what the year pattern captures in the text of its first facts
/// line.
pub open spec fn year_of(found: Seq<MatchView>) -> Option<Seq<char>> {
    if found.len() > 0 {
        year_with(capture(year_pattern(), found[0].node.text, 1))
    } else {
        None
    }
}

/// The selectors that are read below each episode link: the number and the times.
pub open spec fn episode_inner() -> Seq<Seq<char>> {
    seq![".watch2"@, ".watch1"@]
}

/// The attributes that are read of an episode link.
pub open spec fn episode_attrs() -> Seq<Seq<char>> {
    seq!["onclick"@, "href"@]
}

/// The elements of a page that match one selector, with nothing read below them and no
/// attributes.
pub open spec fn elements(html: Seq<char>, selector: Seq<char>) -> Option<Seq<MatchView>> {
    selection(html, selector, no_names(), no_names())
}

/// What a season page says. It must have a title. Its episodes are those of its episode links,
/// in the order of their numbers. Year, tags, description and second title are there as far as
/// the page has them. Nothing is said of related titles.
pub open spec fn season_page(html: Seq<char>, url: Seq<char>) -> Result<
    AnimeInfoView,
    ScrapeErrorView,
> {
    match elements(html, ".infotitle"@) {
        None => Err(bad_selector()),
        Some(titles) => if titles.len() == 0 {
            Err(ScrapeErrorView::NotFound)
        } else {
            match (
                selection(html, ".linetitle2 a"@, episode_inner(), episode_attrs()),
                elements(html, ".infoyear"@),
                elements(html, ".infotags .boxitem"@),
                elements(html, ".infodes"@),
                elements(html, ".infotitlejp"@),
            ) {
                (Some(links), Some(facts), Some(tags), Some(about), Some(second)) => Ok(
                    AnimeInfoView {
                        title: trimmed(titles[0].node.inner_html),
                        url,
                        episodes: by_number(episodes_of(links)),
                        related: Seq::empty(),
                        year: year_of(facts),
                        tags: tags_of(tags),
                        description: first_text(about),
                        japanese_title: first_text(second),
                    },
                ),
                _ => Err(bad_selector()),
            }
        },
    }
}

/// Parses the page of a season. `url` is the address under which the page was asked for.
pub fn parse_season(html: &str, url: &str) -> (r: ScrapeResult<AnimeInfo>)
    ensures
        outcome_view(r) == season_page(html@, url@),
{
    let none: Vec<String> = Vec::new();
    assert(none.deep_view() =~= no_names());
    let titles = match select(html, ".infotitle", &none, &none) {
        Some(found) => found,
        None => {
            return Err(selector_refused());
        },
    };
    if titles.len() == 0 {
        return Err(ScrapeError::NotFound);
    }
    let title = trim(titles[0].node.inner_html.as_str());
    let inner = names(&[".watch2", ".watch1"]);
    let attrs = names(&["onclick", "href"]);
    assert(inner.deep_view() =~= episode_inner());
    assert(attrs.deep_view() =~= episode_attrs());
    let links = select(html, ".linetitle2 a", &inner, &attrs);
    let facts = select(html, ".infoyear", &none, &none);
    let tags = select(html, ".infotags .boxitem", &none, &none);
    let about = select(html, ".infodes", &none, &none);
    let second = select(html, ".infotitlejp", &none, &none);
    match (links, facts, tags, about, second) {
        (Some(links), Some(facts), Some(tags), Some(about), Some(second)) => {
            let year = if facts.len() > 0 {
                year_from(
                    first_capture("Year:\\s*(.*?)(?:Score|$)", facts[0].node.text.as_str(), 1),
                )
            } else {
                None
            };
            let related: Vec<SearchResult> = Vec::new();
            assert(related.deep_view() =~= Seq::<SearchResultView>::empty());
            Ok(
                AnimeInfo {
                    title,
                    url: url.to_string(),
                    episodes: episodes_from(&links),
                    related,
                    year,
                    tags: tags_from(&tags),
                    description: first_text_from(&about),
                    japanese_title: first_text_from(&second),
                },
            )
        },
        _ => Err(selector_refused()),
    }
}

} // verus!
