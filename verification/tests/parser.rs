use aura_core::dom::{Match, Node};
use aura_core::models::{Episode, ScrapeError};
use aura_core::parser::{
    download_link_from, episode_from, insert_by_number, is_download, list_entries_from,
    parse_download_link, parse_list, parse_search, parse_season, search_results_from, tags_from,
    year_from,
};

fn node(attrs: Vec<Option<&str>>, inner_html: &str, text: &str) -> Node {
    Node {
        attrs: attrs.into_iter().map(|a| a.map(|s| s.to_string())).collect(),
        inner_html: inner_html.to_string(),
        text: text.to_string(),
    }
}

fn bare() -> Node {
    node(vec![], "", "")
}

const SEARCH_PAGE: &str = r#"<html><body>
<div class="similarimg"><a href="anime.php?abc"><img class="coverimg" src="img/1.jpg" alt="Alt One"></a><div class="similarname"><a href="anime.php?abc"> Title One </a></div></div>
<div class="similarimg"><a href="anime.php?def"><img class="coverimg" src="img/2.jpg" alt="Alt Two"></a></div>
<div class="similarimg"><a href="other.php">skip</a><a href="anime.php?ghi"><img class="coverimg" src="img/3.jpg"></a></div>
</body></html>"#;

#[test]
fn search_page_is_parsed() {
    let results = parse_search(SEARCH_PAGE).unwrap();
    let got: Vec<(String, String, String)> =
        results.iter().map(|r| (r.title.clone(), r.url.clone(), r.image.clone())).collect();
    assert_eq!(
        got,
        vec![
            ("Title One".to_string(), "anime.php?abc".to_string(), "img/1.jpg".to_string()),
            ("Alt Two".to_string(), "anime.php?def".to_string(), "img/2.jpg".to_string()),
            ("Unknown".to_string(), "anime.php?ghi".to_string(), "img/3.jpg".to_string()),
        ]
    );
    assert!(parse_search("<html><body><p>nothing here</p></body></html>").unwrap().is_empty());
    assert!(parse_search("").unwrap().is_empty());
}

#[test]
fn search_entries_need_link_and_cover() {
    let no_link = r#"<div class="similarimg"><img class="coverimg" src="x.jpg"></div>"#;
    assert!(matches!(parse_search(no_link), Err(ScrapeError::NotFound)));
    let no_cover = r#"<div class="similarimg"><a href="anime.php?a">x</a></div>"#;
    assert!(matches!(parse_search(no_cover), Err(ScrapeError::NotFound)));
    let no_src = r#"<div class="similarimg"><a href="anime.php?a"><img class="coverimg"></a></div>"#;
    assert!(matches!(parse_search(no_src), Err(ScrapeError::NotFound)));
}

#[test]
fn search_entries_are_read_off_matches() {
    let full = Match {
        node: bare(),
        inner: vec![
            vec![node(vec![Some("anime.php?1"), None, None], "", "")],
            vec![node(vec![None, Some("cover.jpg"), Some("Alt")], "", "")],
            vec![node(vec![None, None, None], "  Name <b>x</b> ", "Name x")],
        ],
    };
    let no_name = Match {
        node: bare(),
        inner: vec![
            vec![node(vec![Some("anime.php?2"), None, None], "", "")],
            vec![node(vec![None, Some("c2.jpg"), Some("Alt Two")], "", "")],
            vec![],
        ],
    };
    let results = search_results_from(&vec![full, no_name]).unwrap();
    assert_eq!(results.len(), 2);
    assert_eq!(results[0].title, "Name <b>x</b>");
    assert_eq!(results[0].url, "anime.php?1");
    assert_eq!(results[0].image, "cover.jpg");
    assert_eq!(results[1].title, "Alt Two");
    let broken = Match { node: bare(), inner: vec![] };
    assert!(matches!(search_results_from(&vec![broken]), Err(ScrapeError::NotFound)));
}

const CHART_PAGE: &str = r#"<html><body>
<div class="chart"><div class="chartimg"><a href="anime.php?x1"><img class="coverimg" src="c1.jpg"></a></div><div class="charttitle"><a href="anime.php?x1"> First </a></div><div class="charttimer"> <b>2</b> hours ago </div><div class="chartepm"> 12 </div></div>
<div class="chart"><div class="chartimg"><a href="anime.php?x2"><img class="coverimg" src="c2.jpg"></a></div><div class="charttitle"><a href="anime.php?x2">Second</a></div></div>
</body></html>"#;

#[test]
fn chart_is_parsed() {
    let new = parse_list(CHART_PAGE, false).unwrap();
    assert_eq!(new.len(), 2);
    assert_eq!(new[0].title, "First");
    assert_eq!(new[0].url, "anime.php?x1");
    assert_eq!(new[0].image, "c1.jpg");
    assert_eq!(new[0].latest_ep, "12");
    assert_eq!(new[0].time_ago, "2 hours ago");
    assert_eq!(new[0].rank, None);
    assert_eq!(new[1].title, "Second");
    assert_eq!(new[1].latest_ep, "");
    assert_eq!(new[1].time_ago, "");
    let popular = parse_list(CHART_PAGE, true).unwrap();
    assert_eq!(popular[0].rank, Some(1));
    assert_eq!(popular[1].rank, Some(2));
}

#[test]
fn chart_rows_need_link_cover_and_title() {
    let no_title = r#"<div class="chart"><div class="chartimg"><a href="a"><img class="coverimg" src="c.jpg"></a></div></div>"#;
    assert!(matches!(parse_list(no_title, false), Err(ScrapeError::NotFound)));
    let no_link = r#"<div class="chart"><img class="coverimg" src="c.jpg"><div class="charttitle"><a>t</a></div></div>"#;
    assert!(matches!(parse_list(no_link, true), Err(ScrapeError::NotFound)));
    let row = Match {
        node: bare(),
        inner: vec![
            vec![node(vec![Some("href")], "", "")],
            vec![node(vec![None, Some("src")], "", "")],
            vec![node(vec![], " T ", "T")],
            vec![node(vec![], "<i>1</i> h", " 1 h ")],
            vec![],
        ],
    };
    let entries = list_entries_from(&vec![row], true).unwrap();
    assert_eq!(entries[0].title, "T");
    assert_eq!(entries[0].time_ago, "1 h");
    assert_eq!(entries[0].latest_ep, "");
    assert_eq!(entries[0].rank, Some(1));
}

#[test]
fn download_link_is_found() {
    let page = r#"<html><body><a href="/x">Home</a><a href="https://cdn/other.mp4">Download</a><a href="https://cdn/video.mp4?t=1">DOWNLOAD <b>now</b></a><a href="https://cdn2/video.mp4">download</a></body></html>"#;
    assert_eq!(parse_download_link(page), Some("https://cdn/video.mp4?t=1".to_string()));
    let none = r#"<a href="https://cdn/video.mp4">Watch</a><a>download video.mp4</a>"#;
    assert_eq!(parse_download_link(none), None);
    assert_eq!(parse_download_link(""), None);
}

#[test]
fn download_link_is_read_off_links() {
    let link = |href: Option<&str>, html: &str| Match {
        node: node(vec![href], html, ""),
        inner: vec![],
    };
    let links = vec![
        link(None, "download"),
        link(Some("video.mp4"), "nothing"),
        link(Some("a/video.mp4"), "Download"),
        link(Some("b/video.mp4"), "download"),
    ];
    assert_eq!(download_link_from(&links), Some("a/video.mp4".to_string()));
    assert_eq!(download_link_from(&vec![]), None);
}

const SEASON_PAGE: &str = r#"<html><body>
<div class="infotitle"> My Show </div>
<div class="infotitlejp"> マイショー </div>
<div class="infodes"> A <b>story</b>. </div>
<div class="infoyear">Episodes: 24 Year: 2018-2019 Score: 8.7</div>
<div class="infotags"><div class="boxitem"> Action </div><div class="boxitem"> </div><div class="boxitem">Drama</div></div>
<div class="linetitle2">
<a href="episode.php?e2" onclick='gate("g2")'><div class="watch2"> 2 </div><div class="watch1">x</div><div class="watch1"> 3 d ago </div></a>
<a href="episode.php?e1" onclick='gate("g1")'><div class="watch2">1</div><div class="watch1"> 5 d ago </div></a>
<a href="episode.php?e0"><div class="watch2">0</div></a>
<a href="episode.php?ex"><div class="watch2">abc</div></a>
<a href="episode.php?e3" onclick="open()"><div class="watch2">3</div></a>
</div>
</body></html>"#;

#[test]
fn season_page_is_parsed() {
    let info = parse_season(SEASON_PAGE, "/anime.php?show").unwrap();
    assert_eq!(info.title, "My Show");
    assert_eq!(info.url, "/anime.php?show");
    assert_eq!(info.japanese_title, Some("マイショー".to_string()));
    assert_eq!(info.description, Some("A story.".to_string()));
    assert_eq!(info.year, Some("2018-2019".to_string()));
    assert_eq!(info.tags, Some(vec!["Action".to_string(), "Drama".to_string()]));
    assert!(info.related.is_empty());
    let episodes: Vec<(u32, String, String, String)> = info
        .episodes
        .iter()
        .map(|e| (e.number, e.name.clone(), e.url.clone(), e.gate_id.clone()))
        .collect();
    assert_eq!(
        episodes,
        vec![
            (1, "Episode 1 5 d ago".to_string(), "episode.php?e1".to_string(), "g1".to_string()),
            (2, "Episode 2 3 d ago".to_string(), "episode.php?e2".to_string(), "g2".to_string()),
            (3, "Episode 3 ".to_string(), "episode.php?e3".to_string(), "".to_string()),
        ]
    );
}

#[test]
fn season_page_needs_a_title() {
    let page = r#"<html><body><div class="infodes">text</div></body></html>"#;
    assert!(matches!(parse_season(page, "/x"), Err(ScrapeError::NotFound)));
    let bare = parse_season(r#"<div class="infotitle">T</div>"#, "/x").unwrap();
    assert_eq!(bare.title, "T");
    assert!(bare.episodes.is_empty());
    assert_eq!(bare.year, None);
    assert_eq!(bare.tags, None);
    assert_eq!(bare.description, None);
    assert_eq!(bare.japanese_title, None);
}

#[test]
fn season_year_is_what_stands_before_the_score() {
    let page = |facts: &str| format!(r#"<div class="infotitle">T</div><div class="infoyear">{}</div>"#, facts);
    assert_eq!(parse_season(&page("Year: 2020"), "/x").unwrap().year, Some("2020".to_string()));
    assert_eq!(parse_season(&page("Year:1999 Score"), "/x").unwrap().year, Some("1999".to_string()));
    assert_eq!(parse_season(&page("Episodes: 3"), "/x").unwrap().year, None);
    assert_eq!(year_from(Some(Some(" 2001 ".to_string()))), Some("2001".to_string()));
    assert_eq!(year_from(Some(None)), None);
    assert_eq!(year_from(None), None);
}

#[test]
fn episodes_are_read_off_links() {
    let link = Match {
        node: node(vec![Some("gate(\"g\")"), Some("episode.php?7")], "", ""),
        inner: vec![
            vec![node(vec![], " +7 ", "")],
            vec![node(vec![], "first", ""), node(vec![], " last ", "")],
        ],
    };
    let episode = episode_from(&link, Some(Some("g".to_string()))).unwrap();
    assert_eq!(episode.number, 7);
    assert_eq!(episode.name, "Episode +7 last");
    assert_eq!(episode.url, "episode.php?7");
    assert_eq!(episode.gate_id, "g");
    let episode = episode_from(&link, Some(None)).unwrap();
    assert_eq!(episode.gate_id, "");
    let unnumbered = Match { node: bare(), inner: vec![vec![], vec![]] };
    assert!(episode_from(&unnumbered, None).is_none());
    let zero = Match { node: bare(), inner: vec![vec![node(vec![], "0", "")]] };
    assert!(episode_from(&zero, None).is_none());
}

#[test]
fn episodes_are_kept_in_the_order_of_their_numbers() {
    let episode = |number: u32, name: &str| Episode {
        name: name.to_string(),
        number,
        url: String::new(),
        gate_id: String::new(),
    };
    let mut sorted: Vec<Episode> = Vec::new();
    for (number, name) in [(3, "a"), (1, "b"), (2, "c"), (1, "d"), (3, "e"), (0, "f")] {
        insert_by_number(&mut sorted, episode(number, name));
    }
    let got: Vec<(u32, String)> = sorted.iter().map(|e| (e.number, e.name.clone())).collect();
    let mut expected = vec![(3, "a"), (1, "b"), (2, "c"), (1, "d"), (3, "e"), (0, "f")];
    expected.sort_by_key(|e| e.0);
    let expected: Vec<(u32, String)> = expected.into_iter().map(|(n, s)| (n, s.to_string())).collect();
    assert_eq!(got, expected);
}

#[test]
fn tags_are_read_without_the_empty_ones() {
    let tag = |text: &str| Match { node: node(vec![], "", text), inner: vec![] };
    assert_eq!(
        tags_from(&vec![tag(" Action "), tag("  "), tag("Drama")]),
        Some(vec!["Action".to_string(), "Drama".to_string()])
    );
    assert_eq!(tags_from(&vec![tag(" "), tag("")]), None);
    assert_eq!(tags_from(&vec![]), None);
}

#[test]
fn scrape_errors_have_their_messages() {
    assert_eq!(ScrapeError::NotFound.message(), "Element not found");
    assert_eq!(ScrapeError::Parse("bad".to_string()).message(), "Parsing failed: bad");
    assert_eq!(
        ScrapeError::Request("timeout".to_string()).message(),
        "Network request failed: timeout"
    );
}

#[test]
fn a_download_link_says_so_and_names_the_video() {
    assert!(is_download("download", "video.mp4"));
    assert!(is_download("<b>download now</b>", "https://cdn/video.mp4?t=1"));
    assert!(!is_download("Download", "video.mp4"));
    assert!(!is_download("download", "video.mkv"));
    assert!(!is_download("watch", "video.mp4"));
    assert!(!is_download("", ""));
}
