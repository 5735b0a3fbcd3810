//! The addresses of the site that the scraper reads, and what it sends along.

use crate::text::{joined, occurs_at, remove_first, starts_with, without_first};
use vstd::prelude::*;

verus! {

/// The address under which every page of the site is found.
pub open spec fn base_url() -> Seq<char> {
    "https://animeheaven.me/"@
}

/// The address of the page at `path`.
pub fn page_url(path: &str) -> (url: String)
    ensures
        url@ == base_url() + path@,
{
    joined("https://animeheaven.me/", path)
}

/// The path of the page that lists the titles found for `query`.
pub fn search_path(query: &str) -> (path: String)
    ensures
        path@ == "/search.php?s="@ + query@,
{
    joined("/search.php?s=", query)
}

/// The path of the chart of new titles.
pub fn new_path() -> (path: String)
    ensures
        path@ == "/new.php"@,
{
    "/new.php".to_string()
}

/// The path of the chart of popular titles.
pub fn popular_path() -> (path: String)
    ensures
        path@ == "/popular.php"@,
{
    "/popular.php".to_string()
}

/// The path of a season page, from its address or its path: an address loses the first
/// occurrence of the name of the site, and a path stays as it is.
pub open spec fn season_path_of(url: Seq<char>) -> Seq<char> {
    if occurs_at(url, "http"@, 0) {
        without_first(url, "https://animeheaven.me"@)
    } else {
        url
    }
}

/// The path of a season page, from its address or its path.
pub fn season_path(url: &str) -> (path: String)
    ensures
        path@ == season_path_of(url@),
{
    if starts_with(url, "http") {
        remove_first(url, "https://animeheaven.me")
    } else {
        url.to_string()
    }
}

/// The address of the page of an episode.
pub fn episode_page_url(episode_url: &str) -> (url: String)
    ensures
        url@ == base_url() + episode_url@,
{
    joined("https://animeheaven.me/", episode_url)
}

/// The cookie that opens the page of an episode.
pub fn gate_cookie(gate_id: &str) -> (cookie: String)
    ensures
        cookie@ == "key="@ + gate_id@,
{
    joined("key=", gate_id)
}

} // verus!
