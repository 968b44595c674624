//! Runtime refresh of the bundled datasets.
//!
//! The bundled snapshots are the permanent fallback: nothing here can make an
//! offline machine wrong, only stale. A cached refresh is used only while it is
//! fresh and still parses.

use vstd::prelude::*;

use crate::document::{json_document, read_json};
use crate::text;

verus! {

/// The age, in seconds, up to which a cached dataset is fresh.
pub open spec fn ttl_secs(ttl_days: u32) -> int {
    ttl_days * 86400
}

/// What of a cached dataset may be used: its text, where it is fresh and JSON.
pub open spec fn usable(ttl_days: u32, cached: Option<(u64, Seq<char>)>) -> Option<Seq<char>> {
    match cached {
        Some((age, s)) => if age <= ttl_secs(ttl_days) && json_document(s) is Some {
            Some(s)
        } else {
            None
        },
        None => None,
    }
}

/// A cached dataset and its age in seconds, mathematically.
pub open spec fn cached_view(cached: Option<(u64, &str)>) -> Option<(u64, Seq<char>)> {
    match cached {
        Some((age, s)) => Some((age, s@)),
        None => None,
    }
}

/// Whether a text is a JSON document.
pub fn is_json(s: &str) -> (r: bool)
    ensures
        r == (json_document(s@) is Some),
{
    read_json(s).is_some()
}

/// The cached text, given its age in seconds, where it is within `ttl_days` and
/// still parses: a broken cache entry must not shadow the bundled snapshot.
pub fn read_cache(ttl_days: u32, cached: Option<(u64, &str)>) -> (r: Option<String>)
    ensures
        text::opt_text(r) == usable(ttl_days, cached_view(cached)),
{
    match cached {
        Some((age, s)) => if age <= ttl_days as u64 * 86400 && is_json(s) {
            Some(s.to_string())
        } else {
            None
        },
        None => None,
    }
}

/// The content to use right now.
pub open spec fn read_spec(
    bundled: Seq<char>,
    ttl_days: u32,
    cached: Option<(u64, Seq<char>)>,
) -> Seq<char> {
    if ttl_days == 0 {
        bundled
    } else {
        match usable(ttl_days, cached) {
            Some(s) => s,
            None => bundled,
        }
    }
}

/// The content to use right now: a fresh cached refresh if one exists within
/// `ttl_days`, otherwise the bundled snapshot. `0` days means fully offline.
pub fn read(bundled: &str, ttl_days: u32, cached: Option<(u64, &str)>) -> (r: String)
    ensures
        r@ == read_spec(bundled@, ttl_days, cached_view(cached)),
{
    if ttl_days == 0 {
        return bundled.to_string();
    }
    match read_cache(ttl_days, cached) {
        Some(s) => s,
        None => bundled.to_string(),
    }
}

/// Whether a dataset should be fetched: never when fully offline, else where no
/// cached copy may be used.
pub open spec fn stale(ttl_days: u32, cached: Option<(u64, Seq<char>)>) -> bool {
    ttl_days != 0 && usable(ttl_days, cached) is None
}

/// Whether a dataset should be fetched in the background: never when fully
/// offline, else where no cached copy may be used.
pub fn is_stale(ttl_days: u32, cached: Option<(u64, &str)>) -> (r: bool)
    ensures
        r == stale(ttl_days, cached_view(cached)),
{
    ttl_days != 0 && read_cache(ttl_days, cached).is_none()
}

/// Where the datasets are refreshed from.
pub const BASE_URL: &'static str = "https://raw.githubusercontent.com/Abdullah-Masood-05/pypilot/main/helper/data";

/// The names of the datasets.
pub fn dataset_names() -> (r: Vec<String>)
    ensures
        text::texts(r@) == seq!["nvidia.json"@, "frameworks.json"@, "import_map.json"@],
{
    let r = text::strings(&["nvidia.json", "frameworks.json", "import_map.json"]);
    proof {
        assert(text::texts(r@) =~= seq![
            "nvidia.json"@,
            "frameworks.json"@,
            "import_map.json"@,
        ]);
    }
    r
}

/// The address a dataset is refreshed from.
pub fn dataset_url(name: &str) -> (r: String)
    ensures
        r@ == BASE_URL@ + "/"@ + name@,
{
    let mut out = BASE_URL.to_string();
    out.append("/");
    out.append(name);
    out
}

/// What is read is the bundled dataset or a cached one that is whole, and with
/// refreshing off it is the bundled one.
pub proof fn what_is_read_is_whole(
    bundled: Seq<char>,
    ttl_days: u32,
    cached: Option<(u64, Seq<char>)>,
)
    ensures
        read_spec(bundled, ttl_days, cached) == bundled || json_document(
            read_spec(bundled, ttl_days, cached),
        ) is Some,
        ttl_days == 0 ==> read_spec(bundled, ttl_days, cached) == bundled,
{
}

/// With refreshing off nothing is ever fetched; otherwise a dataset is fetched
/// exactly while the bundled one stands in for it.
pub proof fn only_what_is_missing_is_fetched(
    bundled: Seq<char>,
    ttl_days: u32,
    cached: Option<(u64, Seq<char>)>,
)
    ensures
        !stale(0, cached),
        stale(ttl_days, cached) ==> read_spec(bundled, ttl_days, cached) == bundled,
        ttl_days != 0 && !stale(ttl_days, cached) ==> cached is Some && read_spec(
            bundled,
            ttl_days,
            cached,
        ) == (cached->0).1,
{
}

/// A cached dataset is used for as many days as it is said to last, and not a second
/// longer; then the bundled one is, and a newer one is fetched.
pub proof fn datasets_last_their_days(
    bundled: Seq<char>,
    cached: Seq<char>,
    days: u32,
    age: u64,
)
    requires
        days > 0,
        json_document(cached) is Some,
    ensures
        age <= days * 24 * 60 * 60 ==> read_spec(bundled, days, Some((age, cached))) == cached
            && !stale(days, Some((age, cached))),
        age > days * 24 * 60 * 60 ==> read_spec(bundled, days, Some((age, cached))) == bundled
            && stale(days, Some((age, cached))),
        read_spec(bundled, days, None) == bundled,
        stale(days, None),
{
}

/// A cached dataset that is not whole is never used, and is fetched again.
pub proof fn broken_datasets_are_fetched_again(
    bundled: Seq<char>,
    cached: Seq<char>,
    days: u32,
    age: u64,
)
    requires
        json_document(cached) is None,
    ensures
        read_spec(bundled, days, Some((age, cached))) == bundled,
        days > 0 ==> stale(days, Some((age, cached))),
{
}

} // verus!
