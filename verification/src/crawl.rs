//! The decisions of the crawl: which URLs are visited, what kind of page each is, how a
//! failed fetch is retried and how long to wait between fetches.

use vstd::prelude::*;

use crate::pattern::{find_first, regex_first_match};
use crate::text::{chars_of, has_infix, has_infix_exec, has_prefix, has_prefix_exec, has_suffix, str_views};
use crate::links::is_xml;
use crate::url_set::UrlSet;

verus! {

broadcast use vstd::string::group_string_axioms;

/// The pattern of the URL of a spell page.
pub const SPELL_URL_PATTERN: &'static str = "^https://www.d20pfsrd.com/magic/((all-spells/[^/]+/[^/]+)|(3rd-party-spells/[^/]+/[^/]+))/?$";

/// Where the site's `robots.txt` is.
pub const ROBOTS_URL: &'static str = "https://www.d20pfsrd.com/robots.txt";

/// Where the crawl starts when `robots.txt` names no sitemap.
pub const DEFAULT_ORIGIN: &'static str = "https://www.d20pfsrd.com";

/// Where the crawl starts: the sitemap, else the site's home page.
pub fn crawl_origin<'a>(sitemap_url: Option<&'a str>) -> (r: &'a str)
    ensures
        r@ == (match sitemap_url {
            Some(s) => s@,
            None => DEFAULT_ORIGIN@,
        }),
{
    match sitemap_url {
        Some(s) => s,
        None => DEFAULT_ORIGIN,
    }
}

/// The start of the URLs of the site's magic pages.
pub const MAGIC_PREFIX: &'static str = "https://www.d20pfsrd.com/magic";

/// The kinds of page that the crawler tells apart.
#[derive(Debug, Clone, Copy, PartialEq, Eq)]
pub enum PageType {
    Race,
    Class,
    ClassSpell,
    Spell,
    Feat,
    Skill,
    Default,
}

/// Whether `u` is the URL of a spell page; `None` where the pattern does not compile.
pub open spec fn spell_url_match(u: Seq<char>) -> Option<bool> {
    match regex_first_match(SPELL_URL_PATTERN@, u) {
        Some(m) => Some(m is Some),
        None => None,
    }
}

/// Whether `url` is the URL of a spell page (the pattern matches somewhere, which for
/// `regex` is what `Regex::is_match` tells); `None` where the pattern does not compile.
pub fn is_spell_url(url: &str) -> (r: Option<bool>)
    ensures
        r == spell_url_match(url@),
{
    match find_first(SPELL_URL_PATTERN, url) {
        Some(m) => Some(m.is_some()),
        None => None,
    }
}

/// The kind of the page at `u`, tested in this order: classes, races and feats under
/// `origin`, a spell page, skills under `origin`.
pub open spec fn page_type_of(u: Seq<char>, origin: Seq<char>, spell_page: bool) -> PageType {
    if has_prefix(u, origin + "classes/"@) {
        PageType::Class
    } else if has_prefix(u, origin + "races/"@) {
        PageType::Race
    } else if has_prefix(u, origin + "feats/"@) {
        PageType::Feat
    } else if spell_page {
        PageType::Spell
    } else if has_prefix(u, origin + "skill/"@) {
        PageType::Skill
    } else {
        PageType::Default
    }
}

/// `origin` followed by `tail`, as characters.
fn joined(origin: &str, tail: &str) -> (r: Vec<char>)
    ensures
        r@ == origin@ + tail@,
{
    let mut s = String::from_str(origin);
    s.append(tail);
    chars_of(s.as_str())
}

/// The kind of the page at `url`, where `spell_page` tells whether it is a spell page.
pub fn page_type(url: &str, origin_url: &str, spell_page: bool) -> (r: PageType)
    ensures
        r == page_type_of(url@, origin_url@, spell_page),
{
    let v = chars_of(url);
    if has_prefix_exec(&v, &joined(origin_url, "classes/")) {
        PageType::Class
    } else if has_prefix_exec(&v, &joined(origin_url, "races/")) {
        PageType::Race
    } else if has_prefix_exec(&v, &joined(origin_url, "feats/")) {
        PageType::Feat
    } else if spell_page {
        PageType::Spell
    } else if has_prefix_exec(&v, &joined(origin_url, "skill/")) {
        PageType::Skill
    } else {
        PageType::Default
    }
}

/// A URL is visited where it holds none of the disallowed paths, and is a sitemap (ends
/// with `xml`) or one of the magic pages.
pub open spec fn url_in_scope(u: Seq<char>, disallowed: Seq<Seq<char>>) -> bool {
    &&& forall|i: int| 0 <= i < disallowed.len() ==> !has_infix(u, #[trigger] disallowed[i])
    &&& (has_suffix(u, "xml"@) || has_prefix(u, MAGIC_PREFIX@))
}

/// Whether the crawler visits `url`, given the disallowed paths of `robots.txt`.
pub fn in_scope(url: &str, disallowed: &Vec<&str>) -> (r: bool)
    ensures
        r == url_in_scope(url@, str_views(disallowed@)),
{
    let v = chars_of(url);
    let mut i: usize = 0;
    while i < disallowed.len()
        invariant
            i <= disallowed@.len(),
            v@ == url@,
            forall|j: int| 0 <= j < i ==> !has_infix(url@, #[trigger] str_views(disallowed@)[j]),
        decreases disallowed.len() - i,
    {
        if has_infix_exec(&v, &chars_of(disallowed[i])) {
            assert(str_views(disallowed@)[i as int] == disallowed@[i as int]@);
            return false;
        }
        i += 1;
    }
    is_xml(url) || has_prefix_exec(&v, &chars_of(MAGIC_PREFIX))
}

/// A URL that holds any of the disallowed paths, wherever that path stands in the list, is
/// not visited.
pub proof fn law_any_disallowed_path_blocks(u: Seq<char>, disallowed: Seq<Seq<char>>, i: int)
    requires
        0 <= i < disallowed.len(),
        has_infix(u, disallowed[i]),
    ensures
        !url_in_scope(u, disallowed),
{
}

/// Among URLs that hold no disallowed path, exactly the sitemaps (ending with `xml`) and the
/// magic pages are visited.
pub proof fn law_visits_sitemaps_and_magic_pages(u: Seq<char>, disallowed: Seq<Seq<char>>)
    requires
        forall|i: int| 0 <= i < disallowed.len() ==> !has_infix(u, #[trigger] disallowed[i]),
    ensures
        url_in_scope(u, disallowed) <==> (has_suffix(u, "xml"@) || has_prefix(u, MAGIC_PREFIX@)),
{
}

/// Splitting the list of disallowed paths in two changes nothing: a URL is visited under the
/// whole list exactly when it is visited under each part.
pub proof fn law_disallowed_lists_combine(u: Seq<char>, a: Seq<Seq<char>>, b: Seq<Seq<char>>)
    ensures
        url_in_scope(u, a + b) <==> (url_in_scope(u, a) && url_in_scope(u, b)),
{
    if url_in_scope(u, a) && url_in_scope(u, b) {
        assert forall|i: int| 0 <= i < (a + b).len() implies !has_infix(u, #[trigger] (a + b)[i]) by {
            if i < a.len() {
                assert((a + b)[i] == a[i]);
            } else {
                assert((a + b)[i] == b[i - a.len()]);
            }
        }
    }
    if url_in_scope(u, a + b) {
        assert forall|i: int| 0 <= i < a.len() implies !has_infix(u, #[trigger] a[i]) by {
            assert((a + b)[i] == a[i]);
        }
        assert forall|i: int| 0 <= i < b.len() implies !has_infix(u, #[trigger] b[i]) by {
            assert((a + b)[a.len() + i] == b[i]);
        }
    }
}

/// How long to sleep after a fetch so that fetches are at least `crawl_delay` seconds
/// apart: where the time since the fetch began, `elapsed_millis`, is below the delay, the
/// delay less `fetch_millis`, the duration of the fetch read just before.
pub open spec fn sleep_after(crawl_delay: u8, fetch_millis: u128, elapsed_millis: u128) -> Option<
    u64,
> {
    if elapsed_millis < crawl_delay * 1000 {
        Some((crawl_delay * 1000 - fetch_millis) as u64)
    } else {
        None
    }
}

/// The milliseconds to sleep after a fetch, if any.
pub fn sleep_millis(crawl_delay: u8, fetch_millis: u128, elapsed_millis: u128) -> (r: Option<u64>)
    requires
        fetch_millis <= elapsed_millis,
    ensures
        r == sleep_after(crawl_delay, fetch_millis, elapsed_millis),
        r matches Some(ms) ==> ms <= crawl_delay * 1000,
{
    let delay: u128 = crawl_delay as u128 * 1000;
    if elapsed_millis < delay {
        Some((delay - fetch_millis) as u64)
    } else {
        None
    }
}

/// The number of fetches of a URL before its result is kept.
pub const MAX_ATTEMPTS: u64 = 3;

/// What to do after a fetch.
#[derive(Debug, Clone, Copy, PartialEq, Eq)]
pub enum RetryStep {
    /// Keep the result of this fetch.
    Return,
    /// Sleep this many seconds and fetch again.
    SleepSecs(u64),
}

/// The step after attempt `attempt` (counted from 1): keep a success, or the result of the
/// last attempt; else sleep `attempt` seconds and retry.
pub open spec fn retry_after(attempt: u64, succeeded: bool) -> RetryStep {
    if succeeded || attempt >= MAX_ATTEMPTS {
        RetryStep::Return
    } else {
        RetryStep::SleepSecs(attempt)
    }
}

/// What to do after attempt `attempt` of a fetch.
pub fn retry_step(attempt: u64, succeeded: bool) -> (r: RetryStep)
    requires
        1 <= attempt <= MAX_ATTEMPTS,
    ensures
        r == retry_after(attempt, succeeded),
{
    if succeeded || attempt >= MAX_ATTEMPTS {
        RetryStep::Return
    } else {
        RetryStep::SleepSecs(attempt)
    }
}

/// A fetch is tried at most three times: after a success, or after the third attempt
/// whatever its outcome, its result is kept; a failure before that waits as many seconds
/// as attempts were made.
pub proof fn law_retry_at_most_three_attempts(attempt: u64, succeeded: bool)
    requires
        1 <= attempt <= MAX_ATTEMPTS,
    ensures
        succeeded || attempt == MAX_ATTEMPTS ==> retry_after(attempt, succeeded)
            == RetryStep::Return,
        !succeeded && attempt < MAX_ATTEMPTS ==> retry_after(attempt, succeeded)
            == RetryStep::SleepSecs(attempt),
{
}

/// A fetch and the sleep after it take together at least the crawl delay: where there is a
/// sleep, the fetch's duration and the sleep add up to the delay exactly; where there is
/// none, the delay had already passed.
pub proof fn law_sleep_fills_crawl_delay(crawl_delay: u8, fetch_millis: u128, elapsed_millis: u128)
    requires
        fetch_millis <= elapsed_millis,
    ensures
        match sleep_after(crawl_delay, fetch_millis, elapsed_millis) {
            Some(ms) => fetch_millis + ms == crawl_delay * 1000,
            None => elapsed_millis >= crawl_delay * 1000,
        },
{
}

/// The URLs that a round of the crawl visits next are the found ones not yet visited: none of
/// them has been visited, and once they are, every found URL has been.
pub proof fn law_frontier_is_unvisited(found: Set<Seq<char>>, visited: Set<Seq<char>>)
    ensures
        found.difference(visited).disjoint(visited),
        visited.union(found.difference(visited)) == visited.union(found),
{
    assert(visited.union(found.difference(visited)) =~= visited.union(found));
}

/// The end of a round of the crawl: the URLs of the round's frontier become visited, and the
/// next frontier is the URLs found in the round that have not been visited.
pub fn next_round(visited: &mut UrlSet, frontier: &UrlSet, found: &UrlSet) -> (r: UrlSet)
    ensures
        final(visited)@ == old(visited)@.union(frontier@),
        r@ == found@.difference(final(visited)@),
        r@.disjoint(final(visited)@),
{
    visited.extend(frontier);
    found.difference(visited)
}

} // verus!
