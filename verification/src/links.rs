//! Which links the crawler follows: the extension filter, the normalisation of URLs onto the
//! site, and the links found in a page.

use vstd::prelude::*;

use crate::scrape::{scraped_attrs, select_attrs};
use crate::text::{
    chars_of, has_prefix, has_prefix_exec, has_suffix, has_suffix_exec, lemma_find_from,
    find_from, occurs_at, split, split_from, split_spans, span_texts, string_of_range,
    string_views,
};
use crate::url_set::UrlSet;

verus! {

broadcast use vstd::string::group_string_axioms;

/// The extension that `std::path::Path::extension` finds in `p`: `None` where there is none,
/// `Some(None)` where it is not valid UTF-8, else the text after the last `.` of the file name.
pub uninterp spec fn path_extension_of(p: Seq<char>) -> Option<Option<Seq<char>>>;

/// The host that `reqwest::Url::parse` finds in `u`: `None` where `u` is not an absolute URL
/// that parses, `Some(None)` where the URL has no host.
pub uninterp spec fn url_host_of(u: Seq<char>) -> Option<Option<Seq<char>>>;

/// `Path::new(p).extension()`, with `OsStr::to_str` on the result. The contract names the
/// result; it says nothing of how the file name and its extension are found.
#[verifier::external_body]
fn path_extension(p: &str) -> (r: Option<Option<String>>)
    ensures
        r.deep_view() == path_extension_of(p@),
{
    std::path::Path::new(p).extension().map(|e| e.to_str().map(String::from))
}

/// `reqwest::Url::parse(u)`, then `Url::host_str` where it parses. The contract names the
/// result; it says nothing of which texts parse or what host they have.
#[verifier::external_body]
fn url_host(u: &str) -> (r: Option<Option<String>>)
    ensures
        r.deep_view() == url_host_of(u@),
{
    match reqwest::Url::parse(u) {
        Ok(url) => Some(url.host_str().map(String::from)),
        Err(_) => None,
    }
}

/// A reference is followed where its path has no extension or the extension `xml`.
pub open spec fn has_allowed_extension(u: Seq<char>) -> bool {
    match path_extension_of(u) {
        None => true,
        Some(Some(e)) => e == "xml"@,
        Some(None) => false,
    }
}

/// Whether the path of `url` has no extension or the extension `xml`.
pub fn allowed_extension(url: &&str) -> (r: bool)
    ensures
        r == has_allowed_extension(url@),
{
    match path_extension(*url) {
        None => true,
        Some(Some(e)) => {
            let xml = String::from_str("xml");
            e == xml
        },
        Some(None) => false,
    }
}

/// Whether `url` ends with `xml`.
pub fn is_xml(url: &str) -> (r: bool)
    ensures
        r == has_suffix(url@, "xml"@),
{
    has_suffix_exec(&chars_of(url), &chars_of("xml"))
}

/// The host name of the site.
pub open spec fn site_host() -> Seq<char> {
    "www.d20pfsrd.com"@
}

/// The origin that site-relative references are resolved against.
pub open spec fn site_origin() -> Seq<char> {
    "https://www.d20pfsrd.com"@
}

/// `u` up to its first `#`.
pub open spec fn without_fragment(u: Seq<char>) -> Seq<char> {
    split(u, "#"@)[0]
}

/// The URL that a reference stands for on the site: an absolute URL on the site's host as
/// it is, a reference that does not parse and starts with `/` resolved against the site's
/// origin; in both cases without its fragment. Any other reference stands for none.
pub open spec fn normalized_url(u: Seq<char>) -> Option<Seq<char>> {
    match url_host_of(u) {
        Some(Some(h)) => if h == site_host() {
            Some(without_fragment(u))
        } else {
            None
        },
        Some(None) => None,
        None => if has_prefix(u, "/"@) {
            Some(site_origin() + without_fragment(u))
        } else {
            None
        },
    }
}

/// The first piece of a split is the text before the first occurrence of the separator.
pub proof fn lemma_split_first(s: Seq<char>, p: Seq<char>)
    requires
        p.len() > 0,
    ensures
        split(s, p).len() > 0,
        find_from(s, p, 0) < 0 ==> split(s, p)[0] == s,
        find_from(s, p, 0) >= 0 ==> split(s, p)[0] == s.subrange(0, find_from(s, p, 0)),
{
    lemma_find_from(s, p, 0);
    assert(s.subrange(0, s.len() as int) =~= s);
}

/// `url` up to its first `#`, as a string.
fn fragmentless(v: &Vec<char>) -> (r: String)
    ensures
        r@ == without_fragment(v@),
{
    let hash = vec!['#'];
    proof {
        reveal_strlit("#");
        assert(hash@ =~= "#"@);
    }
    let spans = split_spans(v, &hash);
    proof {
        lemma_split_first(v@, hash@);
    }
    let (a, b) = spans[0];
    assert(span_texts(v@, spans@)[0] == v@.subrange(a as int, b as int));
    string_of_range(v, a, b)
}

/// The URL on the site that `url` refers to, without its fragment; `None` for a reference
/// off the site.
pub fn normalize_url(url: &str) -> (r: Option<String>)
    ensures
        r.deep_view() == normalized_url(url@),
{
    let v = chars_of(url);
    match url_host(url) {
        Some(Some(h)) => {
            let host = String::from_str("www.d20pfsrd.com");
            if h == host {
                Some(fragmentless(&v))
            } else {
                None
            }
        },
        Some(None) => None,
        None => {
            let slash = vec!['/'];
            proof {
                reveal_strlit("/");
                assert(slash@ =~= "/"@);
            }
            if has_prefix_exec(&v, &slash) {
                let rest = fragmentless(&v);
                let mut out = String::from_str("https://www.d20pfsrd.com");
                out.append(rest.as_str());
                Some(out)
            } else {
                None
            }
        },
    }
}

/// The URLs that the present values among `hrefs` stand for, in order.
pub open spec fn present(hrefs: Seq<Option<Seq<char>>>) -> Seq<Seq<char>>
    decreases hrefs.len(),
{
    if hrefs.len() == 0 {
        seq![]
    } else {
        match hrefs.last() {
            Some(h) => present(hrefs.drop_last()).push(h),
            None => present(hrefs.drop_last()),
        }
    }
}

/// `n` is the site URL of one of the references in `refs` that passes the extension filter.
pub open spec fn yields_link(refs: Seq<Seq<char>>, n: Seq<char>) -> bool {
    exists|i: int|
        0 <= i < refs.len() && has_allowed_extension(refs[i]) && #[trigger] normalized_url(
            refs[i],
        ) == Some(n)
}

/// The links that a list of references yields.
pub open spec fn link_set(refs: Seq<Seq<char>>) -> Set<Seq<char>> {
    Set::new(|n: Seq<char>| yields_link(refs, n))
}

/// What one more reference adds to the links.
pub proof fn lemma_link_set_push(refs: Seq<Seq<char>>, c: Seq<char>)
    ensures
        link_set(refs.push(c)) == (if has_allowed_extension(c) && normalized_url(c) is Some {
            link_set(refs).insert(normalized_url(c)->0)
        } else {
            link_set(refs)
        }),
{
    let more = refs.push(c);
    let rhs = if has_allowed_extension(c) && normalized_url(c) is Some {
        link_set(refs).insert(normalized_url(c)->0)
    } else {
        link_set(refs)
    };
    assert forall|n: Seq<char>| link_set(more).contains(n) <==> rhs.contains(n) by {
        if yields_link(more, n) {
            let i = choose|i: int|
                0 <= i < more.len() && has_allowed_extension(more[i]) && #[trigger] normalized_url(
                    more[i],
                ) == Some(n);
            if i < refs.len() {
                assert(more[i] == refs[i]);
                assert(yields_link(refs, n));
            }
        }
        if rhs.contains(n) {
            if yields_link(refs, n) {
                let i = choose|i: int|
                    0 <= i < refs.len() && has_allowed_extension(refs[i]) && #[trigger] normalized_url(
                        refs[i],
                    ) == Some(n);
                assert(more[i] == refs[i]);
                assert(yields_link(more, n));
            } else {
                assert(more[refs.len() as int] == c);
                assert(yields_link(more, n));
            }
        }
    }
    assert(link_set(more) =~= rhs);
}

/// The links that the references `refs` yield: those that pass the extension filter and
/// stand for a URL on the site, each once.
pub fn links_from_references(refs: &Vec<String>) -> (r: UrlSet)
    ensures
        r@ == link_set(string_views(refs@)),
{
    let mut r = UrlSet::new();
    let mut i: usize = 0;
    let ghost all = string_views(refs@);
    assert(all.take(0) =~= Seq::<Seq<char>>::empty());
    assert(link_set(Seq::<Seq<char>>::empty()) =~= Set::<Seq<char>>::empty());
    while i < refs.len()
        invariant
            i <= refs@.len(),
            all == string_views(refs@),
            r@ == link_set(all.take(i as int)),
        decreases refs.len() - i,
    {
        let u = refs[i].as_str();
        assert(all.take(i + 1) =~= all.take(i as int).push(u@));
        proof {
            lemma_link_set_push(all.take(i as int), u@);
        }
        if allowed_extension(&u) {
            match normalize_url(u) {
                Some(n) => {
                    r.insert(n);
                },
                None => {},
            }
        }
        i += 1;
    }
    assert(all.take(i as int) =~= all);
    r
}

/// The present values among `hrefs`, in order.
pub fn present_values(hrefs: &Vec<Option<String>>) -> (r: Vec<String>)
    ensures
        string_views(r@) == present(hrefs.deep_view()),
{
    let mut r: Vec<String> = Vec::new();
    let mut i: usize = 0;
    let ghost all = hrefs.deep_view();
    while i < hrefs.len()
        invariant
            i <= hrefs@.len(),
            all == hrefs.deep_view(),
            string_views(r@) == present(all.take(i as int)),
        decreases hrefs.len() - i,
    {
        assert(all.take(i + 1).drop_last() =~= all.take(i as int));
        match &hrefs[i] {
            Some(h) => {
                let ghost before = r@;
                r.push(h.clone());
                assert(string_views(r@) =~= string_views(before).push(h@));
            },
            None => {},
        }
        i += 1;
    }
    assert(all.take(i as int) =~= all);
    r
}

/// The links of an HTML page: the `href` of each `a` element, followed as
/// `links_from_references` says; `None` where the selector `a` does not parse.
pub open spec fn html_links(html: Seq<char>) -> Option<Set<Seq<char>>> {
    match scraped_attrs(html, "a"@, "href"@) {
        Some(hrefs) => Some(link_set(present(hrefs))),
        None => None,
    }
}

/// The links of an HTML page: the `href` of every `a` element that passes the extension
/// filter and stands for a URL on the site.
pub fn get_links_from_html(html: &str) -> (r: UrlSet)
    requires
        scraped_attrs(html@, "a"@, "href"@) is Some,
    ensures
        html_links(html@) == Some(r@),
{
    match select_attrs(html, "a", "href") {
        Some(hrefs) => links_from_references(&present_values(&hrefs)),
        None => UrlSet::new(),
    }
}

/// The links of an HTML page; `None` where the selector `a` does not parse.
pub fn try_get_links_from_html(html: &str) -> (r: Option<UrlSet>)
    ensures
        match r {
            Some(s) => html_links(html@) == Some(s@),
            None => html_links(html@) is None,
        },
{
    match select_attrs(html, "a", "href") {
        Some(_) => Some(get_links_from_html(html)),
        None => None,
    }
}

/// The text before the first `#` holds no `#`.
proof fn lemma_without_fragment(u: Seq<char>)
    ensures
        !without_fragment(u).contains('#'),
{
    reveal_strlit("#");
    let h = "#"@;
    lemma_split_first(u, h);
    lemma_find_from(u, h, 0);
    let w = without_fragment(u);
    if w.contains('#') {
        let j = choose|j: int| 0 <= j < w.len() && w[j] == '#';
        assert(u[j] == '#');
        assert(u.subrange(j, j + 1) =~= h);
        assert(occurs_at(u, h, j));
    }
}

/// A URL that a reference stands for on the site never has a fragment: it holds no `#`.
pub proof fn law_normalized_url_has_no_fragment(u: Seq<char>)
    ensures
        normalized_url(u) matches Some(n) ==> !n.contains('#'),
{
    lemma_without_fragment(u);
    reveal_strlit("https://www.d20pfsrd.com");
    let w = without_fragment(u);
    let o = site_origin();
    if (o + w).contains('#') {
        let j = choose|j: int| 0 <= j < (o + w).len() && (o + w)[j] == '#';
        if j >= o.len() {
            assert(w[j - o.len()] == '#');
        }
    }
}

/// No link that the crawler collects from a list of references has a fragment.
pub proof fn law_links_have_no_fragment(refs: Seq<Seq<char>>, n: Seq<char>)
    requires
        link_set(refs).contains(n),
    ensures
        !n.contains('#'),
{
    let i = choose|i: int|
        0 <= i < refs.len() && has_allowed_extension(refs[i]) && #[trigger] normalized_url(
            refs[i],
        ) == Some(n);
    law_normalized_url_has_no_fragment(refs[i]);
}

/// A site-relative reference (one that does not parse as a URL and starts with `/`)
/// always stands for a URL under the site's origin.
pub proof fn law_relative_reference_on_site(u: Seq<char>)
    requires
        url_host_of(u) is None,
        has_prefix(u, "/"@),
    ensures
        normalized_url(u) matches Some(n) && has_prefix(n, site_origin()),
{
    let n = site_origin() + without_fragment(u);
    assert(n.subrange(0, site_origin().len() as int) =~= site_origin());
}

/// A reference is followed exactly when `Path::extension` finds no extension in it, or
/// finds exactly the extension `xml`: any other extension, and one that is not valid UTF-8,
/// keeps it out.
pub proof fn law_only_extensionless_or_xml_followed(u: Seq<char>)
    ensures
        has_allowed_extension(u) <==> (path_extension_of(u) is None || path_extension_of(u)
            == Some(Some("xml"@))),
{
}

/// `r` is `u` up to, not including, its first `#`; the whole of `u` where it has none.
pub open spec fn is_cut_before_fragment(u: Seq<char>, r: Seq<char>) -> bool {
    &&& r.len() <= u.len()
    &&& r == u.subrange(0, r.len() as int)
    &&& !r.contains('#')
    &&& (r.len() == u.len() || u[r.len() as int] == '#')
}

/// `u` up to its first `#` is exactly such a cut.
proof fn lemma_without_fragment_cut(u: Seq<char>)
    ensures
        is_cut_before_fragment(u, without_fragment(u)),
{
    reveal_strlit("#");
    let h = "#"@;
    lemma_without_fragment(u);
    lemma_split_first(u, h);
    lemma_find_from(u, h, 0);
    let k = find_from(u, h, 0);
    if k >= 0 {
        assert(u.subrange(k, k + 1) == h);
        assert(u.subrange(k, k + 1)[0] == u[k]);
    } else {
        assert(u.subrange(0, u.len() as int) =~= u);
    }
}

/// An absolute URL on the site's host is kept as it is up to its first `#`: path, query
/// string and all, only the fragment dropped. A site-relative reference is resolved the same
/// way behind the site's origin.
pub proof fn law_site_urls_keep_all_but_fragment(u: Seq<char>)
    ensures
        url_host_of(u) == Some(Some(site_host())) ==> normalized_url(u) is Some
            && is_cut_before_fragment(u, normalized_url(u)->0),
        url_host_of(u) is None && has_prefix(u, "/"@) ==> {
            let o = site_origin();
            &&& normalized_url(u) is Some
            &&& o.len() <= normalized_url(u)->0.len()
            &&& normalized_url(u)->0.subrange(0, o.len() as int) == o
            &&& is_cut_before_fragment(
                u,
                normalized_url(u)->0.subrange(o.len() as int, normalized_url(u)->0.len() as int),
            )
        },
{
    lemma_without_fragment_cut(u);
    let o = site_origin();
    let w = without_fragment(u);
    assert((o + w).subrange(0, o.len() as int) =~= o);
    assert((o + w).subrange(o.len() as int, (o + w).len() as int) =~= w);
}

/// No link found in an HTML page has a fragment.
pub proof fn law_html_links_have_no_fragment(html: Seq<char>, n: Seq<char>)
    requires
        html_links(html) matches Some(links) && links.contains(n),
    ensures
        !n.contains('#'),
{
    law_links_have_no_fragment(present(scraped_attrs(html, "a"@, "href"@)->0), n);
}

/// The present values are exactly the values of the entries that have one.
proof fn lemma_present(hrefs: Seq<Option<Seq<char>>>, h: Seq<char>)
    ensures
        present(hrefs).contains(h) <==> exists|i: int|
            0 <= i < hrefs.len() && #[trigger] hrefs[i] == Some(h),
    decreases hrefs.len(),
{
    if hrefs.len() > 0 {
        let init = hrefs.drop_last();
        let pi = present(init);
        let p = present(hrefs);
        lemma_present(init, h);
        assert(p == pi || (hrefs.last() is Some && p == pi.push(hrefs.last()->0)));
        if p.contains(h) {
            let k = choose|k: int| 0 <= k < p.len() && p[k] == h;
            if k < pi.len() {
                assert(pi[k] == h);
                assert(pi.contains(h));
                let i = choose|i: int| 0 <= i < init.len() && #[trigger] init[i] == Some(h);
                assert(hrefs[i] == Some(h));
            } else {
                assert(hrefs[hrefs.len() - 1] == Some(h));
            }
        }
        if exists|i: int| 0 <= i < hrefs.len() && #[trigger] hrefs[i] == Some(h) {
            let i = choose|i: int| 0 <= i < hrefs.len() && #[trigger] hrefs[i] == Some(h);
            if i < init.len() {
                assert(init[i] == Some(h));
                let k = choose|k: int| 0 <= k < pi.len() && pi[k] == h;
                assert(p[k] == h);
            } else {
                assert(p[p.len() - 1] == h);
            }
        }
    }
}

/// `hrefs[i]` is an `href` value that passes the extension filter and stands for `n`.
pub open spec fn href_yields(hrefs: Seq<Option<Seq<char>>>, i: int, n: Seq<char>) -> bool {
    0 <= i < hrefs.len() && hrefs[i] is Some && has_allowed_extension(hrefs[i]->0)
        && normalized_url(hrefs[i]->0) == Some(n)
}

/// Where the selector `a` parses, the links of an HTML page are exactly the site URLs of the
/// `href` values of its `a` elements that pass the extension filter.
pub proof fn law_html_links_are_filtered_hrefs(html: Seq<char>, n: Seq<char>)
    requires
        scraped_attrs(html, "a"@, "href"@) is Some,
    ensures
        html_links(html) matches Some(links) && (links.contains(n) <==> exists|i: int|
            #[trigger] href_yields(scraped_attrs(html, "a"@, "href"@)->0, i, n)),
{
    let hrefs = scraped_attrs(html, "a"@, "href"@)->0;
    let refs = present(hrefs);
    if yields_link(refs, n) {
        let j = choose|j: int|
            0 <= j < refs.len() && has_allowed_extension(refs[j]) && #[trigger] normalized_url(
                refs[j],
            ) == Some(n);
        let h = refs[j];
        lemma_present(hrefs, h);
        assert(refs.contains(h));
        let i = choose|i: int| 0 <= i < hrefs.len() && #[trigger] hrefs[i] == Some(h);
        assert(href_yields(hrefs, i, n));
    }
    if exists|i: int| #[trigger] href_yields(hrefs, i, n) {
        let i = choose|i: int| #[trigger] href_yields(hrefs, i, n);
        let h = hrefs[i]->0;
        lemma_present(hrefs, h);
        assert(hrefs[i] == Some(h));
        assert(refs.contains(h));
        let j = choose|j: int| 0 <= j < refs.len() && refs[j] == h;
        assert(normalized_url(refs[j]) == Some(n));
        assert(yields_link(refs, n));
    }
}

} // verus!
