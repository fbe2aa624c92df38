//! The crawler's reading of a site's `robots.txt`.

use vstd::prelude::*;

use crate::text::{
    chars_of, has_prefix, parse_u8, parse_u8_text, range_has_prefix, range_strip_prefixes,
    span_texts, spans_within, split, split_spans, str_range, str_views, strip_prefixes,
};

verus! {

broadcast use vstd::string::group_string_axioms;

/// The lines of `robots.txt` that the configuration reads: the pieces between `"\r\n"`
/// separators, without those that are empty or a lone `"\n"`.
pub open spec fn nonblank_lines(ls: Seq<Seq<char>>) -> Seq<Seq<char>>
    decreases ls.len(),
{
    if ls.len() == 0 {
        seq![]
    } else if ls.last() != "\n"@ && ls.last() != ""@ {
        nonblank_lines(ls.drop_last()).push(ls.last())
    } else {
        nonblank_lines(ls.drop_last())
    }
}

/// The lines of a `robots.txt` text.
pub open spec fn robots_lines(txt: Seq<char>) -> Seq<Seq<char>> {
    nonblank_lines(split(txt, "\r\n"@))
}

/// The lines that start with `p`, in order, each with every leading copy of `p` removed.
pub open spec fn prefixed_lines(ls: Seq<Seq<char>>, p: Seq<char>) -> Seq<Seq<char>>
    decreases ls.len(),
{
    if ls.len() == 0 {
        seq![]
    } else if has_prefix(ls.last(), p) {
        prefixed_lines(ls.drop_last(), p).push(strip_prefixes(ls.last(), p))
    } else {
        prefixed_lines(ls.drop_last(), p)
    }
}

/// The index of the first line at or after `from` that starts with `p`, or -1.
pub open spec fn first_prefixed(ls: Seq<Seq<char>>, p: Seq<char>, from: int) -> int
    decreases ls.len() - from,
{
    if from < 0 || from >= ls.len() {
        -1
    } else if has_prefix(ls[from], p) {
        from
    } else {
        first_prefixed(ls, p, from + 1)
    }
}

/// The crawl delay that the lines give: the number after the first `crawl-delay: ` line,
/// or 1 where there is no such line or its number is not a `u8`.
pub open spec fn robots_crawl_delay(ls: Seq<Seq<char>>) -> u8 {
    let k = first_prefixed(ls, "crawl-delay: "@, 0);
    if k < 0 {
        1
    } else {
        match parse_u8_text(strip_prefixes(ls[k], "crawl-delay: "@)) {
            Some(d) => d,
            None => 1,
        }
    }
}

/// The sitemap that the lines give: the first `Sitemap: ` line after the first
/// `crawl-delay: ` line. Where no `crawl-delay: ` line comes first there is none: the search
/// for the sitemap goes on from where the search for the crawl delay stopped.
pub open spec fn robots_sitemap(ls: Seq<Seq<char>>) -> Option<Seq<char>> {
    let k = first_prefixed(ls, "crawl-delay: "@, 0);
    if k < 0 {
        None
    } else {
        let j = first_prefixed(ls, "Sitemap: "@, k + 1);
        if j < 0 {
            None
        } else {
            Some(strip_prefixes(ls[j], "Sitemap: "@))
        }
    }
}

/// The view of an optional string slice.
pub open spec fn opt_str_view(o: Option<&str>) -> Option<Seq<char>> {
    match o {
        Some(s) => Some(s@),
        None => None,
    }
}

/// What the crawler takes from `robots.txt`.
#[derive(Debug)]
pub struct CrawlerConfig<'a> {
    pub allowed_paths: Vec<&'a str>,
    pub disallowed_paths: Vec<&'a str>,
    pub crawl_delay: u8,
    pub sitemap_url: Option<&'a str>,
}

/// The spans of the lines of the text `v`.
fn robots_line_spans(v: &Vec<char>) -> (r: Vec<(usize, usize)>)
    ensures
        spans_within(r@, v@.len()),
        span_texts(v@, r@) == robots_lines(v@),
{
    let crlf = chars_of("\r\n");
    proof {
        reveal_strlit("\r\n");
    }
    let pieces = split_spans(v, &crlf);
    let ghost all = span_texts(v@, pieces@);
    let mut r: Vec<(usize, usize)> = Vec::new();
    let mut i: usize = 0;
    while i < pieces.len()
        invariant
            i <= pieces@.len(),
            spans_within(pieces@, v@.len()),
            spans_within(r@, v@.len()),
            all == span_texts(v@, pieces@),
            span_texts(v@, r@) == nonblank_lines(all.take(i as int)),
        decreases pieces.len() - i,
    {
        let (a, b) = pieces[i];
        let ghost line = v@.subrange(a as int, b as int);
        assert(all[i as int] == line);
        assert(all.take(i + 1).drop_last() =~= all.take(i as int));
        assert(all.take(i + 1).last() == line);
        proof {
            reveal_strlit("\n");
            reveal_strlit("");
        }
        let blank = a == b || (b == a + 1 && v[a] == '\n');
        assert(blank <==> (line == "\n"@ || line == ""@)) by {
            if a == b {
                assert(line =~= ""@);
            }
            if b == a + 1 && v@[a as int] == '\n' {
                assert(line =~= "\n"@);
            }
            if line == "\n"@ {
                assert(line.len() == 1 && line[0] == '\n');
            }
        }
        let ghost old_r = r@;
        if !blank {
            r.push((a, b));
            assert(span_texts(v@, r@) =~= span_texts(v@, old_r).push(line));
        }
        i += 1;
    }
    assert(all.take(i as int) =~= all);
    r
}

/// The lines among `lines` that start with `p`, stripped of the leading copies of `p`.
fn prefixed_paths<'b>(html: &'b str, v: &Vec<char>, lines: &Vec<(usize, usize)>, p: &Vec<char>)
    -> (r: Vec<&'b str>)
    requires
        v@ == html@,
        spans_within(lines@, v@.len()),
        p@.len() > 0,
    ensures
        str_views(r@) == prefixed_lines(span_texts(v@, lines@), p@),
{
    let ghost ls = span_texts(v@, lines@);
    let mut r: Vec<&'b str> = Vec::new();
    let mut i: usize = 0;
    while i < lines.len()
        invariant
            i <= lines@.len(),
            v@ == html@,
            p@.len() > 0,
            spans_within(lines@, v@.len()),
            ls == span_texts(v@, lines@),
            str_views(r@) == prefixed_lines(ls.take(i as int), p@),
        decreases lines.len() - i,
    {
        let (a, b) = lines[i];
        assert(ls[i as int] == v@.subrange(a as int, b as int));
        assert(ls.take(i + 1).drop_last() =~= ls.take(i as int));
        if range_has_prefix(v, a, b, p) {
            let k = range_strip_prefixes(v, a, b, p);
            let ghost old_r = r@;
            r.push(str_range(html, v, k, b));
            assert(str_views(r@) =~= str_views(old_r).push(v@.subrange(k as int, b as int)));
        }
        i += 1;
    }
    assert(ls.take(i as int) =~= ls);
    r
}

/// The index of the first of `lines` at or after `from` that starts with `p`.
fn first_prefixed_line(v: &Vec<char>, lines: &Vec<(usize, usize)>, p: &Vec<char>, from: usize)
    -> (r: Option<usize>)
    requires
        spans_within(lines@, v@.len()),
    ensures
        match r {
            Some(k) => first_prefixed(span_texts(v@, lines@), p@, from as int) == k && k
                < lines@.len(),
            None => first_prefixed(span_texts(v@, lines@), p@, from as int) == -1,
        },
{
    let ghost ls = span_texts(v@, lines@);
    let mut i = from;
    while i < lines.len()
        invariant
            from <= i,
            spans_within(lines@, v@.len()),
            ls == span_texts(v@, lines@),
            first_prefixed(ls, p@, from as int) == first_prefixed(ls, p@, i as int),
        decreases lines.len() - i,
    {
        let (a, b) = lines[i];
        assert(ls[i as int] == v@.subrange(a as int, b as int));
        if range_has_prefix(v, a, b, p) {
            return Some(i);
        }
        i += 1;
    }
    None
}

impl<'a> CrawlerConfig<'a> {
    /// Reads a `robots.txt` text: its `Allow: ` and `Disallow: ` paths, the crawl delay
    /// (1 by default) and the sitemap.
    pub fn new<'b>(html: &'b str) -> (cfg: CrawlerConfig<'b>)
        ensures
            str_views(cfg.allowed_paths@) == prefixed_lines(robots_lines(html@), "Allow: "@),
            str_views(cfg.disallowed_paths@) == prefixed_lines(
                robots_lines(html@),
                "Disallow: "@,
            ),
            cfg.crawl_delay == robots_crawl_delay(robots_lines(html@)),
            opt_str_view(cfg.sitemap_url) == robots_sitemap(robots_lines(html@)),
    {
        let v = chars_of(html);
        let lines = robots_line_spans(&v);
        let allow = chars_of("Allow: ");
        let disallow = chars_of("Disallow: ");
        let delay = chars_of("crawl-delay: ");
        let sitemap = chars_of("Sitemap: ");
        proof {
            reveal_strlit("Allow: ");
            reveal_strlit("Disallow: ");
            reveal_strlit("crawl-delay: ");
            reveal_strlit("Sitemap: ");
        }
        let allowed_paths = prefixed_paths(html, &v, &lines, &allow);
        let disallowed_paths = prefixed_paths(html, &v, &lines, &disallow);
        let ghost ls = span_texts(v@, lines@);
        let (crawl_delay, sitemap_url) = match first_prefixed_line(&v, &lines, &delay, 0) {
            None => (1u8, None),
            Some(k) => {
                let (a, b) = lines[k];
                assert(ls[k as int] == v@.subrange(a as int, b as int));
                let start = range_strip_prefixes(&v, a, b, &delay);
                let d = match parse_u8(str_range(html, &v, start, b)) {
                    Some(d) => d,
                    None => 1u8,
                };
                let n = lines.len();
                assert(k < n);
                let s = match first_prefixed_line(&v, &lines, &sitemap, k + 1) {
                    None => None,
                    Some(j) => {
                        let (c, e) = lines[j];
                        assert(ls[j as int] == v@.subrange(c as int, e as int));
                        let start2 = range_strip_prefixes(&v, c, e, &sitemap);
                        Some(str_range(html, &v, start2, e))
                    },
                };
                (d, s)
            },
        };
        CrawlerConfig { allowed_paths, disallowed_paths, crawl_delay, sitemap_url }
    }
}

/// A sitemap is only ever found after a `crawl-delay: ` line: the first `Sitemap: ` line
/// that comes after the first `crawl-delay: ` line.
pub proof fn law_sitemap_follows_crawl_delay(ls: Seq<Seq<char>>)
    ensures
        robots_sitemap(ls) is Some ==> first_prefixed(ls, "crawl-delay: "@, 0) >= 0,
        robots_sitemap(ls) is Some ==> first_prefixed(
            ls,
            "Sitemap: "@,
            first_prefixed(ls, "crawl-delay: "@, 0) + 1,
        ) > first_prefixed(ls, "crawl-delay: "@, 0),
{
    let k = first_prefixed(ls, "crawl-delay: "@, 0);
    if k >= 0 {
        lemma_first_prefixed_after(ls, "Sitemap: "@, k + 1);
    }
}

/// A line found from `from` on lies at or after `from`.
proof fn lemma_first_prefixed_after(ls: Seq<Seq<char>>, p: Seq<char>, from: int)
    ensures
        first_prefixed(ls, p, from) == -1 || (from <= first_prefixed(ls, p, from) < ls.len()),
    decreases ls.len() - from,
{
    if from < 0 || from >= ls.len() {
    } else if has_prefix(ls[from], p) {
    } else {
        lemma_first_prefixed_after(ls, p, from + 1);
    }
}

/// The search from `from` finds the first line at or after `from` that starts with `p`.
proof fn lemma_first_prefixed_is_first(ls: Seq<Seq<char>>, p: Seq<char>, from: int, k: int)
    requires
        0 <= from <= k < ls.len(),
        has_prefix(ls[k], p),
        forall|j: int| from <= j < k ==> !has_prefix(#[trigger] ls[j], p),
    ensures
        first_prefixed(ls, p, from) == k,
    decreases k - from,
{
    if from < k {
        lemma_first_prefixed_is_first(ls, p, from + 1, k);
    }
}

/// The search from `from` finds nothing where no line at or after `from` starts with `p`.
proof fn lemma_first_prefixed_none(ls: Seq<Seq<char>>, p: Seq<char>, from: int)
    requires
        0 <= from,
        forall|j: int| from <= j < ls.len() ==> !has_prefix(#[trigger] ls[j], p),
    ensures
        first_prefixed(ls, p, from) == -1,
    decreases ls.len() - from,
{
    if from < ls.len() {
        lemma_first_prefixed_none(ls, p, from + 1);
    }
}

/// The crawl delay is read from the first `crawl-delay: ` line, whatever lines follow it:
/// its number where it is a `u8`, else 1.
pub proof fn law_crawl_delay_from_first_delay_line(ls: Seq<Seq<char>>, k: int)
    requires
        0 <= k < ls.len(),
        has_prefix(ls[k], "crawl-delay: "@),
        forall|j: int| 0 <= j < k ==> !has_prefix(#[trigger] ls[j], "crawl-delay: "@),
    ensures
        robots_crawl_delay(ls) == (match parse_u8_text(strip_prefixes(ls[k], "crawl-delay: "@)) {
            Some(d) => d,
            None => 1u8,
        }),
{
    lemma_first_prefixed_is_first(ls, "crawl-delay: "@, 0, k);
}

/// Without a `crawl-delay: ` line the crawl delay is 1 and there is no sitemap.
pub proof fn law_no_delay_line_defaults(ls: Seq<Seq<char>>)
    requires
        forall|j: int| 0 <= j < ls.len() ==> !has_prefix(#[trigger] ls[j], "crawl-delay: "@),
    ensures
        robots_crawl_delay(ls) == 1,
        robots_sitemap(ls) is None,
{
    lemma_first_prefixed_none(ls, "crawl-delay: "@, 0);
}

/// After the first `crawl-delay: ` line at `k`, the sitemap is that of the first
/// `Sitemap: ` line after `k`; where no such line follows, there is none.
pub proof fn law_sitemap_is_first_after_delay_line(ls: Seq<Seq<char>>, k: int, j: int)
    requires
        0 <= k < ls.len(),
        has_prefix(ls[k], "crawl-delay: "@),
        forall|i: int| 0 <= i < k ==> !has_prefix(#[trigger] ls[i], "crawl-delay: "@),
    ensures
        k < j < ls.len() && has_prefix(ls[j], "Sitemap: "@) && (forall|i: int|
            k < i < j ==> !has_prefix(#[trigger] ls[i], "Sitemap: "@)) ==> robots_sitemap(ls)
            == Some(strip_prefixes(ls[j], "Sitemap: "@)),
        (forall|i: int| k < i < ls.len() ==> !has_prefix(#[trigger] ls[i], "Sitemap: "@))
            ==> robots_sitemap(ls) is None,
{
    lemma_first_prefixed_is_first(ls, "crawl-delay: "@, 0, k);
    if k < j < ls.len() && has_prefix(ls[j], "Sitemap: "@) && (forall|i: int|
        k < i < j ==> !has_prefix(#[trigger] ls[i], "Sitemap: "@)) {
        lemma_first_prefixed_is_first(ls, "Sitemap: "@, k + 1, j);
    }
    if forall|i: int| k < i < ls.len() ==> !has_prefix(#[trigger] ls[i], "Sitemap: "@) {
        lemma_first_prefixed_none(ls, "Sitemap: "@, k + 1);
    }
}

/// A single line contributes its path exactly when it starts with `p`: the line with every
/// leading copy of `p` removed.
pub proof fn law_prefixed_lines_single(l: Seq<char>, p: Seq<char>)
    ensures
        prefixed_lines(seq![l], p) == (if has_prefix(l, p) {
            seq![strip_prefixes(l, p)]
        } else {
            Seq::<Seq<char>>::empty()
        }),
{
    reveal_with_fuel(prefixed_lines, 2);
    assert(seq![l].drop_last() =~= Seq::<Seq<char>>::empty());
    assert(seq![l].last() == l);
    assert(Seq::<Seq<char>>::empty().push(strip_prefixes(l, p)) =~= seq![strip_prefixes(l, p)]);
}

/// The paths of two consecutive runs of lines are the paths of the first run followed by
/// those of the second: which lines count does not depend on what stands before them (a
/// `crawl-delay: ` line or any other).
pub proof fn law_prefixed_lines_concat(a: Seq<Seq<char>>, b: Seq<Seq<char>>, p: Seq<char>)
    ensures
        prefixed_lines(a + b, p) == prefixed_lines(a, p) + prefixed_lines(b, p),
    decreases b.len(),
{
    if b.len() == 0 {
        assert(a + b =~= a);
        assert(prefixed_lines(a, p) + Seq::<Seq<char>>::empty() =~= prefixed_lines(a, p));
    } else {
        assert((a + b).drop_last() =~= a + b.drop_last());
        assert((a + b).last() == b.last());
        law_prefixed_lines_concat(a, b.drop_last(), p);
        if has_prefix(b.last(), p) {
            assert(prefixed_lines(a, p) + prefixed_lines(b.drop_last(), p).push(
                strip_prefixes(b.last(), p),
            ) =~= (prefixed_lines(a, p) + prefixed_lines(b.drop_last(), p)).push(
                strip_prefixes(b.last(), p),
            ));
        }
    }
}

/// Each path that the configuration lists comes from a line that starts with the prefix,
/// and each such line gives its path, in line order: the `i`-th line among those that start
/// with `p` gives the `i`-th path.
pub proof fn law_prefixed_lines_in_order(ls: Seq<Seq<char>>, p: Seq<char>, k: int)
    requires
        0 <= k < ls.len(),
        has_prefix(ls[k], p),
    ensures
        prefixed_lines(ls, p)[prefixed_lines(ls.take(k), p).len() as int] == strip_prefixes(
            ls[k],
            p,
        ),
        prefixed_lines(ls.take(k), p).len() < prefixed_lines(ls, p).len(),
{
    let a = ls.take(k);
    let b = ls.skip(k);
    assert(a + b =~= ls);
    law_prefixed_lines_concat(a, b, p);
    let c = seq![ls[k]];
    let d = ls.skip(k + 1);
    assert(b =~= c + d);
    law_prefixed_lines_concat(c, d, p);
    law_prefixed_lines_single(ls[k], p);
}

} // verus!
