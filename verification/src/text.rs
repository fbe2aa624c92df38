//! Character-level text operations with their mathematical meaning.
//!
//! Texts are handled as vectors of characters; each operation is stated over
//! `Seq<char>` the way the corresponding `str` method behaves.

use vstd::prelude::*;
use vstd::std_specs::iter::IteratorSpec;
use vstd::string::StrSliceExecFns;

verus! {

broadcast use vstd::string::group_string_axioms;

/// `p` occurs in `s` starting at index `i`.
pub open spec fn occurs_at(s: Seq<char>, p: Seq<char>, i: int) -> bool {
    0 <= i && i + p.len() <= s.len() && s.subrange(i, i + p.len()) == p
}

/// `s` starts with `p` (`str::starts_with`).
pub open spec fn has_prefix(s: Seq<char>, p: Seq<char>) -> bool {
    occurs_at(s, p, 0)
}

/// `s` ends with `p` (`str::ends_with`).
pub open spec fn has_suffix(s: Seq<char>, p: Seq<char>) -> bool {
    p.len() <= s.len() && occurs_at(s, p, s.len() - p.len())
}

/// `p` occurs somewhere in `s` (`str::contains`).
pub open spec fn has_infix(s: Seq<char>, p: Seq<char>) -> bool {
    exists|i: int| occurs_at(s, p, i)
}

/// The first index at or after `i` where `p` occurs in `s`, or -1.
pub open spec fn find_from(s: Seq<char>, p: Seq<char>, i: int) -> int
    decreases s.len() + 1 - i,
{
    if i < 0 || i + p.len() > s.len() {
        -1
    } else if occurs_at(s, p, i) {
        i
    } else {
        find_from(s, p, i + 1)
    }
}

/// What `find_from` returns: the least occurrence at or after `i`, if any.
pub proof fn lemma_find_from(s: Seq<char>, p: Seq<char>, i: int)
    requires
        0 <= i,
    ensures
        find_from(s, p, i) == -1 || (i <= find_from(s, p, i) && occurs_at(
            s,
            p,
            find_from(s, p, i),
        )),
        forall|j: int|
            i <= j && (find_from(s, p, i) == -1 || j < find_from(s, p, i)) ==> !occurs_at(
                s,
                p,
                j,
            ),
    decreases s.len() + 1 - i,
{
    if i + p.len() > s.len() {
    } else if occurs_at(s, p, i) {
    } else {
        lemma_find_from(s, p, i + 1);
    }
}

/// The pieces of `s` between the non-overlapping occurrences of `p`,
/// searched from index `i` on (`str::split` with a non-empty pattern).
pub open spec fn split_from(s: Seq<char>, p: Seq<char>, i: int) -> Seq<Seq<char>>
    decreases s.len() + 1 - i,
{
    if i < 0 || i > s.len() {
        seq![]
    } else if p.len() == 0 || find_from(s, p, i) < 0 {
        seq![s.subrange(i, s.len() as int)]
    } else {
        proof {
            lemma_find_from(s, p, i);
        }
        seq![s.subrange(i, find_from(s, p, i))] + split_from(s, p, find_from(s, p, i) + p.len())
    }
}

/// `s.split(p)` for a non-empty pattern `p`.
pub open spec fn split(s: Seq<char>, p: Seq<char>) -> Seq<Seq<char>> {
    split_from(s, p, 0)
}

/// `s` with every leading copy of `p` removed (`str::trim_start_matches`).
pub open spec fn strip_prefixes(s: Seq<char>, p: Seq<char>) -> Seq<char>
    decreases s.len(),
{
    if p.len() > 0 && has_prefix(s, p) {
        strip_prefixes(s.skip(p.len() as int), p)
    } else {
        s
    }
}

/// Which characters a trim removes.
#[derive(Clone, Copy, PartialEq, Eq, Debug)]
pub enum Strip {
    /// Characters with the Unicode `White_Space` property (`str::trim`).
    WhiteSpace,
    /// `(` and `)`.
    Parens,
    /// `[` and `]`.
    Brackets,
}

/// The characters with the Unicode `White_Space` property.
pub open spec fn is_white_space(c: char) -> bool {
    ||| '\u{9}' <= c <= '\u{d}'
    ||| c == ' '
    ||| c == '\u{85}'
    ||| c == '\u{a0}'
    ||| c == '\u{1680}'
    ||| '\u{2000}' <= c <= '\u{200a}'
    ||| c == '\u{2028}'
    ||| c == '\u{2029}'
    ||| c == '\u{202f}'
    ||| c == '\u{205f}'
    ||| c == '\u{3000}'
}

/// Whether a trim of kind `kind` removes `c`.
pub open spec fn stripped(kind: Strip, c: char) -> bool {
    match kind {
        Strip::WhiteSpace => is_white_space(c),
        Strip::Parens => c == '(' || c == ')',
        Strip::Brackets => c == '[' || c == ']',
    }
}

/// `s` without its leading characters of kind `kind`.
pub open spec fn trim_front(s: Seq<char>, kind: Strip) -> Seq<char>
    decreases s.len(),
{
    if s.len() > 0 && stripped(kind, s[0]) {
        trim_front(s.drop_first(), kind)
    } else {
        s
    }
}

/// `s` without its trailing characters of kind `kind`.
pub open spec fn trim_back(s: Seq<char>, kind: Strip) -> Seq<char>
    decreases s.len(),
{
    if s.len() > 0 && stripped(kind, s.last()) {
        trim_back(s.drop_last(), kind)
    } else {
        s
    }
}

/// `s` without leading and trailing characters of kind `kind` (`str::trim_matches`).
pub open spec fn trim_chars(s: Seq<char>, kind: Strip) -> Seq<char> {
    trim_back(trim_front(s, kind), kind)
}

/// `str::trim`.
pub open spec fn trim(s: Seq<char>) -> Seq<char> {
    trim_chars(s, Strip::WhiteSpace)
}

/// The views of a sequence of character vectors.
pub open spec fn views(v: Seq<Vec<char>>) -> Seq<Seq<char>> {
    v.map_values(|x: Vec<char>| x@)
}

/// The views of a sequence of strings.
pub open spec fn string_views(v: Seq<String>) -> Seq<Seq<char>> {
    v.map_values(|x: String| x@)
}

/// The characters of `s`, in order.
pub fn chars_of(s: &str) -> (v: Vec<char>)
    ensures
        v@ == s@,
{
    let mut it = s.chars();
    let mut v: Vec<char> = Vec::new();
    loop
        invariant
            v@ + it.remaining() == s@,
            it.obeys_prophetic_iter_laws(),
            it.decrease() is Some,
        decreases it.decrease()->0,
    {
        match it.next() {
            Some(c) => {
                v.push(c);
                assert(v@ + it.remaining() =~= s@);
            },
            None => {
                assert(v@ =~= s@);
                return v;
            },
        }
    }
}

/// Whether `c` has the Unicode `White_Space` property (what `char::is_whitespace` tells).
fn char_is_whitespace(c: char) -> (r: bool)
    ensures
        r == is_white_space(c),
{
    ('\u{9}' <= c && c <= '\u{d}') || c == ' ' || c == '\u{85}' || c == '\u{a0}' || c
        == '\u{1680}' || ('\u{2000}' <= c && c <= '\u{200a}') || c == '\u{2028}' || c
        == '\u{2029}' || c == '\u{202f}' || c == '\u{205f}' || c == '\u{3000}'
}

/// A string holding the characters of `cs` (`String::from_iter`).
#[verifier::external_body]
pub(crate) fn string_of(cs: &[char]) -> (r: String)
    ensures
        r@ == cs@,
{
    cs.iter().collect()
}

/// A string holding `v@.subrange(a, b)`.
pub fn string_of_range(v: &Vec<char>, a: usize, b: usize) -> (r: String)
    requires
        a <= b <= v@.len(),
    ensures
        r@ == v@.subrange(a as int, b as int),
{
    string_of(vstd::slice::slice_subrange(v.as_slice(), a, b))
}

/// A copy of `v@.subrange(a, b)`.
pub fn sub_vec(v: &Vec<char>, a: usize, b: usize) -> (r: Vec<char>)
    requires
        a <= b <= v@.len(),
    ensures
        r@ == v@.subrange(a as int, b as int),
{
    let mut r: Vec<char> = Vec::new();
    let mut i = a;
    while i < b
        invariant
            a <= i <= b <= v@.len(),
            r@ == v@.subrange(a as int, i as int),
        decreases b - i,
    {
        r.push(v[i]);
        i += 1;
        assert(r@ =~= v@.subrange(a as int, i as int));
    }
    r
}

/// Whether `p` occurs in `v` at index `i`.
pub fn occurs_at_exec(v: &Vec<char>, p: &Vec<char>, i: usize) -> (r: bool)
    ensures
        r == occurs_at(v@, p@, i as int),
{
    if i > v.len() || p.len() > v.len() - i {
        return false;
    }
    let mut j: usize = 0;
    while j < p.len()
        invariant
            i + p@.len() <= v@.len(),
            j <= p@.len(),
            forall|k: int| 0 <= k < j ==> v@[i + k] == p@[k],
        decreases p.len() - j,
    {
        let vl = v.len();
        assert(i + j < vl);
        if v[i + j] != p[j] {
            assert(v@.subrange(i as int, i + p@.len())[j as int] != p@[j as int]);
            return false;
        }
        j += 1;
    }
    assert(v@.subrange(i as int, i + p@.len()) =~= p@);
    true
}

/// Whether `v` starts with `p`.
pub fn has_prefix_exec(v: &Vec<char>, p: &Vec<char>) -> (r: bool)
    ensures
        r == has_prefix(v@, p@),
{
    occurs_at_exec(v, p, 0)
}

/// Whether `v` ends with `p`.
pub fn has_suffix_exec(v: &Vec<char>, p: &Vec<char>) -> (r: bool)
    ensures
        r == has_suffix(v@, p@),
{
    if p.len() > v.len() {
        false
    } else {
        occurs_at_exec(v, p, v.len() - p.len())
    }
}

/// The first occurrence of `p` in `v` at or after `start`.
pub fn find_from_exec(v: &Vec<char>, p: &Vec<char>, start: usize) -> (r: Option<usize>)
    ensures
        match r {
            Some(k) => find_from(v@, p@, start as int) == k,
            None => find_from(v@, p@, start as int) == -1,
        },
{
    let mut i = start;
    while i <= v.len() && p.len() <= v.len() - i
        invariant
            start <= i,
            find_from(v@, p@, start as int) == find_from(v@, p@, i as int),
        decreases v.len() + 1 - i,
    {
        if occurs_at_exec(v, p, i) {
            return Some(i);
        }
        assert(p@.len() > 0) by {
            if p@.len() == 0 {
                assert(v@.subrange(i as int, i as int) =~= p@);
            }
        }
        i += 1;
    }
    None
}

/// `p` occurs in `s` exactly when `find_from` finds it from index 0.
pub proof fn lemma_has_infix_find(s: Seq<char>, p: Seq<char>)
    ensures
        has_infix(s, p) <==> find_from(s, p, 0) >= 0,
{
    lemma_find_from(s, p, 0);
    if has_infix(s, p) {
        let i = choose|i: int| occurs_at(s, p, i);
        assert(occurs_at(s, p, i));
    }
}

/// Whether `p` occurs in `v`.
pub fn has_infix_exec(v: &Vec<char>, p: &Vec<char>) -> (r: bool)
    ensures
        r == has_infix(v@, p@),
{
    proof {
        lemma_has_infix_find(v@, p@);
    }
    find_from_exec(v, p, 0).is_some()
}

/// The texts that `spans` mark out in `s`.
pub open spec fn span_texts(s: Seq<char>, spans: Seq<(usize, usize)>) -> Seq<Seq<char>> {
    spans.map_values(|sp: (usize, usize)| s.subrange(sp.0 as int, sp.1 as int))
}

/// Every span lies within a text of length `n`.
pub open spec fn spans_within(spans: Seq<(usize, usize)>, n: nat) -> bool {
    forall|i: int| 0 <= i < spans.len() ==> #[trigger] spans[i].0 <= spans[i].1 <= n
}

/// The spans of the pieces of `v` between the occurrences of `p`.
pub fn split_spans(v: &Vec<char>, p: &Vec<char>) -> (r: Vec<(usize, usize)>)
    requires
        p@.len() > 0,
    ensures
        spans_within(r@, v@.len()),
        span_texts(v@, r@) == split(v@, p@),
{
    let mut r: Vec<(usize, usize)> = Vec::new();
    let mut i: usize = 0;
    loop
        invariant
            p@.len() > 0,
            i <= v@.len(),
            spans_within(r@, v@.len()),
            span_texts(v@, r@) + split_from(v@, p@, i as int) == split(v@, p@),
        decreases v@.len() + 1 - i,
    {
        proof {
            lemma_find_from(v@, p@, i as int);
        }
        let ghost before = r@;
        match find_from_exec(v, p, i) {
            None => {
                r.push((i, v.len()));
                assert(span_texts(v@, r@) =~= span_texts(v@, before) + split_from(
                    v@,
                    p@,
                    i as int,
                ));
                assert(span_texts(v@, r@) + seq![] =~= span_texts(v@, r@));
                return r;
            },
            Some(k) => {
                r.push((i, k));
                let ghost next = (k + p@.len()) as int;
                assert(split_from(v@, p@, i as int) == seq![v@.subrange(i as int, k as int)]
                    + split_from(v@, p@, next));
                assert(span_texts(v@, r@) =~= span_texts(v@, before) + seq![
                    v@.subrange(i as int, k as int),
                ]);
                assert(span_texts(v@, r@) + split_from(v@, p@, next) =~= span_texts(v@, before)
                    + split_from(v@, p@, i as int));
                let pl = p.len();
                let vl = v.len();
                assert(k + pl <= vl);
                i = k + pl;
            },
        }
    }
}

/// The pieces of `v` between the occurrences of `p`, as vectors.
pub fn split_pieces(v: &Vec<char>, p: &Vec<char>) -> (r: Vec<Vec<char>>)
    requires
        p@.len() > 0,
    ensures
        views(r@) == split(v@, p@),
{
    let spans = split_spans(v, p);
    let mut r: Vec<Vec<char>> = Vec::new();
    let mut i: usize = 0;
    while i < spans.len()
        invariant
            i <= spans@.len(),
            spans_within(spans@, v@.len()),
            views(r@) == span_texts(v@, spans@).take(i as int),
        decreases spans.len() - i,
    {
        let (a, b) = spans[i];
        assert(span_texts(v@, spans@)[i as int] == v@.subrange(a as int, b as int));
        let piece = sub_vec(v, a, b);
        let ghost old_r = r@;
        r.push(piece);
        assert(views(r@) =~= views(old_r).push(piece@));
        i += 1;
        assert(views(r@) =~= span_texts(v@, spans@).take(i as int));
    }
    assert(span_texts(v@, spans@).take(i as int) =~= span_texts(v@, spans@));
    r
}

/// Whether a trim of kind `kind` removes `c`.
pub fn stripped_exec(kind: Strip, c: char) -> (r: bool)
    ensures
        r == stripped(kind, c),
{
    match kind {
        Strip::WhiteSpace => char_is_whitespace(c),
        Strip::Parens => c == '(' || c == ')',
        Strip::Brackets => c == '[' || c == ']',
    }
}

/// Trimming the front of a suffix that starts with a kept character keeps it whole.
proof fn lemma_trim_front_step(s: Seq<char>, a: int, kind: Strip)
    requires
        0 <= a < s.len(),
        stripped(kind, s[a]),
    ensures
        trim_front(s.subrange(a, s.len() as int), kind) == trim_front(
            s.subrange(a + 1, s.len() as int),
            kind,
        ),
{
    assert(s.subrange(a, s.len() as int).drop_first() =~= s.subrange(a + 1, s.len() as int));
}

/// The span of `v` that remains after trimming characters of kind `kind` at both ends.
pub fn trim_span(v: &Vec<char>, kind: Strip) -> (r: (usize, usize))
    ensures
        r.0 <= r.1 <= v@.len(),
        v@.subrange(r.0 as int, r.1 as int) == trim_chars(v@, kind),
{
    let n = v.len();
    let mut a: usize = 0;
    assert(v@.subrange(0, n as int) =~= v@);
    while a < n && stripped_exec(kind, v[a])
        invariant
            n == v@.len(),
            a <= n,
            trim_front(v@.subrange(a as int, n as int), kind) == trim_front(v@, kind),
        decreases n - a,
    {
        proof {
            lemma_trim_front_step(v@, a as int, kind);
        }
        a += 1;
    }
    assert(trim_front(v@.subrange(a as int, n as int), kind) == v@.subrange(a as int, n as int));
    let mut b: usize = n;
    while b > a && stripped_exec(kind, v[b - 1])
        invariant
            n == v@.len(),
            a <= b <= n,
            trim_back(v@.subrange(a as int, b as int), kind) == trim_chars(v@, kind),
        decreases b - a,
    {
        assert(v@.subrange(a as int, b as int).drop_last() =~= v@.subrange(
            a as int,
            b - 1 as int,
        ));
        b -= 1;
    }
    (a, b)
}

/// `v` with characters of kind `kind` trimmed at both ends.
pub fn trim_vec(v: &Vec<char>, kind: Strip) -> (r: Vec<char>)
    ensures
        r@ == trim_chars(v@, kind),
{
    let (a, b) = trim_span(v, kind);
    sub_vec(v, a, b)
}

/// The index at which `v` continues once every leading copy of `p` is removed.
pub fn strip_prefixes_at(v: &Vec<char>, p: &Vec<char>) -> (i: usize)
    requires
        p@.len() > 0,
    ensures
        i <= v@.len(),
        v@.skip(i as int) == strip_prefixes(v@, p@),
{
    let mut i: usize = 0;
    assert(v@.skip(0) =~= v@);
    while occurs_at_exec(v, p, i)
        invariant
            p@.len() > 0,
            i <= v@.len(),
            strip_prefixes(v@.skip(i as int), p@) == strip_prefixes(v@, p@),
        decreases v@.len() - i,
    {
        assert(v@.skip(i as int).subrange(0, p@.len() as int) =~= v@.subrange(
            i as int,
            i + p@.len(),
        ));
        assert(v@.skip(i as int).skip(p@.len() as int) =~= v@.skip(i + p@.len()));
        let pl = p.len();
        let vl = v.len();
        assert(i + pl <= vl);
        i += pl;
    }
    proof {
        if has_prefix(v@.skip(i as int), p@) {
            assert(v@.skip(i as int).subrange(0, p@.len() as int) =~= v@.subrange(
                i as int,
                i + p@.len(),
            ));
        }
    }
    i
}

/// The views of a sequence of string slices.
pub open spec fn str_views(v: Seq<&str>) -> Seq<Seq<char>> {
    v.map_values(|x: &str| x@)
}

/// `v@.subrange(a, b)` as a slice of the string whose characters `v` holds.
pub fn str_range<'b>(s: &'b str, v: &Vec<char>, a: usize, b: usize) -> (r: &'b str)
    requires
        v@ == s@,
        a <= b <= v@.len(),
    ensures
        r@ == v@.subrange(a as int, b as int),
{
    s.substring_char(a, b)
}

/// Whether the text `v@.subrange(a, b)` starts with `p`.
pub fn range_has_prefix(v: &Vec<char>, a: usize, b: usize, p: &Vec<char>) -> (r: bool)
    requires
        a <= b <= v@.len(),
    ensures
        r == has_prefix(v@.subrange(a as int, b as int), p@),
{
    let line = sub_vec(v, a, b);
    has_prefix_exec(&line, p)
}

/// The index at which `v@.subrange(a, b)` continues once every leading copy of `p` is removed.
pub fn range_strip_prefixes(v: &Vec<char>, a: usize, b: usize, p: &Vec<char>) -> (i: usize)
    requires
        a <= b <= v@.len(),
        p@.len() > 0,
    ensures
        a <= i <= b,
        v@.subrange(i as int, b as int) == strip_prefixes(v@.subrange(a as int, b as int), p@),
{
    let line = sub_vec(v, a, b);
    let k = strip_prefixes_at(&line, p);
    assert(line@.skip(k as int) =~= v@.subrange(a + k, b as int));
    a + k
}

/// `u8::from_str`'s notion of a digit.
pub open spec fn is_ascii_digit(c: char) -> bool {
    '0' <= c <= '9'
}

/// The number that a string of decimal digits denotes.
pub open spec fn digits_value(s: Seq<char>) -> int
    decreases s.len(),
{
    if s.len() == 0 {
        0
    } else {
        digits_value(s.drop_last()) * 10 + (s.last() as int - '0' as int)
    }
}

/// `s` is a non-empty string of decimal digits.
pub open spec fn is_digits(s: Seq<char>) -> bool {
    s.len() > 0 && forall|i: int| 0 <= i < s.len() ==> is_ascii_digit(#[trigger] s[i])
}

/// What `s.parse::<u8>()` gives: an optional `+`, then decimal digits whose value fits.
pub open spec fn parse_u8_text(s: Seq<char>) -> Option<u8> {
    let d = if s.len() > 0 && s[0] == '+' {
        s.drop_first()
    } else {
        s
    };
    if is_digits(d) && digits_value(d) <= 255 {
        Some(digits_value(d) as u8)
    } else {
        None
    }
}

/// What `s.parse::<i8>()` gives: an optional `+` or `-`, then decimal digits whose signed
/// value fits.
pub open spec fn parse_i8_text(s: Seq<char>) -> Option<i8> {
    if s.len() > 0 && s[0] == '-' {
        let d = s.drop_first();
        if is_digits(d) && digits_value(d) <= 128 {
            Some((0 - digits_value(d)) as i8)
        } else {
            None
        }
    } else {
        let d = if s.len() > 0 && s[0] == '+' {
            s.drop_first()
        } else {
            s
        };
        if is_digits(d) && digits_value(d) <= 127 {
            Some(digits_value(d) as i8)
        } else {
            None
        }
    }
}

/// A longer string of digits denotes at least as much as any of its prefixes.
proof fn lemma_digits_value_prefix(s: Seq<char>, k: int)
    requires
        0 <= k <= s.len(),
        forall|i: int| 0 <= i < s.len() ==> is_ascii_digit(#[trigger] s[i]),
    ensures
        0 <= digits_value(s.take(k)) <= digits_value(s),
    decreases s.len(),
{
    if s.len() > 0 {
        if k == s.len() {
            assert(s.take(k) =~= s);
            lemma_digits_value_prefix(s.drop_last(), k - 1);
        } else {
            assert(s.drop_last().take(k) =~= s.take(k));
            lemma_digits_value_prefix(s.drop_last(), k);
        }
    }
}

/// The value of the digits of `v` from `start` on, where they are all decimal digits and their
/// value is at most `limit`.
fn parse_digits(v: &Vec<char>, start: usize, limit: u32) -> (r: Option<u32>)
    requires
        start <= v@.len(),
        limit <= 1000,
    ensures
        match r {
            Some(x) => is_digits(v@.skip(start as int)) && digits_value(v@.skip(start as int))
                == x && x <= limit,
            None => !(is_digits(v@.skip(start as int)) && digits_value(v@.skip(start as int))
                <= limit),
        },
{
    let ghost d = v@.skip(start as int);
    if start == v.len() {
        return None;
    }
    let mut acc: u32 = 0;
    let mut i: usize = start;
    assert(d.take(0) =~= Seq::<char>::empty());
    while i < v.len()
        invariant
            start <= i <= v@.len(),
            d == v@.skip(start as int),
            limit <= 1000,
            acc <= limit,
            forall|j: int| 0 <= j < i - start ==> is_ascii_digit(#[trigger] d[j]),
            acc == digits_value(d.take(i - start)),
        decreases v.len() - i,
    {
        let c = v[i];
        assert(d[i - start] == c);
        if !('0' <= c && c <= '9') {
            return None;
        }
        let digit = (c as u32) - ('0' as u32);
        assert(d.take(i - start + 1).drop_last() =~= d.take(i - start));
        let next = acc * 10 + digit;
        if next > limit {
            proof {
                if is_digits(d) {
                    lemma_digits_value_prefix(d, i - start + 1);
                }
            }
            return None;
        }
        acc = next;
        i += 1;
    }
    assert(d.take(i - start) =~= d);
    Some(acc)
}

/// `s.parse::<u8>()`, with the error turned into `None`: an optional `+` followed by decimal
/// digits whose value is at most 255.
pub(crate) fn parse_u8(s: &str) -> (r: Option<u8>)
    ensures
        r == parse_u8_text(s@),
{
    let v = chars_of(s);
    let start: usize = if v.len() > 0 && v[0] == '+' {
        1
    } else {
        0
    };
    assert(v@.skip(1) =~= v@.drop_first());
    assert(v@.skip(0) =~= v@);
    match parse_digits(&v, start, 255) {
        Some(x) => Some(x as u8),
        None => None,
    }
}

/// `s.parse::<i8>()`, with the error turned into `None`: an optional `+` or `-` followed by
/// decimal digits whose signed value lies in -128..=127.
pub(crate) fn parse_i8(s: &str) -> (r: Option<i8>)
    ensures
        r == parse_i8_text(s@),
{
    let v = chars_of(s);
    assert(v@.skip(1) =~= v@.drop_first());
    assert(v@.skip(0) =~= v@);
    if v.len() > 0 && v[0] == '-' {
        match parse_digits(&v, 1, 128) {
            Some(x) => Some((0i16 - x as i16) as i8),
            None => None,
        }
    } else {
        let start: usize = if v.len() > 0 && v[0] == '+' {
            1
        } else {
            0
        };
        match parse_digits(&v, start, 127) {
            Some(x) => Some(x as i8),
            None => None,
        }
    }
}

/// A split yields at least one piece, and at least two where the separator occurs.
pub proof fn lemma_split_len(s: Seq<char>, p: Seq<char>)
    requires
        p.len() > 0,
    ensures
        split(s, p).len() >= 1,
        has_infix(s, p) ==> split(s, p).len() >= 2,
{
    lemma_has_infix_find(s, p);
    lemma_find_from(s, p, 0);
    if find_from(s, p, 0) >= 0 {
        let k = find_from(s, p, 0);
        lemma_split_from_nonempty(s, p, k + p.len());
    }
}

/// A split from a position within the text yields at least one piece.
pub proof fn lemma_split_from_nonempty(s: Seq<char>, p: Seq<char>, i: int)
    requires
        0 <= i <= s.len(),
    ensures
        split_from(s, p, i).len() >= 1,
{
}

/// The pieces of `v` between occurrences of `p`, each as a string.
pub fn split_strings(v: &Vec<char>, p: &Vec<char>) -> (r: Vec<String>)
    requires
        p@.len() > 0,
    ensures
        string_views(r@) == split(v@, p@),
{
    let spans = split_spans(v, p);
    let mut r: Vec<String> = Vec::new();
    let mut i: usize = 0;
    while i < spans.len()
        invariant
            i <= spans@.len(),
            spans_within(spans@, v@.len()),
            string_views(r@) == span_texts(v@, spans@).take(i as int),
        decreases spans.len() - i,
    {
        let (a, b) = spans[i];
        assert(span_texts(v@, spans@)[i as int] == v@.subrange(a as int, b as int));
        let piece = string_of_range(v, a, b);
        let ghost old_r = r@;
        r.push(piece);
        assert(string_views(r@) =~= string_views(old_r).push(v@.subrange(a as int, b as int)));
        assert(string_views(r@) =~= span_texts(v@, spans@).take(i + 1));
        i += 1;
    }
    assert(span_texts(v@, spans@).take(i as int) =~= span_texts(v@, spans@));
    r
}

/// `v` with characters of kind `kind` trimmed at both ends, as a string.
pub fn trim_string(v: &Vec<char>, kind: Strip) -> (r: String)
    ensures
        r@ == trim_chars(v@, kind),
{
    let (a, b) = trim_span(v, kind);
    string_of_range(v, a, b)
}

/// The text of `s` in lower case, as `str::to_lowercase` maps it.
pub uninterp spec fn lowercase(s: Seq<char>) -> Seq<char>;

/// `str::to_lowercase`. The contract names the result; it says nothing of the Unicode case
/// mapping.
#[verifier::external_body]
pub(crate) fn to_lowercase(s: &str) -> (r: String)
    ensures
        r@ == lowercase(s@),
{
    s.to_lowercase()
}

} // verus!
