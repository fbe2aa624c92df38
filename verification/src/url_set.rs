//! A set of URLs, kept as a vector in which no URL occurs twice.

use vstd::prelude::*;

use crate::text::{chars_of, lowercase, string_views, to_lowercase};

verus! {

broadcast use vstd::seq_lib::group_to_multiset_ensures;

/// A finite set of URLs.
pub struct UrlSet {
    urls: Vec<String>,
}

impl View for UrlSet {
    type V = Set<Seq<char>>;

    closed spec fn view(&self) -> Set<Seq<char>> {
        string_views(self.urls@).to_set()
    }
}

impl UrlSet {
    /// No URL occurs twice.
    #[verifier::type_invariant]
    closed spec fn distinct(self) -> bool {
        string_views(self.urls@).no_duplicates()
    }

    /// The URLs, in the order in which they are kept.
    pub closed spec fn items(&self) -> Seq<Seq<char>> {
        string_views(self.urls@)
    }

    /// The empty set.
    pub fn new() -> (r: UrlSet)
        ensures
            r@ == Set::<Seq<char>>::empty(),
            r.items() == Seq::<Seq<char>>::empty(),
    {
        let r = UrlSet { urls: Vec::new() };
        assert(string_views(r.urls@) =~= Seq::<Seq<char>>::empty());
        r
    }

    /// Whether `url` is a member.
    pub fn contains(&self, url: &String) -> (r: bool)
        ensures
            r == self@.contains(url@),
    {
        let mut i: usize = 0;
        while i < self.urls.len()
            invariant
                i <= self.urls@.len(),
                forall|j: int| 0 <= j < i ==> self.urls@[j]@ != url@,
            decreases self.urls.len() - i,
        {
            if self.urls[i] == *url {
                assert(string_views(self.urls@)[i as int] == url@);
                return true;
            }
            i += 1;
        }
        assert(!string_views(self.urls@).contains(url@)) by {
            if string_views(self.urls@).contains(url@) {
                let j = choose|j: int|
                    0 <= j < string_views(self.urls@).len() && string_views(self.urls@)[j]
                        == url@;
                assert(self.urls@[j]@ == url@);
            }
        }
        false
    }

    /// Adds `url`; returns whether it was not yet a member.
    pub fn insert(&mut self, url: String) -> (r: bool)
        ensures
            final(self)@ == old(self)@.insert(url@),
            r == !old(self)@.contains(url@),
            r ==> final(self).items() == old(self).items().push(url@),
            !r ==> final(self).items() == old(self).items(),
    {
        if self.contains(&url) {
            return false;
        }
        proof {
            use_type_invariant(&*self);
        }
        let mut urls: Vec<String> = Vec::new();
        std::mem::swap(&mut urls, &mut self.urls);
        let ghost before = urls@;
        let ghost u = url@;
        urls.push(url);
        assert(string_views(urls@) =~= string_views(before).push(u));
        assert(!string_views(before).contains(u));
        proof {
            string_views(before).lemma_push_to_set_commute(u);
        }
        self.urls = urls;
        true
    }

    /// Adds every member of `other`.
    pub fn extend(&mut self, other: &UrlSet)
        ensures
            final(self)@ == old(self)@.union(other@),
    {
        let mut i: usize = 0;
        let ghost start = self@;
        while i < other.urls.len()
            invariant
                i <= other.urls@.len(),
                self@ == start.union(string_views(other.urls@).take(i as int).to_set()),
            decreases other.urls.len() - i,
        {
            let u = other.urls[i].clone();
            self.insert(u);
            assert(string_views(other.urls@).take(i + 1) =~= string_views(other.urls@).take(
                i as int,
            ).push(other.urls@[i as int]@));
            proof {
                string_views(other.urls@).take(i as int).lemma_push_to_set_commute(
                    other.urls@[i as int]@,
                );
            }
            assert(self@ =~= start.union(string_views(other.urls@).take(i + 1).to_set()));
            i += 1;
        }
        assert(string_views(other.urls@).take(i as int) =~= string_views(other.urls@));
    }

    /// The members of `self` that are not members of `other`.
    pub fn difference(&self, other: &UrlSet) -> (r: UrlSet)
        ensures
            r@ == self@.difference(other@),
    {
        let mut r = UrlSet::new();
        let mut i: usize = 0;
        while i < self.urls.len()
            invariant
                i <= self.urls@.len(),
                r@ == string_views(self.urls@).take(i as int).to_set().difference(other@),
            decreases self.urls.len() - i,
        {
            let u = &self.urls[i];
            assert(string_views(self.urls@).take(i + 1) =~= string_views(self.urls@).take(
                i as int,
            ).push(u@));
            if !other.contains(u) {
                r.insert(u.clone());
            }
            proof {
                string_views(self.urls@).take(i as int).lemma_push_to_set_commute(u@);
            }
            assert(r@ =~= string_views(self.urls@).take(i + 1).to_set().difference(other@));
            i += 1;
        }
        assert(string_views(self.urls@).take(i as int) =~= string_views(self.urls@));
        r
    }

    /// The number of members.
    pub fn len(&self) -> (r: usize)
        ensures
            r == self@.len(),
    {
        proof {
            use_type_invariant(self);
            self.items().unique_seq_to_set();
        }
        self.urls.len()
    }

    /// Whether there is no member.
    pub fn is_empty(&self) -> (r: bool)
        ensures
            r == (self@.len() == 0),
    {
        self.len() == 0
    }

    /// The members, each once, in the order in which they are kept.
    pub fn to_vec(&self) -> (r: Vec<String>)
        ensures
            string_views(r@) == self.items(),
            self.items().no_duplicates(),
            self.items().to_set() == self@,
    {
        proof {
            use_type_invariant(self);
        }
        let mut r: Vec<String> = Vec::new();
        let mut i: usize = 0;
        while i < self.urls.len()
            invariant
                i <= self.urls@.len(),
                string_views(r@) == string_views(self.urls@).take(i as int),
            decreases self.urls.len() - i,
        {
            let ghost before = r@;
            r.push(self.urls[i].clone());
            assert(string_views(r@) =~= string_views(before).push(self.urls@[i as int]@));
            assert(string_views(r@) =~= string_views(self.urls@).take(i + 1));
            i += 1;
        }
        assert(string_views(self.urls@).take(i as int) =~= string_views(self.urls@));
        r
    }
}

/// `a` comes no later than `b` in the order of `String`: lexicographic by characters, a
/// prefix before its extensions.
pub open spec fn chars_le(a: Seq<char>, b: Seq<char>) -> bool
    decreases a.len(),
{
    if a.len() == 0 {
        true
    } else if b.len() == 0 {
        false
    } else if (a[0] as u32) != (b[0] as u32) {
        (a[0] as u32) < (b[0] as u32)
    } else {
        chars_le(a.drop_first(), b.drop_first())
    }
}

/// Any two texts are ordered one way or the other.
pub proof fn lemma_chars_le_total(a: Seq<char>, b: Seq<char>)
    ensures
        chars_le(a, b) || chars_le(b, a),
    decreases a.len(),
{
    if a.len() > 0 && b.len() > 0 && (a[0] as u32) == (b[0] as u32) {
        lemma_chars_le_total(a.drop_first(), b.drop_first());
    }
}

/// The order is transitive.
pub proof fn lemma_chars_le_transitive(a: Seq<char>, b: Seq<char>, c: Seq<char>)
    requires
        chars_le(a, b),
        chars_le(b, c),
    ensures
        chars_le(a, c),
    decreases a.len(),
{
    if a.len() > 0 && b.len() > 0 && c.len() > 0 && (a[0] as u32) == (b[0] as u32) && (b[0] as u32)
        == (c[0] as u32) {
        lemma_chars_le_transitive(a.drop_first(), b.drop_first(), c.drop_first());
    }
}

/// Whether `a` comes no later than `b`.
fn chars_le_exec(a: &Vec<char>, b: &Vec<char>) -> (r: bool)
    ensures
        r == chars_le(a@, b@),
{
    let mut i: usize = 0;
    assert(a@.skip(0) =~= a@);
    assert(b@.skip(0) =~= b@);
    loop
        invariant
            i <= a@.len(),
            i <= b@.len(),
            chars_le(a@.skip(i as int), b@.skip(i as int)) == chars_le(a@, b@),
        decreases a@.len() - i,
    {
        if i == a.len() {
            return true;
        }
        if i == b.len() {
            return false;
        }
        if (a[i] as u32) != (b[i] as u32) {
            return (a[i] as u32) < (b[i] as u32);
        }
        assert(a@.skip(i as int).drop_first() =~= a@.skip(i + 1));
        assert(b@.skip(i as int).drop_first() =~= b@.skip(i + 1));
        i += 1;
    }
}

/// The texts are in order of their lower-case forms.
pub open spec fn sorted_by_lowercase(s: Seq<Seq<char>>) -> bool {
    forall|i: int, j: int|
        0 <= i < j < s.len() ==> chars_le(lowercase(#[trigger] s[i]), lowercase(#[trigger] s[j]))
}

impl UrlSet {
    /// The members, each once, in order of their lower-case forms.
    pub fn sorted_by_lowercase(&self) -> (r: Vec<String>)
        ensures
            string_views(r@).to_multiset() == self.items().to_multiset(),
            self.items().to_set() == self@,
            self.items().no_duplicates(),
            sorted_by_lowercase(string_views(r@)),
    {
        let urls = self.to_vec();
        let ghost all = string_views(urls@);
        let mut r: Vec<String> = Vec::new();
        let mut keys: Vec<Vec<char>> = Vec::new();
        let mut i: usize = 0;
        assert(all.take(0) =~= Seq::<Seq<char>>::empty());
        assert(string_views(r@) =~= Seq::<Seq<char>>::empty());
        while i < urls.len()
            invariant
                i <= urls@.len(),
                all == string_views(urls@),
                string_views(r@).to_multiset() == all.take(i as int).to_multiset(),
                keys@.len() == r@.len(),
                forall|j: int| 0 <= j < r@.len() ==> #[trigger] keys@[j]@ == lowercase(r@[j]@),
                sorted_by_lowercase(string_views(r@)),
            decreases urls.len() - i,
        {
            let u = urls[i].clone();
            let k = chars_of(to_lowercase(u.as_str()).as_str());
            let mut p: usize = 0;
            while p < keys.len() && chars_le_exec(&keys[p], &k)
                invariant
                    p <= keys@.len(),
                    forall|j: int| 0 <= j < p ==> chars_le(#[trigger] keys@[j]@, k@),
                decreases keys.len() - p,
            {
                p += 1;
            }
            let ghost old_r = string_views(r@);
            let ghost uv = u@;
            proof {
                if p < keys@.len() {
                    lemma_chars_le_total(keys@[p as int]@, k@);
                }
                assert forall|j: int| p <= j < old_r.len() implies chars_le(
                    k@,
                    lowercase(#[trigger] old_r[j]),
                ) by {
                    assert(old_r[p as int] == r@[p as int]@);
                    assert(old_r[j] == r@[j]@);
                    if j > p {
                        assert(chars_le(lowercase(old_r[p as int]), lowercase(old_r[j])));
                        lemma_chars_le_transitive(k@, keys@[p as int]@, keys@[j]@);
                    }
                }
                assert forall|j: int| 0 <= j < p implies chars_le(
                    lowercase(#[trigger] old_r[j]),
                    k@,
                ) by {
                    assert(old_r[j] == r@[j]@);
                    assert(keys@[j]@ == lowercase(r@[j]@));
                    assert(chars_le(keys@[j]@, k@));
                }
            }
            r.insert(p, u);
            keys.insert(p, k);
            assert(string_views(r@) =~= old_r.insert(p as int, uv));
            assert(all.take(i + 1) =~= all.take(i as int).push(uv));
            assert forall|a: int, b: int| 0 <= a < b < string_views(r@).len() implies chars_le(
                lowercase(#[trigger] string_views(r@)[a]),
                lowercase(#[trigger] string_views(r@)[b]),
            ) by {
                let rv = string_views(r@);
                if b < p {
                    assert(rv[a] == old_r[a] && rv[b] == old_r[b]);
                } else if b == p {
                    assert(rv[a] == old_r[a]);
                } else if a < p {
                    assert(rv[a] == old_r[a] && rv[b] == old_r[b - 1]);
                    lemma_chars_le_transitive(lowercase(old_r[a]), k@, lowercase(old_r[b - 1]));
                } else if a == p {
                    assert(rv[b] == old_r[b - 1]);
                } else {
                    assert(rv[a] == old_r[a - 1] && rv[b] == old_r[b - 1]);
                }
            }
            assert forall|j: int| 0 <= j < r@.len() implies #[trigger] keys@[j]@ == lowercase(
                r@[j]@,
            ) by {
                assert(r@[j]@ == string_views(r@)[j]);
            }
            i += 1;
        }
        assert(all.take(i as int) =~= all);
        r
    }
}

} // verus!
