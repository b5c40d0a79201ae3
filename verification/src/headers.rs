//! An insertion-ordered map from header names to header values.

use vstd::prelude::*;

verus! {

/// A header model: the (name, value) pairs in the order they were first inserted.
pub type HeaderSeq = Seq<(Seq<char>, Seq<char>)>;

/// The views of owned (name, value) pairs.
pub open spec fn pair_views(v: Seq<(String, String)>) -> HeaderSeq {
    v.map_values(|p: (String, String)| (p.0@, p.1@))
}

/// No name occurs twice.
pub open spec fn distinct_names(s: HeaderSeq) -> bool {
    forall|i: int, j: int| 0 <= i < s.len() && 0 <= j < s.len() && i != j ==> s[i].0 != s[j].0
}

/// Some entry has the name `k`.
pub open spec fn has_name(s: HeaderSeq, k: Seq<char>) -> bool {
    exists|i: int| 0 <= i < s.len() && #[trigger] s[i].0 == k
}

/// Inserting `k => v`: an entry named `k` keeps its place and takes the
/// value `v`; otherwise the pair is added at the end.
pub open spec fn header_insert(s: HeaderSeq, k: Seq<char>, v: Seq<char>) -> HeaderSeq {
    if has_name(s, k) {
        s.map_values(|p: (Seq<char>, Seq<char>)| if p.0 == k { (k, v) } else { p })
    } else {
        s.push((k, v))
    }
}

/// The value stored under `k`, if any.
pub open spec fn header_get(s: HeaderSeq, k: Seq<char>) -> Option<Seq<char>> {
    if has_name(s, k) {
        Some(s[choose|i: int| 0 <= i < s.len() && #[trigger] s[i].0 == k].1)
    } else {
        None
    }
}

/// After `k => v` is inserted, `k` maps to `v`.
pub proof fn law_insert_then_get(s: HeaderSeq, k: Seq<char>, v: Seq<char>)
    requires
        distinct_names(s),
    ensures
        header_get(header_insert(s, k, v), k) == Some(v),
        distinct_names(header_insert(s, k, v)),
{
    let t = header_insert(s, k, v);
    if has_name(s, k) {
        let i = choose|i: int| 0 <= i < s.len() && #[trigger] s[i].0 == k;
        assert(t[i].0 == k);
        assert(has_name(t, k));
        let j = choose|j: int| 0 <= j < t.len() && #[trigger] t[j].0 == k;
        assert(s[j].0 == k);
        assert(j == i);
        assert forall|a: int, b: int| 0 <= a < t.len() && 0 <= b < t.len() && a != b implies t[a].0
            != t[b].0 by {
            assert(t[a].0 == s[a].0);
            assert(t[b].0 == s[b].0);
        }
    } else {
        assert(t[s.len() as int].0 == k);
        assert(has_name(t, k));
        let j = choose|j: int| 0 <= j < t.len() && #[trigger] t[j].0 == k;
        if j < s.len() {
            assert(s[j].0 == k);
        }
        assert forall|a: int, b: int| 0 <= a < t.len() && 0 <= b < t.len() && a != b implies t[a].0
            != t[b].0 by {
            if a < s.len() && b < s.len() {
                assert(t[a] == s[a]);
                assert(t[b] == s[b]);
            } else if a < s.len() {
                assert(t[a] == s[a]);
                assert(!(s[a].0 == k));
            } else if b < s.len() {
                assert(t[b] == s[b]);
                assert(!(s[b].0 == k));
            }
        }
    }
}

/// Inserting under `k` leaves the value of every other name unchanged.
pub proof fn law_insert_keeps_other_names(s: HeaderSeq, k: Seq<char>, v: Seq<char>, other: Seq<char>)
    requires
        distinct_names(s),
        other != k,
    ensures
        header_get(header_insert(s, k, v), other) == header_get(s, other),
{
    let t = header_insert(s, k, v);
    if has_name(s, other) {
        let i = choose|i: int| 0 <= i < s.len() && #[trigger] s[i].0 == other;
        assert(t[i] == s[i]);
        assert(has_name(t, other));
        let j = choose|j: int| 0 <= j < t.len() && #[trigger] t[j].0 == other;
        if j < s.len() {
            assert(t[j] == s[j]);
        }
        assert(j == i);
    } else {
        if has_name(t, other) {
            let j = choose|j: int| 0 <= j < t.len() && #[trigger] t[j].0 == other;
            if j < s.len() {
                assert(t[j] == s[j] || t[j].0 == k);
            }
        }
    }
}

/// Inserting a name already present keeps the number of entries; inserting
/// a new name adds one entry.
pub proof fn law_insert_len(s: HeaderSeq, k: Seq<char>, v: Seq<char>)
    ensures
        header_insert(s, k, v).len() == if has_name(s, k) {
            s.len()
        } else {
            s.len() + 1
        },
{
}

/// `a` and `b` map the same names to the same values, whatever their order.
pub open spec fn same_entries(a: HeaderSeq, b: HeaderSeq) -> bool {
    &&& a.len() == b.len()
    &&& forall|i: int| 0 <= i < a.len() ==> header_get(b, #[trigger] a[i].0) == Some(a[i].1)
}

/// Header names mapped to values; no name occurs twice.
#[derive(Debug, Eq)]
pub struct HeaderMap {
    pub(crate) entries: Vec<(String, String)>,
}

impl View for HeaderMap {
    type V = HeaderSeq;

    closed spec fn view(&self) -> HeaderSeq {
        pair_views(self.entries@)
    }
}

impl HeaderMap {
    #[verifier::type_invariant]
    spec fn names_distinct(self) -> bool {
        distinct_names(pair_views(self.entries@))
    }

    /// An empty map.
    pub fn new() -> (r: HeaderMap)
        ensures
            r@ == Seq::<(Seq<char>, Seq<char>)>::empty(),
            distinct_names(r@),
    {
        let r = HeaderMap { entries: Vec::new() };
        proof {
            assert(pair_views(r.entries@) =~= Seq::<(Seq<char>, Seq<char>)>::empty());
        }
        r
    }

    /// Number of entries.
    pub fn len(&self) -> (r: usize)
        ensures
            r == self@.len(),
            distinct_names(self@),
    {
        proof {
            use_type_invariant(self);
        }
        self.entries.len()
    }

    /// The name and value of entry `i`.
    pub fn entry(&self, i: usize) -> (r: (&String, &String))
        requires
            i < self@.len(),
        ensures
            r.0@ == self@[i as int].0,
            r.1@ == self@[i as int].1,
            distinct_names(self@),
    {
        proof {
            use_type_invariant(self);
        }
        let p = &self.entries[i];
        (&p.0, &p.1)
    }

    /// Stores `value` under `key` (see `header_insert`).
    pub fn insert(&mut self, key: String, value: String)
        ensures
            final(self)@ == header_insert(old(self)@, key@, value@),
            distinct_names(old(self)@),
            distinct_names(final(self)@),
    {
        proof {
            use_type_invariant(&*self);
        }
        let ghost s = self@;
        let n = self.entries.len();
        let mut i: usize = 0;
        while i < n
            invariant
                n == self.entries@.len(),
                i <= n,
                s == pair_views(self.entries@),
                s == old(self)@,
                distinct_names(s),
                forall|j: int| 0 <= j < i ==> s[j].0 != key@,
            decreases n - i,
        {
            if self.entries[i].0 == key {
                proof {
                    assert(s[i as int] == (self.entries@[i as int].0@, self.entries@[i as int].1@));
                    assert(s[i as int].0 == key@);
                    assert(has_name(s, key@));
                }
                let ghost kv = key@;
                let ghost vv = value@;
                let mut entries = Vec::new();
                std::mem::swap(&mut entries, &mut self.entries);
                entries.set(i, (key, value));
                proof {
                    assert forall|j: int| 0 <= j < s.len() && j != i implies s[j].0 != kv by {}
                    assert(pair_views(entries@) =~= header_insert(s, kv, vv));
                    assert(distinct_names(pair_views(entries@)));
                }
                self.entries = entries;
                assert(self@ == header_insert(s, kv, vv));
                return;
            }
            i = i + 1;
        }
        let ghost kv = key@;
        let ghost vv = value@;
        let mut entries = Vec::new();
        std::mem::swap(&mut entries, &mut self.entries);
        entries.push((key, value));
        proof {
            assert(!has_name(s, kv));
            assert(pair_views(entries@) =~= s.push((kv, vv)));
            assert(distinct_names(pair_views(entries@)));
        }
        self.entries = entries;
    }

    /// The value stored under `key`, if any.
    pub fn get(&self, key: &str) -> (r: Option<&String>)
        ensures
            r matches Some(v) ==> header_get(self@, key@) == Some(v@),
            r is None ==> header_get(self@, key@) is None,
            distinct_names(self@),
    {
        proof {
            use_type_invariant(self);
        }
        let n = self.entries.len();
        let mut i: usize = 0;
        while i < n
            invariant
                n == self.entries@.len(),
                i <= n,
                distinct_names(self@),
                forall|j: int| 0 <= j < i ==> self@[j].0 != key@,
            decreases n - i,
        {
            if crate::text::str_equal(self.entries[i].0.as_str(), key) {
                proof {
                    assert(self@[i as int].0 == key@);
                    assert(has_name(self@, key@));
                    let c = choose|j: int| 0 <= j < self@.len() && #[trigger] self@[j].0 == key@;
                    assert(c == i);
                }
                return Some(&self.entries[i].1);
            }
            i = i + 1;
        }
        None
    }
}

impl Clone for HeaderMap {
    /// A copy holding the same entries in the same order.
    fn clone(&self) -> (r: HeaderMap)
        ensures
            r@ == self@,
            distinct_names(r@),
    {
        proof {
            use_type_invariant(self);
        }
        let n = self.entries.len();
        let mut entries: Vec<(String, String)> = Vec::new();
        let mut i: usize = 0;
        while i < n
            invariant
                i <= n,
                n == self.entries@.len(),
                entries@.len() == i,
                pair_views(entries@) == pair_views(self.entries@).take(i as int),
            decreases n - i,
        {
            let k = self.entries[i].0.clone();
            let v = self.entries[i].1.clone();
            let ghost before = entries@;
            entries.push((k, v));
            proof {
                assert(entries@ == before.push((k, v)));
                assert(k@ == self.entries@[i as int].0@);
                assert(v@ == self.entries@[i as int].1@);
                assert(pair_views(entries@)[i as int] == pair_views(self.entries@)[i as int]);
                assert(pair_views(entries@) =~= pair_views(self.entries@).take(i + 1int));
            }
            i = i + 1;
        }
        proof {
            assert(pair_views(self.entries@).take(n as int) =~= pair_views(self.entries@));
        }
        HeaderMap { entries }
    }
}

impl PartialEq for HeaderMap {
    /// Two maps are equal when they map the same names to the same values.
    fn eq(&self, other: &HeaderMap) -> (r: bool) {
        let n = self.entries.len();
        if n != other.len() {
            return false;
        }
        let mut i: usize = 0;
        while i < n
            invariant
                i <= n,
                n == self@.len(),
                n == other@.len(),
                forall|j: int| 0 <= j < i ==> header_get(other@, #[trigger] self@[j].0) == Some(
                    self@[j].1,
                ),
            decreases n - i,
        {
            let (k, v) = self.entry(i);
            match other.get(k.as_str()) {
                Some(w) => {
                    if !crate::text::str_equal(w.as_str(), v.as_str()) {
                        return false;
                    }
                },
                None => {
                    return false;
                },
            }
            i = i + 1;
        }
        true
    }
}

impl vstd::std_specs::cmp::PartialEqSpecImpl for HeaderMap {
    open spec fn obeys_eq_spec() -> bool {
        true
    }

    open spec fn eq_spec(&self, other: &HeaderMap) -> bool {
        same_entries(self@, other@)
    }
}

} // verus!
