//! Small association maps used by the resolver.
//!
//! The resolver's mappings are tiny (bounded by the size of a keyboard), so
//! they are kept as plain vectors of entries in insertion order.  Insertion
//! order is part of each map's model: downstream output must not depend on
//! incidental iteration order, so the model pins it completely.

use vstd::prelude::*;

verus! {

/// First-match lookup in an entry sequence keyed by grid positions, starting
/// at index `i`.
pub open spec fn find_pos_from<V>(s: Seq<((u8, u8), V)>, k: (u8, u8), i: int) -> Option<V>
    decreases s.len() - i,
{
    if i < 0 || i >= s.len() {
        None
    } else if s[i].0 == k {
        Some(s[i].1)
    } else {
        find_pos_from(s, k, i + 1)
    }
}

/// First-match lookup in an entry sequence keyed by grid positions.
pub open spec fn find_pos<V>(s: Seq<((u8, u8), V)>, k: (u8, u8)) -> Option<V> {
    find_pos_from(s, k, 0)
}

/// A position-keyed map as a vector of entries in insertion order.
///
/// Lookup returns the first entry with the requested key; the resolver only
/// ever inserts a key once, so first match and last match agree.
#[derive(Clone, Debug, PartialEq, Eq)]
pub struct PosMap<V> {
    pub entries: Vec<((u8, u8), V)>,
}

impl<V: Copy> PosMap<V> {
    /// The entry sequence this map stands for.
    pub open spec fn model(self) -> Seq<((u8, u8), V)> {
        self.entries@
    }

    pub fn new() -> (r: Self)
        ensures
            r.model() == Seq::<((u8, u8), V)>::empty(),
    {
        PosMap { entries: Vec::new() }
    }

    /// Appends an entry; the model grows by exactly that entry.
    pub fn insert(&mut self, k: (u8, u8), v: V)
        ensures
            final(self).model() == old(self).model().push((k, v)),
    {
        self.entries.push((k, v));
    }

    /// First-match lookup.
    pub fn get(&self, k: (u8, u8)) -> (r: Option<V>)
        ensures
            r == find_pos(self.model(), k),
    {
        let n = self.entries.len();
        let mut i: usize = 0;
        while i < n
            invariant
                0 <= i <= n,
                n == self.entries.len(),
                find_pos(self.model(), k) == find_pos_from(self.model(), k, i as int),
            decreases n - i,
        {
            let e = &self.entries[i];
            if e.0.0 == k.0 && e.0.1 == k.1 {
                assert(self.model()[i as int].0 == k);
                return Some(e.1);
            }
            i = i + 1;
        }
        None
    }
}

/// Equality of two string slices, by characters.
pub fn str_eq(a: &str, b: &str) -> (r: bool)
    ensures
        r == (a@ == b@),
{
    let an = a.unicode_len();
    let bn = b.unicode_len();
    if an != bn {
        return false;
    }
    let mut i: usize = 0;
    while i < an
        invariant
            0 <= i <= an,
            an == a@.len(),
            an == b@.len(),
            forall|j: int| 0 <= j < i ==> a@[j] == b@[j],
        decreases an - i,
    {
        if a.get_char(i) != b.get_char(i) {
            return false;
        }
        i = i + 1;
    }
    proof {
        assert(a@ =~= b@);
    }
    true
}

/// A key that lookup does not find occurs nowhere in the entries.
pub proof fn lemma_find_pos_none<V>(s: Seq<((u8, u8), V)>, k: (u8, u8))
    requires
        find_pos(s, k) is None,
    ensures
        forall|i: int| 0 <= i < s.len() ==> (#[trigger] s[i]).0 != k,
{
    lemma_find_pos_none_from(s, k, 0);
}

proof fn lemma_find_pos_none_from<V>(s: Seq<((u8, u8), V)>, k: (u8, u8), start: int)
    requires
        0 <= start <= s.len(),
        find_pos_from(s, k, start) is None,
    ensures
        forall|i: int| start <= i < s.len() ==> (#[trigger] s[i]).0 != k,
    decreases s.len() - start,
{
    if start < s.len() {
        lemma_find_pos_none_from(s, k, start + 1);
    }
}

/// A key that lookup finds occurs in the entries.
pub proof fn lemma_find_pos_some_index<V>(s: Seq<((u8, u8), V)>, k: (u8, u8), start: int)
    requires
        0 <= start,
    ensures
        find_pos_from(s, k, start) is Some ==> exists|w: int|
            start <= w < s.len() && (#[trigger] s[w]).0 == k,
    decreases s.len() - start,
{
    if start < s.len() && s[start].0 != k {
        lemma_find_pos_some_index(s, k, start + 1);
    }
}

} // verus!
