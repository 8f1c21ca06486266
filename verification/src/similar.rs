//! "Did you mean" suggestions for unresolved names.
//!
//! When a named key or layer fails to resolve, the compiler ranks every name
//! of the relevant table by case-insensitive trigram similarity to the
//! unresolved name and keeps those at least 0.4 similar, most similar first.
//! Similarity between two names is Sørensen–Dice over trigram multisets:
//! `2·common / (na + nb)`, where `na` and `nb` count each name's trigrams
//! (taken over the lower-cased name padded with one space on each side) and
//! `common` counts trigrams shared between the two multisets.  All scores
//! are compared with exact integer arithmetic; no floating point is
//! involved, so ranking is deterministic.

use vstd::prelude::*;

verus! {

/// ASCII lower-casing of one character; other characters pass through.
pub open spec fn lower_char(c: char) -> char {
    if 'A' <= c && c <= 'Z' {
        ((c as u8) + 32) as char
    } else {
        c
    }
}

/// ASCII lower-casing of a name.
pub open spec fn lower_seq(s: Seq<char>) -> Seq<char> {
    s.map_values(|c: char| lower_char(c))
}

/// The lower-cased name padded with one space on each side.
pub open spec fn padded(s: Seq<char>) -> Seq<char> {
    seq![' '] + lower_seq(s) + seq![' ']
}

/// The trigram sequence of a name.
pub open spec fn trigrams(s: Seq<char>) -> Seq<(char, char, char)> {
    let p = padded(s);
    Seq::new((p.len() - 2) as nat, |i: int| (p[i], p[i + 1], p[i + 2]))
}

/// First index of trigram `t` in `b`, from position `i` on.
pub open spec fn tri_index_from(b: Seq<(char, char, char)>, t: (char, char, char), i: int) -> Option<
    int,
>
    decreases b.len() - i,
{
    if i < 0 || i >= b.len() {
        None
    } else if b[i] == t {
        Some(i)
    } else {
        tri_index_from(b, t, i + 1)
    }
}

/// The size of the multiset intersection of two trigram sequences: each
/// trigram of `a` consumes at most one matching trigram of `b`.
pub open spec fn common_count(a: Seq<(char, char, char)>, b: Seq<(char, char, char)>) -> int
    decreases a.len(),
{
    if a.len() == 0 {
        0
    } else {
        match tri_index_from(b, a[0], 0) {
            Some(i) => 1 + common_count(a.drop_first(), b.remove(i)),
            None => common_count(a.drop_first(), b),
        }
    }
}

/// Whether a candidate with `n` trigrams and `c` trigrams in common with a
/// query of `nq` trigrams reaches the 0.4 similarity threshold:
/// `2c/(nq+n) >= 2/5`.
pub open spec fn similar_enough(c: int, nq: int, n: int) -> bool {
    nq + n > 0 && 5 * c >= nq + n
}

/// Whether the first candidate's similarity is at least the second's, by
/// cross-multiplication: `2c1/(nq+n1) >= 2c2/(nq+n2)`.
pub open spec fn sim_ge(c1: int, n1: int, c2: int, n2: int, nq: int) -> bool {
    c1 * (nq + n2) >= c2 * (nq + n1)
}

/// A scored candidate: its name, its trigrams in common with the query, and
/// its own trigram count.
pub open spec fn spec_candidate(q: Seq<char>, name: Seq<char>) -> (Seq<char>, usize, usize) {
    (
        name,
        common_count(trigrams(q), trigrams(name)) as usize,
        trigrams(name).len() as usize,
    )
}

/// The candidates that reach the threshold, in table order, from name `i`
/// on.
pub open spec fn spec_collect(
    acc: Seq<(Seq<char>, usize, usize)>,
    q: Seq<char>,
    names: Seq<Seq<char>>,
    i: int,
) -> Seq<(Seq<char>, usize, usize)>
    decreases names.len() - i,
{
    if i >= names.len() {
        acc
    } else {
        let cand = spec_candidate(q, names[i]);
        let nq = trigrams(q).len() as int;
        if similar_enough(cand.1 as int, nq, cand.2 as int) {
            spec_collect(acc.push(cand), q, names, i + 1)
        } else {
            spec_collect(acc, q, names, i + 1)
        }
    }
}

/// Inserts a candidate into a list sorted by descending similarity, after
/// every candidate at least as similar (so that ties keep table order).
pub open spec fn spec_insert_sorted(
    s: Seq<(Seq<char>, usize, usize)>,
    x: (Seq<char>, usize, usize),
    nq: int,
) -> Seq<(Seq<char>, usize, usize)>
    decreases s.len(),
{
    if s.len() == 0 {
        seq![x]
    } else if sim_ge(s[0].1 as int, s[0].2 as int, x.1 as int, x.2 as int, nq) {
        seq![s[0]] + spec_insert_sorted(s.drop_first(), x, nq)
    } else {
        seq![x] + s
    }
}

/// Stable insertion sort of the candidates by descending similarity.
pub open spec fn spec_sort(
    acc: Seq<(Seq<char>, usize, usize)>,
    cands: Seq<(Seq<char>, usize, usize)>,
    i: int,
    nq: int,
) -> Seq<(Seq<char>, usize, usize)>
    decreases cands.len() - i,
{
    if i >= cands.len() {
        acc
    } else {
        spec_sort(spec_insert_sorted(acc, cands[i], nq), cands, i + 1, nq)
    }
}

/// The ranked suggestion list for an unresolved name: every table name at
/// least 0.4 similar, most similar first, ties in table order.
pub open spec fn spec_suggestions(q: Seq<char>, names: Seq<Seq<char>>) -> Seq<Seq<char>> {
    let nq = trigrams(q).len() as int;
    let cands = spec_collect(Seq::empty(), q, names, 0);
    spec_sort(Seq::empty(), cands, 0, nq).map_values(|c: (Seq<char>, usize, usize)| c.0)
}

/// ASCII lower-casing of one character.
fn lower_char_exec(c: char) -> (r: char)
    ensures
        r == lower_char(c),
{
    if 'A' <= c && c <= 'Z' {
        ((c as u8) + 32) as char
    } else {
        c
    }
}

/// The trigram vector of a name.
fn trigram_vec(s: &String) -> (r: Vec<(char, char, char)>)
    ensures
        r@ == trigrams(s@),
{
    let sl = s.as_str();
    let n = sl.unicode_len();
    let mut p: Vec<char> = Vec::new();
    p.push(' ');
    let mut i: usize = 0;
    while i < n
        invariant
            0 <= i <= n,
            n == sl@.len(),
            sl@ == s@,
            p@.len() == i + 1,
            p@[0] == ' ',
            forall|j: int| 0 <= j < i ==> p@[j + 1] == lower_char(s@[j]),
        decreases n - i,
    {
        let c = sl.get_char(i);
        p.push(lower_char_exec(c));
        i = i + 1;
    }
    p.push(' ');
    proof {
        assert(p@ =~= padded(s@));
    }
    let m = p.len();
    let mut r: Vec<(char, char, char)> = Vec::new();
    let mut k: usize = 0;
    while k < m - 2
        invariant
            0 <= k <= m - 2,
            m == p@.len(),
            m >= 2,
            p@ == padded(s@),
            r@.len() == k,
            forall|j: int| 0 <= j < k ==> r@[j] == (p@[j], p@[j + 1], p@[j + 2]),
        decreases m - 2 - k,
    {
        r.push((p[k], p[k + 1], p[k + 2]));
        k = k + 1;
    }
    proof {
        assert(r@ =~= trigrams(s@));
    }
    r
}

/// First index of trigram `t` in `b`, if any.
fn tri_find(b: &Vec<(char, char, char)>, t: (char, char, char)) -> (r: Option<usize>)
    ensures
        (match r {
            Some(j) => Some(j as int),
            None => None,
        }) == tri_index_from(b@, t, 0),
        r matches Some(j) ==> j < b@.len(),
{
    let n = b.len();
    let mut j: usize = 0;
    while j < n
        invariant
            0 <= j <= n,
            n == b@.len(),
            tri_index_from(b@, t, 0) == tri_index_from(b@, t, j as int),
        decreases n - j,
    {
        let u = b[j];
        if u.0 == t.0 && u.1 == t.1 && u.2 == t.2 {
            assert(b@[j as int] == t);
            return Some(j);
        }
        j = j + 1;
    }
    None
}

/// The size of the multiset intersection of two trigram vectors.
fn common_count_exec(a: &Vec<(char, char, char)>, b: &Vec<(char, char, char)>) -> (r: usize)
    ensures
        r as int == common_count(a@, b@),
{
    let mut rest: Vec<(char, char, char)> = Vec::new();
    let mut j: usize = 0;
    while j < b.len()
        invariant
            0 <= j <= b@.len(),
            rest@ =~= b@.take(j as int),
        decreases b.len() - j,
    {
        rest.push(b[j]);
        j = j + 1;
    }
    proof {
        assert(rest@ =~= b@);
        assert(a@.skip(0) =~= a@);
    }
    let mut cnt: usize = 0;
    let mut i: usize = 0;
    while i < a.len()
        invariant
            0 <= i <= a.len(),
            cnt <= i,
            common_count(a@, b@) == cnt + common_count(a@.skip(i as int), rest@),
        decreases a.len() - i,
    {
        let t = a[i];
        proof {
            assert(a@.skip(i as int)[0] == a@[i as int]);
            assert(a@.skip(i as int).drop_first() =~= a@.skip(i as int + 1));
        }
        match tri_find(&rest, t) {
            Some(j) => {
                rest.remove(j);
                cnt = cnt + 1;
            },
            None => {},
        }
        i = i + 1;
    }
    proof {
        assert(a@.skip(a@.len() as int) =~= Seq::<(char, char, char)>::empty());
    }
    cnt
}

/// Whether the first candidate's similarity is at least the second's.
///
/// The cross-multiplied comparison `c1·(nq+n2) >= c2·(nq+n1)` is computed
/// term by term so that no product or sum can leave `u128`.
fn sim_ge_exec(c1: usize, n1: usize, c2: usize, n2: usize, nq: usize) -> (r: bool)
    ensures
        r == sim_ge(c1 as int, n1 as int, c2 as int, n2 as int, nq as int),
{
    proof {
        assert((c1 as u128) * (nq as u128) <= ((u64::MAX as u128) * (u64::MAX as u128)))
            by (nonlinear_arith)
            requires c1 <= u64::MAX && nq <= u64::MAX;
        assert((c1 as u128) * (n2 as u128) <= ((u64::MAX as u128) * (u64::MAX as u128)))
            by (nonlinear_arith)
            requires c1 <= u64::MAX && n2 <= u64::MAX;
        assert((c2 as u128) * (nq as u128) <= ((u64::MAX as u128) * (u64::MAX as u128)))
            by (nonlinear_arith)
            requires c2 <= u64::MAX && nq <= u64::MAX;
        assert((c2 as u128) * (n1 as u128) <= ((u64::MAX as u128) * (u64::MAX as u128)))
            by (nonlinear_arith)
            requires c2 <= u64::MAX && n1 <= u64::MAX;
    }
    let a1: u128 = (c1 as u128) * (nq as u128);
    let b1: u128 = (c1 as u128) * (n2 as u128);
    let a2: u128 = (c2 as u128) * (nq as u128);
    let b2: u128 = (c2 as u128) * (n1 as u128);
    proof {
        assert((c1 as int) * ((nq as int) + (n2 as int)) == (c1 as int) * (nq as int) + (c1 as int)
            * (n2 as int)) by (nonlinear_arith);
        assert((c2 as int) * ((nq as int) + (n1 as int)) == (c2 as int) * (nq as int) + (c2 as int)
            * (n1 as int)) by (nonlinear_arith);
    }
    if a1 >= a2 {
        if b1 >= b2 {
            true
        } else {
            a1 - a2 >= b2 - b1
        }
    } else {
        if b1 >= b2 {
            b1 - b2 >= a2 - a1
        } else {
            false
        }
    }
}

/// Inserts a scored candidate into the ranked list.
fn insert_cand(sorted: &mut Vec<(String, usize, usize)>, cand: (String, usize, usize), nq: usize)
    ensures
        final(sorted).deep_view() == spec_insert_sorted(
            old(sorted).deep_view(),
            cand.deep_view(),
            nq as int,
        ),
{
    let ghost candv = cand.deep_view();
    let n = sorted.len();
    proof {
        let dv = sorted.deep_view();
        assert(dv.skip(0) =~= dv);
        assert((dv.take(0) + spec_insert_sorted(dv.skip(0), candv, nq as int)) =~= spec_insert_sorted(
            dv,
            candv,
            nq as int,
        ));
    }
    let mut i: usize = 0;
    while i < n
        invariant
            0 <= i <= n,
            *sorted == *old(sorted),
            n == sorted.len(),
            spec_insert_sorted(sorted.deep_view(), candv, nq as int) == sorted.deep_view().take(
                i as int,
            ) + spec_insert_sorted(sorted.deep_view().skip(i as int), candv, nq as int),
            candv == cand.deep_view(),
        decreases n - i,
    {
        let e = &sorted[i];
        if !sim_ge_exec(e.1, e.2, cand.1, cand.2, nq) {
            let ghost pre = *sorted;
            sorted.insert(i, cand);
            proof {
                let dv = pre.deep_view();
                assert(dv.skip(i as int)[0] == dv[i as int]);
                assert(spec_insert_sorted(dv.skip(i as int), candv, nq as int) =~= (seq![candv]
                    + dv.skip(i as int)));
                assert(sorted.deep_view() =~= dv.take(i as int) + (seq![candv] + dv.skip(
                    i as int,
                )));
            }
            return ;
        }
        proof {
            let dv = sorted.deep_view();
            assert(dv.skip(i as int)[0] == dv[i as int]);
            assert(dv.skip(i as int).drop_first() =~= dv.skip(i as int + 1));
            let tail = spec_insert_sorted(dv.skip(i as int + 1), candv, nq as int);
            assert((seq![dv[i as int]] + tail) =~= spec_insert_sorted(
                dv.skip(i as int),
                candv,
                nq as int,
            ));
            assert((dv.take(i as int) + (seq![dv[i as int]] + tail)) =~= (dv.take(i as int + 1)
                + tail));
        }
        i = i + 1;
    }
    let ghost pre = *sorted;
    sorted.push(cand);
    proof {
        let dv = pre.deep_view();
        assert(dv.skip(n as int) =~= Seq::<(Seq<char>, usize, usize)>::empty());
        assert(spec_insert_sorted(dv.skip(n as int), candv, nq as int) =~= seq![candv]);
        assert(dv.take(n as int) =~= dv);
        crate::lemma_deep_view_push(pre, *sorted, cand);
        assert(sorted.deep_view() =~= dv.take(n as int) + seq![candv]);
    }
}

/// The ranked "did you mean" list for an unresolved name: every table name
/// at least 0.4 similar to `query`, most similar first, ties in table
/// order.
pub fn suggestions(query: &String, names: &Vec<String>) -> (r: Vec<String>)
    ensures
        r.deep_view() == spec_suggestions(query@, names.deep_view()),
{
    let qt = trigram_vec(query);
    let nq = qt.len();
    let mut cands: Vec<(String, usize, usize)> = Vec::new();
    proof {
        crate::lemma_deep_view_empty(cands);
    }
    let mut i: usize = 0;
    while i < names.len()
        invariant
            0 <= i <= names.len(),
            qt@ == trigrams(query@),
            nq == qt@.len(),
            spec_collect(Seq::empty(), query@, names.deep_view(), 0) == spec_collect(
                cands.deep_view(),
                query@,
                names.deep_view(),
                i as int,
            ),
        decreases names.len() - i,
    {
        proof {
            assert(names.deep_view()[i as int] == names[i as int].deep_view());
        }
        let name = &names[i];
        let nt = trigram_vec(name);
        let c = common_count_exec(&qt, &nt);
        let keep = (nq as u128) + (nt.len() as u128) > 0 && 5 * (c as u128) >= (nq as u128) + (
        nt.len() as u128);
        if keep {
            let cand = (name.clone(), c, nt.len());
            let ghost pre = cands;
            cands.push(cand);
            proof {
                crate::lemma_deep_view_push(pre, cands, cand);
            }
        }
        i = i + 1;
    }
    let mut sorted: Vec<(String, usize, usize)> = Vec::new();
    proof {
        crate::lemma_deep_view_empty(sorted);
    }
    let mut k: usize = 0;
    while k < cands.len()
        invariant
            0 <= k <= cands.len(),
            nq as int == trigrams(query@).len(),
            spec_sort(
                Seq::empty(),
                cands.deep_view(),
                0,
                nq as int,
            ) == spec_sort(sorted.deep_view(), cands.deep_view(), k as int, nq as int),
        decreases cands.len() - k,
    {
        proof {
            assert(cands.deep_view()[k as int] == cands[k as int].deep_view());
        }
        let cand = (cands[k].0.clone(), cands[k].1, cands[k].2);
        proof {
            assert(cand.deep_view() == cands.deep_view()[k as int]);
        }
        insert_cand(&mut sorted, cand, nq);
        k = k + 1;
    }
    let mut r: Vec<String> = Vec::new();
    proof {
        crate::lemma_deep_view_empty(r);
    }
    let mut m: usize = 0;
    while m < sorted.len()
        invariant
            0 <= m <= sorted.len(),
            r.deep_view() =~= sorted.deep_view().take(m as int).map_values(
                |c: (Seq<char>, usize, usize)| c.0,
            ),
        decreases sorted.len() - m,
    {
        proof {
            assert(sorted.deep_view()[m as int] == sorted[m as int].deep_view());
        }
        let ghost pre = r;
        let name = sorted[m].0.clone();
        let ghost namev = name;
        r.push(name);
        proof {
            crate::lemma_deep_view_push(pre, r, namev);
            assert(r.deep_view() =~= sorted.deep_view().take(m as int + 1).map_values(
                |c: (Seq<char>, usize, usize)| c.0,
            ));
        }
        m = m + 1;
    }
    proof {
        assert(sorted.deep_view().take(sorted.deep_view().len() as int) =~= sorted.deep_view());
    }
    r
}

} // verus!
