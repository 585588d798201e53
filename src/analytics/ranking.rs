//! Orderings of the analysis: nearest-rank percentiles of durations, counts
//! of distinct texts, and stable descending rankings cut to a maximum.

use vstd::prelude::*;

verus! {

/// Relies on `slice::sort_unstable`: the same values in ascending order.
#[verifier::external_body]
pub fn sort_ascending(v: &mut Vec<u64>)
    ensures
        sorted_ascending(final(v)@),
        final(v)@.to_multiset() == old(v)@.to_multiset(),
{
    v.sort_unstable();
}

pub open spec fn sorted_ascending(s: Seq<u64>) -> bool {
    forall|i: int, j: int| 0 <= i < j < s.len() ==> s[i] <= s[j]
}

/// The nearest-rank index of the percentile `bp` (in hundredths of a
/// percent) among `n` samples: `floor(n * bp / 10000)`, at most the last.
pub open spec fn rank_index(n: int, bp: int) -> int {
    if n * bp / 10000 < n - 1 {
        n * bp / 10000
    } else {
        n - 1
    }
}

/// Whether `v` is the nearest-rank percentile `bp` of the samples `d`: the
/// value at the rank index once they are sorted, or 0 without samples.
pub open spec fn is_percentile(d: Seq<u64>, bp: int, v: u64) -> bool {
    if d.len() == 0 {
        v == 0
    } else {
        exists|s: Seq<u64>|
            sorted_ascending(s) && s.to_multiset() == d.to_multiset() && v == s[rank_index(
                d.len() as int,
                bp,
            )]
    }
}

/// The index of the first entry of `t` with key `x`, or `t.len()`.
pub open spec fn key_index(t: Seq<(Seq<char>, int)>, x: Seq<char>) -> int
    decreases t.len(),
{
    if t.len() == 0 {
        0
    } else if key_index(t.drop_last(), x) < t.len() - 1 {
        key_index(t.drop_last(), x)
    } else if t.last().0 == x {
        t.len() - 1
    } else {
        t.len() as int
    }
}

/// The distinct texts of `ns` in order of first appearance, each with the
/// number of times it appears.
pub open spec fn tally(ns: Seq<Seq<char>>) -> Seq<(Seq<char>, int)>
    decreases ns.len(),
{
    if ns.len() == 0 {
        Seq::empty()
    } else {
        let t = tally(ns.drop_last());
        let x = ns.last();
        let j = key_index(t, x);
        if j < t.len() {
            t.update(j, (x, t[j].1 + 1))
        } else {
            t.push((x, 1))
        }
    }
}

/// Where an entry with key `key` goes in a list sorted by descending key,
/// after every entry whose key is at least as large.
pub open spec fn insert_pos(s: Seq<(Seq<char>, int)>, key: int) -> int
    decreases s.len(),
{
    if s.len() == 0 {
        0
    } else if s[0].1 >= key {
        1 + insert_pos(s.skip(1), key)
    } else {
        0
    }
}

/// The entries sorted by descending key, entries with equal keys in the
/// order in which they came.
pub open spec fn stable_desc(s: Seq<(Seq<char>, int)>) -> Seq<(Seq<char>, int)>
    decreases s.len(),
{
    if s.len() == 0 {
        s
    } else {
        let r = stable_desc(s.drop_last());
        r.insert(insert_pos(r, s.last().1), s.last())
    }
}

/// The first `cap` entries of the stable descending order.
pub open spec fn top(s: Seq<(Seq<char>, int)>, cap: int) -> Seq<(Seq<char>, int)> {
    let r = stable_desc(s);
    if cap < r.len() {
        r.take(cap)
    } else {
        r
    }
}

pub open spec fn pairs_view(v: Seq<(String, u64)>) -> Seq<(Seq<char>, int)> {
    v.map_values(|p: (String, u64)| (p.0@, p.1 as int))
}

proof fn lemma_insert_pos_bounds(s: Seq<(Seq<char>, int)>, key: int)
    ensures
        0 <= insert_pos(s, key) <= s.len(),
    decreases s.len(),
{
    if s.len() > 0 && s[0].1 >= key {
        lemma_insert_pos_bounds(s.skip(1), key);
    }
}

proof fn lemma_stable_desc_len(s: Seq<(Seq<char>, int)>)
    ensures
        stable_desc(s).len() == s.len(),
    decreases s.len(),
{
    if s.len() > 0 {
        lemma_stable_desc_len(s.drop_last());
        lemma_insert_pos_bounds(stable_desc(s.drop_last()), s.last().1);
    }
}

/// Inserts `(text, key)` into `out` at its stable descending position.
fn insert_desc(out: &mut Vec<(String, u64)>, text: String, key: u64)
    ensures
        pairs_view(final(out)@) == pairs_view(old(out)@).insert(
            insert_pos(pairs_view(old(out)@), key as int),
            (text@, key as int),
        ),
{
    let ghost s = pairs_view(out@);
    let mut j: usize = 0;
    assert(s.skip(0) =~= s);
    while j < out.len() && out[j].1 >= key
        invariant
            s == pairs_view(out@),
            j <= out@.len(),
            insert_pos(s, key as int) == j + insert_pos(s.skip(j as int), key as int),
        decreases out@.len() - j,
    {
        assert(s.skip(j as int)[0] == s[j as int]);
        assert(s.skip(j as int).skip(1) =~= s.skip(j + 1));
        j = j + 1;
    }
    if j < out.len() {
        assert(s.skip(j as int)[0] == s[j as int]);
    }
    proof {
        lemma_insert_pos_bounds(s, key as int);
    }
    out.insert(j, (text, key));
    assert(pairs_view(out@) =~= s.insert(j as int, (text@, key as int)));
}

/// The entries in stable descending order of key, the first `cap` of them.
pub fn rank_desc(items: Vec<(String, u64)>, cap: usize) -> (r: Vec<(String, u64)>)
    ensures
        pairs_view(r@) == top(pairs_view(items@), cap as int),
{
    let ghost v = pairs_view(items@);
    let mut out: Vec<(String, u64)> = Vec::new();
    let mut i: usize = 0;
    assert(v.take(0) =~= Seq::<(Seq<char>, int)>::empty());
    assert(pairs_view(out@) =~= Seq::<(Seq<char>, int)>::empty());
    while i < items.len()
        invariant
            v == pairs_view(items@),
            i <= items@.len(),
            pairs_view(out@) == stable_desc(v.take(i as int)),
        decreases items@.len() - i,
    {
        let (text, key) = (items[i].0.clone(), items[i].1);
        assert(v.take(i + 1).drop_last() =~= v.take(i as int));
        assert(v.take(i + 1).last() == (text@, key as int));
        insert_desc(&mut out, text, key);
        i = i + 1;
    }
    assert(v.take(items@.len() as int) =~= v);
    proof {
        lemma_stable_desc_len(v);
    }
    if cap < out.len() {
        out.truncate(cap);
        assert(pairs_view(out@) =~= stable_desc(v).take(cap as int));
    }
    out
}

proof fn lemma_key_index(t: Seq<(Seq<char>, int)>, x: Seq<char>)
    ensures
        0 <= key_index(t, x) <= t.len(),
        key_index(t, x) < t.len() ==> t[key_index(t, x)].0 == x,
        forall|k: int| 0 <= k < key_index(t, x) ==> t[k].0 != x,
    decreases t.len(),
{
    if t.len() > 0 {
        lemma_key_index(t.drop_last(), x);
        assert forall|k: int| 0 <= k < t.len() - 1 implies t[k] == t.drop_last()[k] by {}
    }
}

pub open spec fn texts_view(v: Seq<String>) -> Seq<Seq<char>> {
    v.map_values(|s: String| s@)
}

/// The distinct texts in order of first appearance, each with its count.
pub fn tally_texts(ns: &Vec<String>) -> (r: Vec<(String, u64)>)
    ensures
        pairs_view(r@) == tally(texts_view(ns@)),
{
    let ghost v = texts_view(ns@);
    let mut out: Vec<(String, u64)> = Vec::new();
    let mut i: usize = 0;
    assert(pairs_view(out@) =~= Seq::<(Seq<char>, int)>::empty());
    assert(v.take(0) =~= Seq::<Seq<char>>::empty());
    while i < ns.len()
        invariant
            v == texts_view(ns@),
            i <= ns@.len(),
            pairs_view(out@) == tally(v.take(i as int)),
            forall|k: int| 0 <= k < out@.len() ==> (#[trigger] out@[k]).1 <= i,
        decreases ns@.len() - i,
    {
        let ghost t = pairs_view(out@);
        let x = &ns[i];
        assert(v.take(i + 1).drop_last() =~= v.take(i as int));
        assert(v.take(i + 1).last() == x@);
        proof {
            lemma_key_index(t, x@);
        }
        let mut j: usize = 0;
        while j < out.len() && !(out[j].0 == *x)
            invariant
                t == pairs_view(out@),
                j <= out@.len(),
                j <= key_index(t, x@),
                0 <= key_index(t, x@) <= t.len(),
                key_index(t, x@) < t.len() ==> t[key_index(t, x@)].0 == x@,
                forall|k: int| 0 <= k < key_index(t, x@) ==> t[k].0 != x@,
            decreases out@.len() - j,
        {
            j = j + 1;
        }
        if j < out.len() {
            assert(t[j as int].0 == x@);
            assert(j == key_index(t, x@));
            let c = out[j].1;
            let key = out[j].0.clone();
            out.set(j, (key, c + 1));
            assert(pairs_view(out@) =~= t.update(j as int, (x@, t[j as int].1 + 1)));
        } else {
            assert(j == key_index(t, x@));
            out.push((x.clone(), 1));
            assert(pairs_view(out@) =~= t.push((x@, 1)));
        }
        i = i + 1;
    }
    assert(v.take(ns@.len() as int) =~= v);
    out
}

/// The nearest-rank percentile `bp` (in hundredths of a percent) of sorted samples.
pub fn percentile_of(sorted: &Vec<u64>, bp: u64) -> (r: u64)
    requires
        sorted@.len() > 0,
        bp <= 10000,
    ensures
        r == sorted@[rank_index(sorted@.len() as int, bp as int)],
{
    let n = sorted.len() as u128;
    assert(n * (bp as u128) <= n * 10000) by (nonlinear_arith)
        requires
            bp <= 10000,
    ;
    let idx = n * (bp as u128) / 10000;
    let i = if idx < n - 1 {
        idx
    } else {
        n - 1
    };
    sorted[i as usize]
}

/// Whether the keys of `s` do not increase.
pub open spec fn sorted_desc(s: Seq<(Seq<char>, int)>) -> bool {
    forall|i: int, j: int| 0 <= i < j < s.len() ==> s[i].1 >= s[j].1
}

proof fn lemma_insert_pos_props(s: Seq<(Seq<char>, int)>, key: int)
    ensures
        0 <= insert_pos(s, key) <= s.len(),
        forall|k: int| 0 <= k < insert_pos(s, key) ==> s[k].1 >= key,
        sorted_desc(s) ==> forall|k: int| insert_pos(s, key) <= k < s.len() ==> s[k].1 < key,
    decreases s.len(),
{
    if s.len() > 0 && s[0].1 >= key {
        let t = s.skip(1);
        lemma_insert_pos_props(t, key);
        assert forall|k: int| 0 <= k < insert_pos(s, key) implies s[k].1 >= key by {
            if k > 0 {
                assert(s[k] == t[k - 1]);
            }
        }
        if sorted_desc(s) {
            assert(sorted_desc(t)) by {
                assert forall|i: int, j: int| 0 <= i < j < t.len() implies t[i].1 >= t[j].1 by {
                    assert(t[i] == s[i + 1] && t[j] == s[j + 1]);
                }
            }
            assert forall|k: int| insert_pos(s, key) <= k < s.len() implies s[k].1 < key by {
                assert(s[k] == t[k - 1]);
            }
        }
    } else if s.len() > 0 {
        if sorted_desc(s) {
            assert forall|k: int| 0 <= k < s.len() implies s[k].1 < key by {
                if k > 0 {
                    assert(s[0].1 >= s[k].1);
                }
            }
        }
    }
}

/// The stable descending order is sorted by descending key.
pub proof fn lemma_stable_desc_sorted(s: Seq<(Seq<char>, int)>)
    ensures
        sorted_desc(stable_desc(s)),
    decreases s.len(),
{
    if s.len() > 0 {
        let r = stable_desc(s.drop_last());
        let x = s.last();
        lemma_stable_desc_sorted(s.drop_last());
        lemma_insert_pos_props(r, x.1);
        let p = insert_pos(r, x.1);
        let q = r.insert(p, x);
        assert forall|i: int, j: int| 0 <= i < j < q.len() implies q[i].1 >= q[j].1 by {
            if j < p {
                assert(q[i] == r[i] && q[j] == r[j]);
            } else if j == p {
                assert(q[i] == r[i]);
            } else if i < p {
                assert(q[i] == r[i] && q[j] == r[j - 1]);
            } else if i == p {
                assert(q[j] == r[j - 1]);
            } else {
                assert(q[i] == r[i - 1] && q[j] == r[j - 1]);
            }
        }
    }
}

pub proof fn lemma_top_sorted(s: Seq<(Seq<char>, int)>, cap: int)
    requires
        0 <= cap,
    ensures
        sorted_desc(top(s, cap)),
{
    let r = stable_desc(s);
    lemma_stable_desc_sorted(s);
    if cap < r.len() {
        let t = r.take(cap);
        assert forall|i: int, j: int| 0 <= i < j < t.len() implies t[i].1 >= t[j].1 by {
            assert(t[i] == r[i] && t[j] == r[j]);
        }
    }
}

} // verus!
