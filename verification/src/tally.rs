//! Per-key totals: for each key, the bytes and the number of files that carry
//! it, in the order in which the keys are first met.
use vstd::prelude::*;

verus! {

/// Sum of the sizes in a sequence of (key, size) pairs.
pub open spec fn size_sum<K>(pairs: Seq<(K, nat)>) -> nat
    decreases pairs.len(),
{
    if pairs.len() == 0 {
        0
    } else {
        size_sum(pairs.drop_last()) + pairs.last().1
    }
}

/// Bytes carried by key `k`.
pub open spec fn key_total<K>(pairs: Seq<(K, nat)>, k: K) -> nat
    decreases pairs.len(),
{
    if pairs.len() == 0 {
        0
    } else {
        key_total(pairs.drop_last(), k) + if pairs.last().0 == k {
            pairs.last().1
        } else {
            0
        }
    }
}

/// Number of pairs with key `k`.
pub open spec fn key_count<K>(pairs: Seq<(K, nat)>, k: K) -> nat
    decreases pairs.len(),
{
    if pairs.len() == 0 {
        0
    } else {
        key_count(pairs.drop_last(), k) + if pairs.last().0 == k {
            1nat
        } else {
            0
        }
    }
}

/// Some group of `t` has key `k`.
pub open spec fn has_key<K>(t: Seq<(K, nat, nat)>, k: K) -> bool {
    exists|i: int| 0 <= i < t.len() && (#[trigger] t[i]).0 == k
}

/// The groups after one more file of key `k` and `size` bytes: its group
/// grows, or a new group is appended.
pub open spec fn bump<K>(t: Seq<(K, nat, nat)>, k: K, size: nat) -> Seq<(K, nat, nat)> {
    if has_key(t, k) {
        let i = choose|i: int| 0 <= i < t.len() && (#[trigger] t[i]).0 == k;
        t.update(i, (k, t[i].1 + size, t[i].2 + 1))
    } else {
        t.push((k, size, 1nat))
    }
}

/// The groups of a sequence of (key, size) pairs, in order of first appearance.
pub open spec fn tally<K>(pairs: Seq<(K, nat)>) -> Seq<(K, nat, nat)>
    decreases pairs.len(),
{
    if pairs.len() == 0 {
        Seq::empty()
    } else {
        bump(tally(pairs.drop_last()), pairs.last().0, pairs.last().1)
    }
}

/// Sum of the group totals.
pub open spec fn group_sum<K>(t: Seq<(K, nat, nat)>) -> nat
    decreases t.len(),
{
    if t.len() == 0 {
        0
    } else {
        group_sum(t.drop_last()) + t.last().1
    }
}

/// Sum of the group file counts.
pub open spec fn group_files<K>(t: Seq<(K, nat, nat)>) -> nat
    decreases t.len(),
{
    if t.len() == 0 {
        0
    } else {
        group_files(t.drop_last()) + t.last().2
    }
}

/// No two groups share a key.
pub open spec fn distinct_keys<K>(t: Seq<(K, nat, nat)>) -> bool {
    forall|i: int, j: int| 0 <= i < j < t.len() ==> (#[trigger] t[i]).0 != (#[trigger] t[j]).0
}

/// Each group carries the exact totals of its key, keys are distinct, and
/// the groups cover exactly the keys that occur.
pub open spec fn is_tally_of<K>(t: Seq<(K, nat, nat)>, pairs: Seq<(K, nat)>) -> bool {
    &&& distinct_keys(t)
    &&& forall|i: int|
        0 <= i < t.len() ==> (#[trigger] t[i]).1 == key_total(pairs, t[i].0) && t[i].2 == key_count(
            pairs,
            t[i].0,
        ) && t[i].2 > 0
    &&& forall|k: K| has_key(t, k) <==> key_count(pairs, k) > 0
}

/// Sum of group totals after replacing one group's total.
proof fn lemma_group_sum_update<K>(t: Seq<(K, nat, nat)>, i: int, g: (K, nat, nat))
    requires
        0 <= i < t.len(),
    ensures
        group_sum(t.update(i, g)) + t[i].1 == group_sum(t) + g.1,
    decreases t.len(),
{
    if i < t.len() - 1 {
        lemma_group_sum_update(t.drop_last(), i, g);
        assert(t.update(i, g).drop_last() == t.drop_last().update(i, g));
    } else {
        assert(t.update(i, g).drop_last() == t.drop_last());
    }
}

/// Sum of group file counts after replacing one group.
proof fn lemma_group_files_update<K>(t: Seq<(K, nat, nat)>, i: int, g: (K, nat, nat))
    requires
        0 <= i < t.len(),
    ensures
        group_files(t.update(i, g)) + t[i].2 == group_files(t) + g.2,
    decreases t.len(),
{
    if i < t.len() - 1 {
        lemma_group_files_update(t.drop_last(), i, g);
        assert(t.update(i, g).drop_last() == t.drop_last().update(i, g));
    } else {
        assert(t.update(i, g).drop_last() == t.drop_last());
    }
}

/// A group's total never exceeds the sum of all totals.
pub proof fn lemma_group_le_sum<K>(t: Seq<(K, nat, nat)>, i: int)
    requires
        0 <= i < t.len(),
    ensures
        t[i].1 <= group_sum(t),
    decreases t.len(),
{
    if i < t.len() - 1 {
        lemma_group_le_sum(t.drop_last(), i);
    }
}

/// What `bump` does to the group of `k` and to the others.
pub proof fn lemma_bump<K>(t: Seq<(K, nat, nat)>, k: K, size: nat)
    requires
        distinct_keys(t),
    ensures
        distinct_keys(bump(t, k, size)),
        group_sum(bump(t, k, size)) == group_sum(t) + size,
        group_files(bump(t, k, size)) == group_files(t) + 1,
        has_key(bump(t, k, size), k),
        forall|k2: K| has_key(bump(t, k, size), k2) <==> (has_key(t, k2) || k2 == k),
        forall|i: int|
            0 <= i < bump(t, k, size).len() ==> {
                let g = #[trigger] bump(t, k, size)[i];
                if g.0 == k {
                    (has_key(t, k) ==> i < t.len() && t[i].0 == k && g.1 == t[i].1 + size && g.2
                        == t[i].2 + 1) && (!has_key(t, k) ==> g.1 == size && g.2 == 1)
                } else {
                    i < t.len() && g == t[i]
                }
            },
{
    let b = bump(t, k, size);
    if has_key(t, k) {
        let i = choose|i: int| 0 <= i < t.len() && (#[trigger] t[i]).0 == k;
        lemma_group_sum_update(t, i, (k, t[i].1 + size, t[i].2 + 1));
        lemma_group_files_update(t, i, (k, t[i].1 + size, t[i].2 + 1));
        assert forall|j: int| 0 <= j < t.len() && j != i implies (#[trigger] b[j]).0 != k by {}
        assert forall|k2: K| has_key(b, k2) <==> (has_key(t, k2) || k2 == k) by {
            if has_key(t, k2) {
                let j = choose|j: int| 0 <= j < t.len() && (#[trigger] t[j]).0 == k2;
                assert(b[j].0 == k2);
            }
            if k2 == k {
                assert(b[i].0 == k2);
            }
            if has_key(b, k2) {
                let j = choose|j: int| 0 <= j < b.len() && (#[trigger] b[j]).0 == k2;
                assert(t[j].0 == k2 || j == i);
            }
        }
    } else {
        assert(b.drop_last() == t);
        assert(b[t.len() as int].0 == k);
        assert forall|k2: K| has_key(b, k2) <==> (has_key(t, k2) || k2 == k) by {
            if has_key(t, k2) {
                let j = choose|j: int| 0 <= j < t.len() && (#[trigger] t[j]).0 == k2;
                assert(b[j].0 == k2);
            }
            if has_key(b, k2) {
                let j = choose|j: int| 0 <= j < b.len() && (#[trigger] b[j]).0 == k2;
                if j < t.len() {
                    assert(t[j].0 == k2);
                }
            }
        }
    }
}

/// `tally` is the exact per-key summary of the pairs, and its totals add
/// up to the sum of all sizes.
pub proof fn lemma_tally<K>(pairs: Seq<(K, nat)>)
    ensures
        is_tally_of(tally(pairs), pairs),
        group_sum(tally(pairs)) == size_sum(pairs),
        group_files(tally(pairs)) == pairs.len(),
    decreases pairs.len(),
{
    if pairs.len() > 0 {
        let init = pairs.drop_last();
        let (k, size) = pairs.last();
        lemma_tally(init);
        let t = tally(init);
        lemma_bump(t, k, size);
        let b = tally(pairs);
        assert forall|i: int| 0 <= i < b.len() implies (#[trigger] b[i]).1 == key_total(
            pairs,
            b[i].0,
        ) && b[i].2 == key_count(pairs, b[i].0) && b[i].2 > 0 by {
            if b[i].0 != k {
                assert(b[i] == t[i]);
            } else if !has_key(t, k) {
                if key_count(init, k) > 0 {
                    assert(has_key(t, k));
                }
                lemma_count_zero_total_zero(init, k);
            }
        }
        assert forall|k2: K| has_key(b, k2) <==> key_count(pairs, k2) > 0 by {
            assert(key_count(pairs, k2) == key_count(init, k2) + if k == k2 {
                1nat
            } else {
                0
            });
            assert(has_key(t, k2) <==> key_count(init, k2) > 0);
        }
    }
}

/// A key that never occurs carries no bytes.
pub proof fn lemma_count_zero_total_zero<K>(pairs: Seq<(K, nat)>, k: K)
    requires
        key_count(pairs, k) == 0,
    ensures
        key_total(pairs, k) == 0,
    decreases pairs.len(),
{
    if pairs.len() > 0 {
        lemma_count_zero_total_zero(pairs.drop_last(), k);
    }
}


/// Sums over a concatenation add up.
pub proof fn lemma_group_sums_concat<K>(a: Seq<(K, nat, nat)>, b: Seq<(K, nat, nat)>)
    ensures
        group_sum(a + b) == group_sum(a) + group_sum(b),
        group_files(a + b) == group_files(a) + group_files(b),
    decreases b.len(),
{
    if b.len() > 0 {
        lemma_group_sums_concat(a, b.drop_last());
        assert((a + b).drop_last() == a + b.drop_last());
    } else {
        assert(a + b == a);
    }
}

} // verus!
