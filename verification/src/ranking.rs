//! Stable descending order by a numeric key, and the "first k of that order".
//!
//! The scan reports list files and groups from the largest to the smallest.
//! Equal keys keep the order in which their elements were met, as a stable
//! sort does.
use vstd::multiset::Multiset;
use vstd::prelude::*;

verus! {

/// The place where `x` enters the descending sequence `s`: just after the
/// last element whose key is at least the key of `x`.
pub open spec fn slot<T>(s: Seq<T>, x: T, key: spec_fn(T) -> int) -> nat
    decreases s.len(),
{
    if s.len() == 0 {
        0
    } else if key(s.last()) < key(x) {
        slot(s.drop_last(), x, key)
    } else {
        s.len()
    }
}

/// `s` with `x` put at its slot.
pub open spec fn insert_desc<T>(s: Seq<T>, x: T, key: spec_fn(T) -> int) -> Seq<T> {
    let p = slot(s, x, key) as int;
    s.take(p) + seq![x] + s.skip(p)
}

/// The stable sort of `s` from the largest key to the smallest.
pub open spec fn sort_desc<T>(s: Seq<T>, key: spec_fn(T) -> int) -> Seq<T>
    decreases s.len(),
{
    if s.len() == 0 {
        s
    } else {
        insert_desc(sort_desc(s.drop_last(), key), s.last(), key)
    }
}

/// Every element's key is at least the key of every later element.
pub open spec fn is_desc<T>(s: Seq<T>, key: spec_fn(T) -> int) -> bool {
    forall|i: int, j: int| 0 <= i < j < s.len() ==> key(#[trigger] s[i]) >= key(#[trigger] s[j])
}

/// The first `k` elements of `s`, or all of `s` when it is shorter.
pub open spec fn prefix<T>(s: Seq<T>, k: nat) -> Seq<T> {
    if s.len() <= k {
        s
    } else {
        s.take(k as int)
    }
}

/// The `k` elements that come first in the stable descending order of `s`.
pub open spec fn top<T>(s: Seq<T>, key: spec_fn(T) -> int, k: nat) -> Seq<T> {
    prefix(sort_desc(s, key), k)
}

/// What `slot` picks: everything from the slot on has a smaller key, and the
/// element just before it does not.
pub proof fn lemma_slot<T>(s: Seq<T>, x: T, key: spec_fn(T) -> int)
    ensures
        slot(s, x, key) <= s.len(),
        forall|i: int| slot(s, x, key) <= i < s.len() ==> key(#[trigger] s[i]) < key(x),
        slot(s, x, key) > 0 ==> key(s[slot(s, x, key) - 1]) >= key(x),
    decreases s.len(),
{
    if s.len() > 0 && key(s.last()) < key(x) {
        lemma_slot(s.drop_last(), x, key);
        assert forall|i: int| slot(s, x, key) <= i < s.len() implies key(#[trigger] s[i]) < key(
            x,
        ) by {
            if i < s.len() - 1 {
                assert(s[i] == s.drop_last()[i]);
            }
        }
        if slot(s, x, key) > 0 {
            assert(s[slot(s, x, key) - 1] == s.drop_last()[slot(s, x, key) - 1]);
        }
    }
}

/// In a descending sequence, the slot of `x` is the number of elements whose
/// key is at least the key of `x`.
pub proof fn lemma_slot_desc<T>(s: Seq<T>, x: T, key: spec_fn(T) -> int)
    requires
        is_desc(s, key),
    ensures
        forall|i: int| 0 <= i < slot(s, x, key) ==> key(#[trigger] s[i]) >= key(x),
{
    lemma_slot(s, x, key);
    let p = slot(s, x, key) as int;
    assert forall|i: int| 0 <= i < p implies key(#[trigger] s[i]) >= key(x) by {
        if i < p - 1 {
            assert(key(s[i]) >= key(s[p - 1]));
        }
    }
}

/// Inserting at the slot keeps a descending sequence descending and adds
/// exactly `x`.
pub proof fn lemma_insert_desc<T>(s: Seq<T>, x: T, key: spec_fn(T) -> int)
    requires
        is_desc(s, key),
    ensures
        is_desc(insert_desc(s, x, key), key),
        insert_desc(s, x, key).len() == s.len() + 1,
        insert_desc(s, x, key).to_multiset() =~= s.to_multiset().insert(x),
{
    lemma_slot(s, x, key);
    lemma_slot_desc(s, x, key);
    let p = slot(s, x, key) as int;
    let r = insert_desc(s, x, key);
    assert(r.len() == s.len() + 1);
    assert forall|i: int| 0 <= i < r.len() implies #[trigger] r[i] == (if i < p {
        s[i]
    } else if i == p {
        x
    } else {
        s[i - 1]
    }) by {}
    assert forall|i: int, j: int| 0 <= i < j < r.len() implies key(#[trigger] r[i]) >= key(
        #[trigger] r[j],
    ) by {
        if i < p && j == p {
        } else if i < p && j > p {
            assert(key(s[i]) >= key(s[j - 1]));
        } else if i == p {
            assert(key(s[j - 1]) < key(x));
        } else if i < p {
        } else {
            assert(key(s[i - 1]) >= key(s[j - 1]));
        }
    }
    broadcast use vstd::seq_lib::group_to_multiset_ensures;

    assert(s == s.take(p) + s.skip(p));
    vstd::seq_lib::lemma_multiset_commutative(s.take(p), s.skip(p));
    vstd::seq_lib::lemma_multiset_commutative(s.take(p) + seq![x], s.skip(p));
    vstd::seq_lib::lemma_multiset_commutative(s.take(p), seq![x]);
    assert(seq![x].to_multiset() =~= Multiset::empty().insert(x)) by {
        assert(seq![x] == Seq::<T>::empty().push(x));
    }
}

/// The stable descending sort is descending and holds the same elements.
pub proof fn lemma_sort_desc<T>(s: Seq<T>, key: spec_fn(T) -> int)
    ensures
        is_desc(sort_desc(s, key), key),
        sort_desc(s, key).len() == s.len(),
        sort_desc(s, key).to_multiset() =~= s.to_multiset(),
    decreases s.len(),
{
    broadcast use vstd::seq_lib::group_to_multiset_ensures;

    if s.len() > 0 {
        lemma_sort_desc(s.drop_last(), key);
        lemma_insert_desc(sort_desc(s.drop_last(), key), s.last(), key);
        assert(s == s.drop_last().push(s.last()));
    }
}

/// Keeping only the first `k` after each insertion gives the same first `k`
/// as inserting into the whole sequence.
pub proof fn lemma_prefix_insert<T>(s: Seq<T>, x: T, key: spec_fn(T) -> int, k: nat)
    requires
        is_desc(s, key),
    ensures
        prefix(insert_desc(prefix(s, k), x, key), k) == prefix(insert_desc(s, x, key), k),
{
    if s.len() > k {
        let t = s.take(k as int);
        lemma_slot(s, x, key);
        lemma_slot_desc(s, x, key);
        lemma_slot(t, x, key);
        let p = slot(s, x, key) as int;
        let q = slot(t, x, key) as int;
        // the slot in the shortened sequence is the slot in `s`, cut at k
        if p <= k {
            if q < p {
                assert(t[q] == s[q]);
            } else if q > p {
                assert(t[q - 1] == s[q - 1]);
            }
            assert(q == p);
        } else {
            if q < k {
                assert(t[q] == s[q]);
            }
            assert(q == k);
        }
        let lhs = prefix(insert_desc(t, x, key), k);
        let rhs = prefix(insert_desc(s, x, key), k);
        assert(lhs.len() == rhs.len());
        assert forall|i: int| 0 <= i < lhs.len() implies lhs[i] == rhs[i] by {}
        assert(lhs =~= rhs);
    }
}

/// One more element seen: the new `top` is the old `top` with the element
/// inserted and cut back to `k`.
pub proof fn lemma_top_push<T>(s: Seq<T>, x: T, key: spec_fn(T) -> int, k: nat)
    ensures
        top(s.push(x), key, k) == prefix(insert_desc(top(s, key, k), x, key), k),
{
    lemma_sort_desc(s, key);
    assert(s.push(x).drop_last() == s);
    lemma_prefix_insert(sort_desc(s, key), x, key, k);
}


/// The slot does not change when every element is mapped and the key is
/// read through the map.
pub proof fn lemma_slot_map<A, B>(
    s: Seq<A>,
    x: A,
    f: spec_fn(A) -> B,
    ka: spec_fn(A) -> int,
    kb: spec_fn(B) -> int,
)
    requires
        forall|a: A| #[trigger] kb(f(a)) == ka(a),
    ensures
        slot(s.map_values(f), f(x), kb) == slot(s, x, ka),
    decreases s.len(),
{
    if s.len() > 0 {
        assert(s.map_values(f).drop_last() == s.drop_last().map_values(f));
        assert(s.map_values(f).last() == f(s.last()));
        lemma_slot_map(s.drop_last(), x, f, ka, kb);
    }
}

/// Sorting commutes with mapping when the key is read through the map.
pub proof fn lemma_sort_map<A, B>(
    s: Seq<A>,
    f: spec_fn(A) -> B,
    ka: spec_fn(A) -> int,
    kb: spec_fn(B) -> int,
)
    requires
        forall|a: A| #[trigger] kb(f(a)) == ka(a),
    ensures
        sort_desc(s.map_values(f), kb) == sort_desc(s, ka).map_values(f),
    decreases s.len(),
{
    if s.len() > 0 {
        assert(s.map_values(f).drop_last() == s.drop_last().map_values(f));
        assert(s.map_values(f).last() == f(s.last()));
        lemma_sort_map(s.drop_last(), f, ka, kb);
        let t = sort_desc(s.drop_last(), ka);
        lemma_slot_map(t, s.last(), f, ka, kb);
        let p = slot(t, s.last(), ka) as int;
        lemma_slot(t, s.last(), ka);
        assert(insert_desc(t.map_values(f), f(s.last()), kb) =~= insert_desc(
            t,
            s.last(),
            ka,
        ).map_values(f));
    }
}


/// The first `k` of a descending sequence are descending.
pub proof fn lemma_prefix_desc<T>(s: Seq<T>, key: spec_fn(T) -> int, k: nat)
    requires
        is_desc(s, key),
    ensures
        is_desc(prefix(s, k), key),
        prefix(s, k).len() <= k,
        prefix(s, k).len() <= s.len(),
{
    let p = prefix(s, k);
    assert forall|i: int, j: int| 0 <= i < j < p.len() implies key(#[trigger] p[i]) >= key(
        #[trigger] p[j],
    ) by {
        assert(p[i] == s[i] && p[j] == s[j]);
    }
}

/// `top` is descending and holds at most `k` elements.
pub proof fn lemma_top<T>(s: Seq<T>, key: spec_fn(T) -> int, k: nat)
    ensures
        is_desc(top(s, key, k), key),
        top(s, key, k).len() == if s.len() <= k {
            s.len()
        } else {
            k
        },
{
    lemma_sort_desc(s, key);
    lemma_prefix_desc(sort_desc(s, key), key, k);
}


/// The stable sort only rearranges: it holds exactly the elements of `s`.
pub proof fn lemma_sort_elements<T>(s: Seq<T>, key: spec_fn(T) -> int)
    ensures
        sort_desc(s, key).len() == s.len(),
        forall|y: T| #[trigger] sort_desc(s, key).contains(y) <==> s.contains(y),
{
    broadcast use vstd::seq_lib::group_to_multiset_ensures;

    lemma_sort_desc(s, key);
    assert forall|y: T| #[trigger] sort_desc(s, key).contains(y) <==> s.contains(y) by {
        assert(sort_desc(s, key).to_multiset().count(y) == s.to_multiset().count(y));
    }
}

/// Every element of `s` is at least as large as the elements past the
/// first `k` of its descending sort, or is among those first `k`.
pub proof fn lemma_top_keeps_largest<T>(s: Seq<T>, key: spec_fn(T) -> int, k: nat, x: T)
    requires
        s.contains(x),
        top(s, key, k).len() > 0,
    ensures
        top(s, key, k).contains(x) || key(x) <= key(top(s, key, k).last()),
{
    lemma_sort_elements(s, key);
    lemma_sort_desc(s, key);
    let srt = sort_desc(s, key);
    let t = top(s, key, k);
    assert(srt.contains(x));
    let i = choose|i: int| 0 <= i < srt.len() && srt[i] == x;
    if i < t.len() {
        assert(t[i] == x);
    } else {
        assert(t.last() == srt[t.len() - 1]);
        assert(key(srt[t.len() - 1]) >= key(srt[i]));
    }
}

} // verus!
