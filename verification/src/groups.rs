//! Building the per-key groups of a scan and ordering them by size.
use vstd::prelude::*;
use crate::ranking::{insert_desc, is_desc, lemma_insert_desc, lemma_slot, lemma_sort_desc, lemma_sort_elements, slot, sort_desc};
use crate::scanner::FileCategory;
use crate::tally::{bump, distinct_keys, group_files, group_sum, has_key, is_tally_of, lemma_group_le_sum, lemma_group_sums_concat};

verus! {

/// The key by which groups are ordered: their byte total.
pub open spec fn total_key<K>() -> spec_fn((K, nat, nat)) -> int {
    |g: (K, nat, nat)| g.1 as int
}

/// The byte total of an executable group.
pub open spec fn exec_total_key<K>() -> spec_fn((K, u64, u64)) -> int {
    |g: (K, u64, u64)| g.1 as int
}

/// A text-keyed group as (key, bytes, files).
pub open spec fn text_view(g: (String, u64, u64)) -> (Seq<char>, nat, nat) {
    (g.0@, g.1 as nat, g.2 as nat)
}

/// Text-keyed groups as (key, bytes, files).
pub open spec fn text_groups(v: Seq<(String, u64, u64)>) -> Seq<(Seq<char>, nat, nat)> {
    v.map_values(|g: (String, u64, u64)| text_view(g))
}

/// A group keyed by any value, with its counts as numbers.
pub open spec fn plain_view<K>(g: (K, u64, u64)) -> (K, nat, nat) {
    (g.0, g.1 as nat, g.2 as nat)
}

/// Groups keyed by any value, with their counts as numbers.
pub open spec fn plain_groups<K>(v: Seq<(K, u64, u64)>) -> Seq<(K, nat, nat)> {
    v.map_values(|g: (K, u64, u64)| plain_view(g))
}

/// Counts one more file of `size` bytes under the text key `key`.
pub fn add_text(groups: &mut Vec<(String, u64, u64)>, key: String, size: u64)
    requires
        distinct_keys(text_groups(old(groups)@)),
        group_sum(text_groups(old(groups)@)) + size <= u64::MAX,
        forall|j: int| 0 <= j < old(groups)@.len() ==> (#[trigger] old(groups)@[j]).2 < u64::MAX,
    ensures
        text_groups(final(groups)@) == bump(text_groups(old(groups)@), key@, size as nat),
{
    let ghost t = text_groups(groups@);
    let mut j: usize = 0;
    while j < groups.len()
        invariant
            j <= groups.len(),
            t == text_groups(groups@),
            t == text_groups(old(groups)@),
            distinct_keys(t),
            group_sum(t) + size <= u64::MAX,
            forall|i: int| 0 <= i < groups@.len() ==> (#[trigger] groups@[i]).2 < u64::MAX,
            forall|i: int| 0 <= i < j ==> (#[trigger] t[i]).0 != key@,
        decreases groups.len() - j,
    {
        if groups[j].0 == key {
            proof {
                assert(t[j as int].0 == key@);
                assert(has_key(t, key@));
                let i = choose|i: int| 0 <= i < t.len() && (#[trigger] t[i]).0 == key@;
                assert(i == j);
                lemma_group_le_sum(t, j as int);
            }
            let total = groups[j].1 + size;
            let count = groups[j].2 + 1;
            groups[j] = (key, total, count);
            proof {
                assert(text_groups(groups@) =~= bump(t, key@, size as nat));
            }
            return;
        }
        j = j + 1;
    }
    proof {
        assert(!has_key(t, key@));
    }
    groups.push((key, size, 1));
    proof {
        assert(text_groups(groups@) =~= bump(t, key@, size as nat));
    }
}

/// Counts one more file of `size` bytes under the category `key`.
pub fn add_category(groups: &mut Vec<(FileCategory, u64, u64)>, key: FileCategory, size: u64)
    requires
        distinct_keys(plain_groups(old(groups)@)),
        group_sum(plain_groups(old(groups)@)) + size <= u64::MAX,
        forall|j: int| 0 <= j < old(groups)@.len() ==> (#[trigger] old(groups)@[j]).2 < u64::MAX,
    ensures
        plain_groups(final(groups)@) == bump(plain_groups(old(groups)@), key, size as nat),
{
    let ghost t = plain_groups(groups@);
    let mut j: usize = 0;
    while j < groups.len()
        invariant
            j <= groups.len(),
            t == plain_groups(groups@),
            t == plain_groups(old(groups)@),
            distinct_keys(t),
            group_sum(t) + size <= u64::MAX,
            forall|i: int| 0 <= i < groups@.len() ==> (#[trigger] groups@[i]).2 < u64::MAX,
            forall|i: int| 0 <= i < j ==> (#[trigger] t[i]).0 != key,
        decreases groups.len() - j,
    {
        if groups[j].0 == key {
            proof {
                assert(t[j as int].0 == key);
                assert(has_key(t, key));
                let i = choose|i: int| 0 <= i < t.len() && (#[trigger] t[i]).0 == key;
                assert(i == j);
                lemma_group_le_sum(t, j as int);
            }
            let total = groups[j].1 + size;
            let count = groups[j].2 + 1;
            groups[j] = (key, total, count);
            proof {
                assert(plain_groups(groups@) =~= bump(t, key, size as nat));
            }
            return;
        }
        j = j + 1;
    }
    proof {
        assert(!has_key(t, key));
    }
    groups.push((key, size, 1));
    proof {
        assert(plain_groups(groups@) =~= bump(t, key, size as nat));
    }
}

/// The groups ordered from the largest byte total to the smallest; groups
/// with equal totals keep their order.
pub fn sort_by_total<K>(v: Vec<(K, u64, u64)>) -> (r: Vec<(K, u64, u64)>)
    ensures
        r@ == sort_desc(v@, exec_total_key::<K>()),
{
    let ghost key = exec_total_key::<K>();
    let mut r: Vec<(K, u64, u64)> = Vec::new();
    let mut rest = v;
    let ghost all = rest@;
    let n = rest.len();
    // take elements from the front by reversing once
    let mut stack: Vec<(K, u64, u64)> = Vec::new();
    while rest.len() > 0
        invariant
            stack@.len() + rest@.len() == all.len(),
            n == all.len(),
            forall|i: int| 0 <= i < rest@.len() ==> rest@[i] == all[i],
            forall|i: int| 0 <= i < stack@.len() ==> stack@[i] == all[all.len() - 1 - i],
        decreases rest.len(),
    {
        let x = rest.pop().unwrap();
        stack.push(x);
    }
    assert(all.take(0) == Seq::<(K, u64, u64)>::empty());
    let mut i: usize = 0;
    while stack.len() > 0
        invariant
            i + stack@.len() == all.len(),
            n == all.len(),
            forall|j: int| 0 <= j < stack@.len() ==> stack@[j] == all[all.len() - 1 - j],
            r@ == sort_desc(all.take(i as int), key),
            key == exec_total_key::<K>(),
        decreases stack.len(),
    {
        let x = stack.pop().unwrap();
        proof {
            assert(x == all[i as int]);
            assert(all.take(i + 1).drop_last() == all.take(i as int));
            lemma_sort_desc(all.take(i as int), key);
            lemma_slot(r@, x, key);
        }
        // find the slot: after the last element whose total is at least x's
        let mut p = r.len();
        proof {
            assert(r@.take(p as int) == r@);
        }
        while p > 0 && r[p - 1].1 < x.1
            invariant
                p <= r.len(),
                key == exec_total_key::<K>(),
                slot(r@, x, key) == slot(r@.take(p as int), x, key),
            decreases p,
        {
            proof {
                assert(r@.take(p as int).drop_last() == r@.take(p - 1));
            }
            p = p - 1;
        }
        proof {
            if p > 0 {
                assert(r@.take(p as int).last() == r@[p - 1]);
            }
            assert(slot(r@, x, key) == p);
        }
        r.insert(p, x);
        proof {
            assert(r@ =~= insert_desc(sort_desc(all.take(i as int), key), x, key));
        }
        i = i + 1;
    }
    proof {
        assert(all.take(all.len() as int) == all);
    }
    r
}


/// Inserting a group keeps the sums of totals and file counts.
proof fn lemma_insert_sums<K>(s: Seq<(K, nat, nat)>, x: (K, nat, nat))
    ensures
        group_sum(insert_desc(s, x, total_key::<K>())) == group_sum(s) + x.1,
        group_files(insert_desc(s, x, total_key::<K>())) == group_files(s) + x.2,
{
    let p = slot(s, x, total_key::<K>()) as int;
    lemma_slot(s, x, total_key::<K>());
    lemma_group_sums_concat(s.take(p), s.skip(p));
    lemma_group_sums_concat(s.take(p) + seq![x], s.skip(p));
    lemma_group_sums_concat(s.take(p), seq![x]);
    assert(s.take(p) + s.skip(p) == s);
    assert(seq![x].drop_last() == Seq::<(K, nat, nat)>::empty());
    assert(group_sum(Seq::<(K, nat, nat)>::empty()) == 0);
    assert(group_files(Seq::<(K, nat, nat)>::empty()) == 0);
    assert(seq![x].last() == x);
    assert(group_sum(seq![x]) == x.1);
    assert(group_files(seq![x]) == x.2);
    assert(insert_desc(s, x, total_key::<K>()) == (s.take(p) + seq![x]) + s.skip(p));
}

/// Sorting groups keeps the sums of totals and file counts.
pub proof fn lemma_sort_sums<K>(t: Seq<(K, nat, nat)>)
    ensures
        group_sum(sort_desc(t, total_key::<K>())) == group_sum(t),
        group_files(sort_desc(t, total_key::<K>())) == group_files(t),
    decreases t.len(),
{
    if t.len() > 0 {
        lemma_sort_sums(t.drop_last());
        lemma_insert_sums(sort_desc(t.drop_last(), total_key::<K>()), t.last());
    }
}

/// Sorting groups with distinct keys keeps the keys distinct.
pub proof fn lemma_sort_distinct<K>(t: Seq<(K, nat, nat)>)
    requires
        distinct_keys(t),
    ensures
        distinct_keys(sort_desc(t, total_key::<K>())),
    decreases t.len(),
{
    if t.len() > 0 {
        let key = total_key::<K>();
        let init = t.drop_last();
        let x = t.last();
        assert(distinct_keys(init)) by {
            assert forall|i: int, j: int| 0 <= i < j < init.len() implies (#[trigger] init[i]).0
                != (#[trigger] init[j]).0 by {
                assert(init[i] == t[i] && init[j] == t[j]);
            }
        }
        lemma_sort_distinct(init);
        lemma_sort_elements(init, key);
        let s = sort_desc(init, key);
        assert forall|i: int| 0 <= i < s.len() implies (#[trigger] s[i]).0 != x.0 by {
            assert(s.contains(s[i]));
            assert(init.contains(s[i]));
            let j = choose|j: int| 0 <= j < init.len() && init[j] == s[i];
            assert(t[j] == init[j]);
            assert(t[t.len() - 1] == x);
        }
        lemma_slot(s, x, key);
        let p = slot(s, x, key) as int;
        let r = insert_desc(s, x, key);
        assert forall|i: int| 0 <= i < r.len() implies #[trigger] r[i] == (if i < p {
            s[i]
        } else if i == p {
            x
        } else {
            s[i - 1]
        }) by {}
        assert forall|i: int, j: int| 0 <= i < j < r.len() implies (#[trigger] r[i]).0 != (
        #[trigger] r[j]).0 by {
            if i < p && j > p {
                assert(s[i].0 != s[j - 1].0);
            } else if i > p {
                assert(s[i - 1].0 != s[j - 1].0);
            } else if i < p && j < p {
                assert(s[i].0 != s[j].0);
            }
        }
    }
}

/// Sorting an exact summary gives an exact summary with the same sums.
pub proof fn lemma_sorted_tally<K>(t: Seq<(K, nat, nat)>, pairs: Seq<(K, nat)>)
    requires
        is_tally_of(t, pairs),
    ensures
        is_tally_of(sort_desc(t, total_key::<K>()), pairs),
        is_desc(sort_desc(t, total_key::<K>()), total_key::<K>()),
        group_sum(sort_desc(t, total_key::<K>())) == group_sum(t),
        group_files(sort_desc(t, total_key::<K>())) == group_files(t),
{
    let key = total_key::<K>();
    let s = sort_desc(t, key);
    lemma_sort_desc(t, key);
    lemma_sort_elements(t, key);
    lemma_sort_sums(t);
    lemma_sort_distinct(t);
    assert forall|i: int| 0 <= i < s.len() implies (#[trigger] s[i]).1 == crate::tally::key_total(
        pairs,
        s[i].0,
    ) && s[i].2 == crate::tally::key_count(pairs, s[i].0) && s[i].2 > 0 by {
        assert(s.contains(s[i]));
        let j = choose|j: int| 0 <= j < t.len() && t[j] == s[i];
    }
    assert forall|k: K| has_key(s, k) <==> has_key(t, k) by {
        if has_key(s, k) {
            let i = choose|i: int| 0 <= i < s.len() && (#[trigger] s[i]).0 == k;
            assert(s.contains(s[i]));
            let j = choose|j: int| 0 <= j < t.len() && t[j] == s[i];
            assert(t[j].0 == k);
        }
        if has_key(t, k) {
            let j = choose|j: int| 0 <= j < t.len() && (#[trigger] t[j]).0 == k;
            assert(t.contains(t[j]));
            assert(s.contains(t[j]));
            let i = choose|i: int| 0 <= i < s.len() && s[i] == t[j];
            assert(s[i].0 == k);
        }
    }
}

} // verus!
