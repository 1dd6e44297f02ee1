//! Acting on the rows a user selected in a result list.
use vstd::prelude::*;
use crate::ranking::{insert_desc, lemma_slot, slot, sort_desc};

verus! {

/// Indices are ordered by value.
pub open spec fn index_key() -> spec_fn(usize) -> int {
    |i: usize| i as int
}

/// The selected indices from the highest to the lowest.
pub fn highest_first(selected: &Vec<usize>) -> (r: Vec<usize>)
    ensures
        r@ == sort_desc(selected@, index_key()),
{
    let ghost key = index_key();
    let mut r: Vec<usize> = Vec::new();
    let n = selected.len();
    proof {
        assert(selected@.take(0) == Seq::<usize>::empty());
    }
    for i in 0..n
        invariant
            n == selected.len(),
            key == index_key(),
            r@ == sort_desc(selected@.take(i as int), key),
    {
        let x = selected[i];
        proof {
            assert(selected@.take(i + 1).drop_last() == selected@.take(i as int));
            assert(selected@.take(i + 1).last() == x);
            lemma_slot(r@, x, key);
        }
        let mut p = r.len();
        proof {
            assert(r@.take(p as int) == r@);
        }
        while p > 0 && r[p - 1] < x
            invariant
                p <= r.len(),
                key == index_key(),
                slot(r@, x, key) == slot(r@.take(p as int), x, key),
            decreases p,
        {
            proof {
                assert(r@.take(p as int).drop_last() == r@.take(p - 1));
            }
            p = p - 1;
        }
        proof {
            if p > 0 {
                assert(r@.take(p as int).last() == r@[p - 1]);
            }
            assert(slot(r@, x, key) == p);
        }
        r.insert(p, x);
        proof {
            assert(r@ =~= insert_desc(sort_desc(selected@.take(i as int), key), x, key));
        }
    }
    proof {
        assert(selected@.take(n as int) == selected@);
    }
    r
}

/// The items at the given indices, in the given order; indices past the
/// end are skipped.
pub open spec fn picked<T>(items: Seq<T>, indices: Seq<usize>) -> Seq<T>
    decreases indices.len(),
{
    if indices.len() == 0 {
        Seq::empty()
    } else if indices.last() < items.len() {
        picked(items, indices.drop_last()).push(items[indices.last() as int])
    } else {
        picked(items, indices.drop_last())
    }
}

/// The paths to delete for a selection: those of the selected rows, from
/// the highest row to the lowest.
pub fn selected_paths(paths: &Vec<String>, selected: &Vec<usize>) -> (r: Vec<String>)
    ensures
        r@ == picked(paths@, sort_desc(selected@, index_key())),
{
    let order = highest_first(selected);
    let mut r: Vec<String> = Vec::new();
    let n = order.len();
    proof {
        assert(order@.take(0) == Seq::<usize>::empty());
    }
    for k in 0..n
        invariant
            n == order.len(),
            r@ == picked(paths@, order@.take(k as int)),
    {
        proof {
            assert(order@.take(k + 1).drop_last() == order@.take(k as int));
            assert(order@.take(k + 1).last() == order@[k as int]);
        }
        let i = order[k];
        if i < paths.len() {
            r.push(paths[i].clone());
        }
    }
    proof {
        assert(order@.take(n as int) == order@);
    }
    r
}

/// The items whose index is not selected, in order.
pub open spec fn unselected<T>(items: Seq<T>, selected: Seq<usize>) -> Seq<T>
    decreases items.len(),
{
    if items.len() == 0 {
        Seq::empty()
    } else if selected.contains((items.len() - 1) as usize) {
        unselected(items.drop_last(), selected)
    } else {
        unselected(items.drop_last(), selected).push(items.last())
    }
}

/// The result list after the selected rows were deleted.
pub fn without_selected<T>(items: Vec<T>, selected: &Vec<usize>) -> (r: Vec<T>)
    ensures
        r@ == unselected(items@, selected@),
{
    let mut rest = items;
    let ghost all = rest@;
    let mut stack: Vec<T> = Vec::new();
    while rest.len() > 0
        invariant
            stack@.len() + rest@.len() == all.len(),
            forall|i: int| 0 <= i < rest@.len() ==> rest@[i] == all[i],
            forall|i: int| 0 <= i < stack@.len() ==> stack@[i] == all[all.len() - 1 - i],
        decreases rest.len(),
    {
        let x = rest.pop().unwrap();
        stack.push(x);
    }
    let mut r: Vec<T> = Vec::new();
    let mut i: usize = 0;
    let n = stack.len();
    proof {
        assert(all.take(0) == Seq::<T>::empty());
    }
    while stack.len() > 0
        invariant
            i + stack@.len() == all.len(),
            n == all.len(),
            forall|j: int| 0 <= j < stack@.len() ==> stack@[j] == all[all.len() - 1 - j],
            r@ == unselected(all.take(i as int), selected@),
        decreases stack.len(),
    {
        let x = stack.pop().unwrap();
        proof {
            assert(x == all[i as int]);
            assert(all.take(i + 1).drop_last() == all.take(i as int));
            assert(all.take(i + 1).last() == x);
        }
        let mut chosen = false;
        let mut k: usize = 0;
        while k < selected.len()
            invariant
                k <= selected.len(),
                chosen == exists|j: int| 0 <= j < k && selected@[j] == i,
            decreases selected.len() - k,
        {
            if selected[k] == i {
                chosen = true;
            }
            k = k + 1;
        }
        proof {
            assert(chosen == selected@.contains(i));
        }
        if !chosen {
            r.push(x);
        }
        i = i + 1;
    }
    proof {
        assert(all.take(all.len() as int) == all);
    }
    r
}

/// Picking at indices that are all in range picks one item per index.
proof fn lemma_picked_len<T>(items: Seq<T>, indices: Seq<usize>)
    requires
        forall|i: int| 0 <= i < indices.len() ==> indices[i] < items.len(),
    ensures
        picked(items, indices).len() == indices.len(),
    decreases indices.len(),
{
    if indices.len() > 0 {
        lemma_picked_len(items, indices.drop_last());
    }
}

/// The selected indices below `n`.
pub open spec fn selected_below(selected: Seq<usize>, n: int) -> Set<usize> {
    selected.to_set().filter(|x: usize| (x as int) < n)
}

/// The rows kept and the selected rows among them add up to the list.
proof fn lemma_unselected_len<T>(items: Seq<T>, selected: Seq<usize>)
    requires
        items.len() <= usize::MAX,
    ensures
        selected_below(selected, items.len() as int).finite(),
        unselected(items, selected).len() + selected_below(selected, items.len() as int).len() == items.len(),
    decreases items.len(),
{
    broadcast use vstd::seq_lib::seq_to_set_is_finite;

    let n = items.len() as int;
    let below = selected_below(selected, n);
    assert(below.subset_of(selected.to_set()));
    vstd::set_lib::lemma_len_subset(below, selected.to_set());
    if n == 0 {
        assert(below =~= Set::<usize>::empty());
    } else {
        lemma_unselected_len(items.drop_last(), selected);
        let prev = selected_below(selected, n - 1);
        let last = (n - 1) as usize;
        assert(last as int == n - 1);
        assert(!prev.contains(last));
        if selected.contains(last) {
            assert(selected.to_set().contains(last));
            assert(below =~= prev.insert(last));
            assert(below.len() == prev.len() + 1);
        } else {
            assert(below =~= prev);
        }
    }
}

/// Law: deleting a selection of distinct rows sends one path per selected
/// row and keeps every other row, so the rows sent and the rows kept add
/// up to the whole list.
pub proof fn law_delete_partition<T>(items: Seq<T>, selected: Seq<usize>)
    requires
        items.len() <= usize::MAX,
        selected.no_duplicates(),
        forall|i: int| 0 <= i < selected.len() ==> selected[i] < items.len(),
    ensures
        picked(items, sort_desc(selected, index_key())).len() == selected.len(),
        unselected(items, selected).len() + selected.len() == items.len(),
{
    broadcast use vstd::seq_lib::group_to_multiset_ensures;

    crate::ranking::lemma_sort_elements(selected, index_key());
    let order = sort_desc(selected, index_key());
    assert forall|i: int| 0 <= i < order.len() implies order[i] < items.len() by {
        assert(order.contains(order[i]));
        assert(selected.contains(order[i]));
    }
    lemma_picked_len(items, order);
    lemma_unselected_len(items, selected);
    selected.unique_seq_to_set();
    assert(selected_below(selected, items.len() as int) =~= selected.to_set());
}

} // verus!
