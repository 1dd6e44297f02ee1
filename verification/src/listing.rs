//! The saved snapshots of a folder, newest first.
//!
//! Snapshot files are named after the time they were taken, so the order
//! of their names (character by character, as std orders paths) is the
//! order of their times.
use vstd::prelude::*;
use crate::text::chars_of;

verus! {

broadcast use vstd::seq_lib::group_to_multiset_ensures, vstd::seq_lib::to_multiset_insert,
    vstd::seq_lib::to_multiset_build;

/// `a` comes strictly before `b` in character order.
pub open spec fn text_lt(a: Seq<char>, b: Seq<char>) -> bool
    decreases a.len(),
{
    if a.len() == 0 {
        b.len() > 0
    } else if b.len() == 0 {
        false
    } else if a[0] != b[0] {
        a[0] < b[0]
    } else {
        text_lt(a.drop_first(), b.drop_first())
    }
}

proof fn lemma_text_lt_trans(a: Seq<char>, b: Seq<char>, c: Seq<char>)
    requires
        text_lt(a, b),
        text_lt(b, c),
    ensures
        text_lt(a, c),
    decreases a.len(),
{
    if a.len() > 0 && b.len() > 0 && c.len() > 0 && a[0] == b[0] && b[0] == c[0] {
        lemma_text_lt_trans(a.drop_first(), b.drop_first(), c.drop_first());
    }
}

proof fn lemma_text_lt_total(a: Seq<char>, b: Seq<char>)
    ensures
        text_lt(a, b) || a == b || text_lt(b, a),
    decreases a.len(),
{
    if a.len() > 0 && b.len() > 0 {
        if a[0] == b[0] {
            lemma_text_lt_total(a.drop_first(), b.drop_first());
            if a.drop_first() == b.drop_first() {
                assert(a =~= seq![a[0]] + a.drop_first());
                assert(b =~= seq![b[0]] + b.drop_first());
            }
        }
    } else if a.len() == 0 && b.len() == 0 {
        assert(a =~= b);
    }
}

proof fn lemma_text_lt_irreflexive(a: Seq<char>)
    ensures
        !text_lt(a, a),
    decreases a.len(),
{
    if a.len() > 0 {
        lemma_text_lt_irreflexive(a.drop_first());
    }
}

/// Whether `a` comes strictly before `b` in character order.
pub fn text_before(a: &Vec<char>, b: &Vec<char>) -> (r: bool)
    ensures
        r == text_lt(a@, b@),
{
    let mut i: usize = 0;
    proof {
        assert(a@.skip(0) == a@);
        assert(b@.skip(0) == b@);
    }
    while i < a.len() && i < b.len() && a[i] == b[i]
        invariant
            i <= a.len(),
            i <= b.len(),
            text_lt(a@, b@) == text_lt(a@.skip(i as int), b@.skip(i as int)),
        decreases a.len() - i,
    {
        proof {
            assert(a@.skip(i as int).drop_first() == a@.skip(i + 1));
            assert(b@.skip(i as int).drop_first() == b@.skip(i + 1));
        }
        i = i + 1;
    }
    if i == a.len() {
        i < b.len()
    } else if i == b.len() {
        false
    } else {
        proof {
            assert(a@.skip(i as int)[0] == a@[i as int]);
            assert(b@.skip(i as int)[0] == b@[i as int]);
        }
        a[i] < b[i]
    }
}

/// `name` has extension `ext` (a dotless word), as std's `Path::extension`
/// reads a file name: what follows the last dot, when that dot is not the
/// first character.
pub open spec fn has_extension(name: Seq<char>, ext: Seq<char>) -> bool {
    name.len() > ext.len() + 1 && name.subrange(name.len() - ext.len() - 1, name.len() as int) == seq!['.']
        + ext
}

/// The name of a saved snapshot: its extension is `json`.
pub open spec fn is_json_name(name: Seq<char>) -> bool {
    has_extension(name, "json"@)
}

/// Whether the file name `name` has the dotless extension `ext`.
pub fn extension_is(name: &Vec<char>, ext: &str) -> (b: bool)
    ensures
        b == has_extension(name@, ext@),
{
    let e = chars_of(ext);
    let n = name.len();
    let k = e.len();
    if n <= k || n - k <= 1 {
        return false;
    }
    let start = n - k - 1;
    if name[start] != '.' {
        proof {
            let tail = name@.subrange(start as int, n as int);
            assert(tail[0] == name@[start as int]);
            assert((seq!['.'] + ext@)[0] == '.');
        }
        return false;
    }
    let mut i: usize = 0;
    while i < k
        invariant
            i <= k,
            k == e@.len(),
            e@ == ext@,
            n == name@.len(),
            start == n - k - 1,
            name@[start as int] == '.',
            forall|j: int| 0 <= j < i ==> name@[start + 1 + j] == e@[j],
        decreases k - i,
    {
        if name[start + 1 + i] != e[i] {
            proof {
                let tail = name@.subrange(start as int, n as int);
                assert(tail[1 + i] == name@[start + 1 + i]);
                assert((seq!['.'] + ext@)[1 + i] == e@[i as int]);
            }
            return false;
        }
        i = i + 1;
    }
    proof {
        assert(name@.subrange(start as int, n as int) =~= seq!['.'] + ext@);
    }
    true
}

/// The characters of each name.
pub open spec fn name_views(v: Seq<String>) -> Seq<Seq<char>> {
    v.map_values(|s: String| s@)
}

/// No name comes before a later one.
pub open spec fn newest_first_order(v: Seq<Seq<char>>) -> bool {
    forall|i: int, j: int| 0 <= i < j < v.len() ==> !text_lt(#[trigger] v[i], #[trigger] v[j])
}

/// Whether `name` is the name of a saved snapshot.
pub fn is_snapshot_name(name: &Vec<char>) -> (b: bool)
    ensures
        b == is_json_name(name@),
{
    extension_is(name, "json")
}

/// The snapshot files among the names of a folder's entries, newest first.
pub fn newest_first(names: Vec<String>) -> (r: Vec<String>)
    ensures
        newest_first_order(name_views(r@)),
        name_views(r@).to_multiset() == name_views(names@).filter(|s: Seq<char>| is_json_name(s)).to_multiset(),
{
    let ghost keep = |s: Seq<char>| is_json_name(s);
    let ghost all = name_views(names@);
    let mut r: Vec<String> = Vec::new();
    let mut keys: Vec<Vec<char>> = Vec::new();
    let n = names.len();
    let mut rest = names;
    let mut stack: Vec<String> = Vec::new();
    let ghost orig = rest@;
    while rest.len() > 0
        invariant
            stack@.len() + rest@.len() == orig.len(),
            forall|i: int| 0 <= i < rest@.len() ==> rest@[i] == orig[i],
            forall|i: int| 0 <= i < stack@.len() ==> stack@[i] == orig[orig.len() - 1 - i],
        decreases rest.len(),
    {
        let x = rest.pop().unwrap();
        stack.push(x);
    }
    let ghost mut i: int = 0;
    proof {
        assert(all.take(0) == Seq::<Seq<char>>::empty());
        assert(all.take(0).filter(keep) =~= Seq::<Seq<char>>::empty());
    }
    while stack.len() > 0
        invariant
            i + stack@.len() == orig.len(),
            0 <= i,
            all == name_views(orig),
            keep == (|s: Seq<char>| is_json_name(s)),
            forall|j: int| 0 <= j < stack@.len() ==> stack@[j] == orig[orig.len() - 1 - j],
            keys@.len() == r@.len(),
            forall|j: int| 0 <= j < r@.len() ==> (#[trigger] keys@[j])@ == r@[j]@,
            newest_first_order(name_views(r@)),
            name_views(r@).to_multiset() == all.take(i).filter(keep).to_multiset(),
        decreases stack.len(),
    {
        let x = stack.pop().unwrap();
        let xv = chars_of(x.as_str());
        proof {
            assert(x == orig[i]);
            assert(all.take(i + 1).drop_last() == all.take(i));
            assert(all.take(i + 1).last() == x@);
            reveal(Seq::filter);
            assert(all.take(i + 1).filter(keep) == if is_json_name(x@) {
                all.take(i).filter(keep).push(x@)
            } else {
                all.take(i).filter(keep)
            });
        }
        if is_snapshot_name(&xv) {
            let mut p = r.len();
            while p > 0 && text_before(&keys[p - 1], &xv)
                invariant
                    p <= r@.len(),
                    keys@.len() == r@.len(),
                    forall|j: int| 0 <= j < r@.len() ==> (#[trigger] keys@[j])@ == r@[j]@,
                    forall|j: int| p <= j < r@.len() ==> text_lt(#[trigger] r@[j]@, x@),
                    xv@ == x@,
                decreases p,
            {
                p = p - 1;
            }
            let ghost before = name_views(r@);
            let ghost kb = keys@;
            proof {
                assert forall|k: int| 0 <= k < p implies !text_lt(#[trigger] before[k], x@) by {
                    assert(!text_lt(before[p - 1], x@));
                    if k < p - 1 && text_lt(before[k], x@) {
                        assert(!text_lt(before[k], before[p - 1]));
                        lemma_text_lt_total(before[k], before[p - 1]);
                        if text_lt(before[p - 1], before[k]) {
                            lemma_text_lt_trans(before[p - 1], before[k], x@);
                        }
                    }
                }
            }
            r.insert(p, x);
            keys.insert(p, xv);
            proof {
                let after = name_views(r@);
                assert(after =~= before.insert(p as int, x@));
                assert(newest_first_order(after)) by {
                    assert forall|a: int, b: int| 0 <= a < b < after.len() implies !text_lt(
                        #[trigger] after[a],
                        #[trigger] after[b],
                    ) by {
                        if a == p {
                            assert(text_lt(r@[b]@, x@));
                            if text_lt(x@, after[b]) {
                                lemma_text_lt_trans(x@, after[b], x@);
                                lemma_text_lt_irreflexive(x@);
                            }
                        } else if a < p && b > p {
                            assert(!text_lt(before[a], before[b - 1]));
                        } else if a > p {
                            assert(!text_lt(before[a - 1], before[b - 1]));
                        }
                    }
                }
                assert forall|j: int| 0 <= j < r@.len() implies (#[trigger] keys@[j])@ == r@[j]@ by {
                    if j > p {
                        assert(keys@[j] == kb[j - 1]);
                    }
                }
            }
        }
        proof {
            i = i + 1;
        }
    }
    proof {
        assert(all.take(orig.len() as int) == all);
    }
    r
}

/// A filter holds each kept item as often as the sequence does, and no
/// other item.
proof fn lemma_filter_count(s: Seq<Seq<char>>, p: spec_fn(Seq<char>) -> bool, x: Seq<char>)
    ensures
        s.filter(p).to_multiset().count(x) == if p(x) {
            s.to_multiset().count(x)
        } else {
            0
        },
    decreases s.len(),
{
    reveal(Seq::filter);
    if s.len() > 0 {
        lemma_filter_count(s.drop_last(), p, x);
        assert(s == s.drop_last().push(s.last()));
    } else {
        assert(s.filter(p).len() == 0);
    }
}

/// Law: the snapshot listing depends only on which names the folder holds,
/// not on the order in which it lists them: two listings of the same names
/// are equal.
pub proof fn law_listing_order_independent(
    names1: Seq<String>,
    names2: Seq<String>,
    r1: Seq<String>,
    r2: Seq<String>,
)
    requires
        name_views(names1).to_multiset() == name_views(names2).to_multiset(),
        newest_first_order(name_views(r1)),
        name_views(r1).to_multiset() == name_views(names1).filter(|s: Seq<char>| is_json_name(s)).to_multiset(),
        newest_first_order(name_views(r2)),
        name_views(r2).to_multiset() == name_views(names2).filter(|s: Seq<char>| is_json_name(s)).to_multiset(),
    ensures
        name_views(r1) == name_views(r2),
{
    let p = |s: Seq<char>| is_json_name(s);
    let f1 = name_views(names1).filter(p);
    let f2 = name_views(names2).filter(p);
    assert(f1.to_multiset() =~= f2.to_multiset()) by {
        assert forall|x: Seq<char>| f1.to_multiset().count(x) == f2.to_multiset().count(x) by {
            lemma_filter_count(name_views(names1), p, x);
            lemma_filter_count(name_views(names2), p, x);
        }
    }
    let leq = |a: Seq<char>, b: Seq<char>| !text_lt(a, b);
    assert(vstd::relations::total_ordering(leq)) by {
        assert forall|a: Seq<char>| #[trigger] leq(a, a) by {
            lemma_text_lt_irreflexive(a);
        }
        assert forall|a: Seq<char>, b: Seq<char>| #[trigger] leq(a, b) && #[trigger] leq(b, a) implies a == b by {
            lemma_text_lt_total(a, b);
        }
        assert forall|a: Seq<char>, b: Seq<char>, c: Seq<char>| #[trigger] leq(a, b) && #[trigger] leq(
            b,
            c,
        ) implies leq(a, c) by {
            if text_lt(a, c) {
                lemma_text_lt_total(a, b);
                if text_lt(b, a) {
                    lemma_text_lt_trans(b, a, c);
                }
            }
        }
        assert forall|a: Seq<char>, b: Seq<char>| #[trigger] leq(a, b) || #[trigger] leq(b, a) by {
            if text_lt(a, b) && text_lt(b, a) {
                lemma_text_lt_trans(a, b, a);
                lemma_text_lt_irreflexive(a);
            }
        }
    }
    assert(vstd::relations::sorted_by(name_views(r1), leq));
    assert(vstd::relations::sorted_by(name_views(r2), leq));
    vstd::seq_lib::lemma_sorted_unique(name_views(r1), name_views(r2), leq);
}

} // verus!
