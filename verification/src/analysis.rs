//! Decisions of the disk-analysis view: what to send to the chat model after
//! a scan, how its advice is merged and counted, and which listed file a
//! piece of advice is about.
use vstd::prelude::*;
use crate::ai::SUGGESTION_LIMIT;
use crate::scanner::FileEntry;
use crate::snapshot::{AiSuggestion, AiVerdict};
use crate::textmap::TextMap;

verus! {

/// (path, size) of the first `SUGGESTION_LIMIT` of the largest files.
pub open spec fn candidates_of(files: Seq<FileEntry>) -> Seq<(Seq<char>, u64)> {
    let n = if files.len() <= SUGGESTION_LIMIT { files.len() as int } else { SUGGESTION_LIMIT as int };
    Seq::new(n as nat, |i: int| (files[i].path@, files[i].size_bytes))
}

/// Pairs of (path, size) as values.
pub open spec fn listed(v: Seq<(String, u64)>) -> Seq<(Seq<char>, u64)> {
    v.map_values(|x: (String, u64)| (x.0@, x.1))
}

/// The files to ask the model about once a scan is done: none while no key
/// is set, while a request is running, or when the scan listed no file;
/// otherwise the first `SUGGESTION_LIMIT` of the largest files.
pub fn analysis_request(api_key: &str, loading: bool, largest: &Vec<FileEntry>) -> (r: Option<
    Vec<(String, u64)>,
>)
    ensures
        match r {
            None => api_key@.len() == 0 || loading || largest@.len() == 0,
            Some(v) => api_key@.len() > 0 && !loading && largest@.len() > 0 && listed(v@)
                == candidates_of(largest@),
        },
{
    if api_key.is_empty() || loading || largest.len() == 0 {
        return None;
    }
    let n = if largest.len() <= SUGGESTION_LIMIT { largest.len() } else { SUGGESTION_LIMIT };
    let mut v: Vec<(String, u64)> = Vec::new();
    for i in 0..n
        invariant
            n <= largest.len(),
            n == candidates_of(largest@).len(),
            listed(v@) == candidates_of(largest@).take(i as int),
    {
        let e = &largest[i];
        let ghost before = v@;
        v.push((e.path.clone(), e.size_bytes));
        proof {
            assert(listed(v@) == listed(before).push((e.path@, e.size_bytes)));
            assert(candidates_of(largest@).take(i + 1) == candidates_of(largest@).take(i as int).push(
                candidates_of(largest@)[i as int],
            ));
        }
    }
    proof {
        assert(candidates_of(largest@).take(n as int) == candidates_of(largest@));
    }
    Some(v)
}

/// The advice map after taking in `list` in order: each piece of advice
/// replaces an earlier one about the same path.
pub open spec fn merged(m: Map<Seq<char>, AiSuggestion>, list: Seq<AiSuggestion>) -> Map<
    Seq<char>,
    AiSuggestion,
>
    decreases list.len(),
{
    if list.len() == 0 {
        m
    } else {
        merged(m, list.drop_last()).insert(list.last().path@, list.last())
    }
}

/// Takes in the advice of one reply, keyed by path.
pub fn merge_suggestions(advice: &mut TextMap<AiSuggestion>, list: Vec<AiSuggestion>)
    ensures
        final(advice).view() == merged(old(advice).view(), list@),
{
    let ghost start = advice.view();
    let ghost all = list@;
    let mut rest = list;
    let mut stack: Vec<AiSuggestion> = Vec::new();
    while rest.len() > 0
        invariant
            stack@.len() + rest@.len() == all.len(),
            forall|i: int| 0 <= i < rest@.len() ==> rest@[i] == all[i],
            forall|i: int| 0 <= i < stack@.len() ==> stack@[i] == all[all.len() - 1 - i],
        decreases rest.len(),
    {
        let x = rest.pop().unwrap();
        stack.push(x);
    }
    let ghost mut i: int = 0;
    proof {
        assert(all.take(0) == Seq::<AiSuggestion>::empty());
    }
    while stack.len() > 0
        invariant
            i + stack@.len() == all.len(),
            0 <= i,
            forall|j: int| 0 <= j < stack@.len() ==> stack@[j] == all[all.len() - 1 - j],
            advice.view() == merged(start, all.take(i)),
        decreases stack.len(),
    {
        let s = stack.pop().unwrap();
        proof {
            assert(s == all[i]);
            assert(all.take(i + 1).drop_last() == all.take(i));
            assert(all.take(i + 1).last() == s);
        }
        advice.insert(s.path.clone(), s);
        proof {
            i = i + 1;
        }
    }
    proof {
        assert(all.take(all.len() as int) == all);
    }
}

/// The paths of the map whose advice is `v`.
pub open spec fn paths_with(m: Map<Seq<char>, AiSuggestion>, v: AiVerdict) -> Set<Seq<char>> {
    m.dom().filter(|k: Seq<char>| m[k].verdict == v)
}

/// How many records of `s` carry verdict `v`.
pub open spec fn verdict_records<K>(s: Seq<(K, AiSuggestion)>, v: AiVerdict) -> nat
    decreases s.len(),
{
    if s.len() == 0 {
        0
    } else {
        verdict_records(s.drop_last(), v) + if s.last().1.verdict == v {
            1nat
        } else {
            0nat
        }
    }
}

proof fn lemma_verdict_records(s: Seq<(String, AiSuggestion)>, v: AiVerdict)
    requires
        crate::textmap::distinct_names(s),
    ensures
        paths_with(crate::textmap::records_map(s), v).finite(),
        paths_with(crate::textmap::records_map(s), v).len() == verdict_records(s, v),
    decreases s.len(),
{
    let m = crate::textmap::records_map(s);
    if s.len() == 0 {
        assert(paths_with(m, v) =~= Set::empty());
    } else {
        let init = s.drop_last();
        let x = s.last();
        assert(crate::textmap::distinct_names(init)) by {
            assert forall|i: int, j: int| 0 <= i < j < init.len() implies (#[trigger] init[i]).0@ != (
            #[trigger] init[j]).0@ by {
                assert(init[i] == s[i] && init[j] == s[j]);
            }
        }
        lemma_verdict_records(init, v);
        crate::textmap::lemma_records_map(init);
        let mi = crate::textmap::records_map(init);
        assert(!mi.contains_key(x.0@)) by {
            if mi.contains_key(x.0@) {
                let i = choose|i: int| 0 <= i < init.len() && init[i].0@ == x.0@;
                assert(s[i] == init[i]);
                assert(s[s.len() - 1] == x);
            }
        }
        assert(m == mi.insert(x.0@, x.1));
        if x.1.verdict == v {
            assert(paths_with(m, v) =~= paths_with(mi, v).insert(x.0@));
        } else {
            assert(paths_with(m, v) =~= paths_with(mi, v));
        }
    }
}

/// How many files the advice gives verdict `v`.
pub fn verdict_count(advice: &TextMap<AiSuggestion>, v: AiVerdict) -> (n: usize)
    ensures
        n == paths_with(advice.view(), v).len(),
{
    advice.records_agree();
    let ghost s = advice.pairs();
    proof {
        lemma_verdict_records(s, v);
        assert(s.take(0) == Seq::<(String, AiSuggestion)>::empty());
    }
    let len = advice.len();
    let mut n: usize = 0;
    for i in 0..len
        invariant
            len == s.len(),
            s == advice.pairs(),
            n == verdict_records(s.take(i as int), v),
            n <= i,
    {
        let (_, a) = advice.entry(i);
        proof {
            assert(s.take(i + 1).drop_last() == s.take(i as int));
            assert(s.take(i + 1).last() == s[i as int]);
        }
        if a.verdict == v {
            n = n + 1;
        }
    }
    proof {
        assert(s.take(len as int) == s);
    }
    n
}

/// The row of the listed files whose path is `path`: the first one.
pub fn position_of_path(files: &Vec<FileEntry>, path: &str) -> (r: Option<usize>)
    ensures
        match r {
            Some(i) => i < files@.len() && files@[i as int].path@ == path@ && forall|j: int|
                0 <= j < i ==> (#[trigger] files@[j]).path@ != path@,
            None => forall|j: int| 0 <= j < files@.len() ==> (#[trigger] files@[j]).path@ != path@,
        },
{
    let mut i: usize = 0;
    while i < files.len()
        invariant
            i <= files.len(),
            forall|j: int| 0 <= j < i ==> (#[trigger] files@[j]).path@ != path@,
        decreases files.len() - i,
    {
        if crate::text::same_text(files[i].path.as_str(), path) {
            return Some(i);
        }
        i = i + 1;
    }
    None
}

} // verus!
