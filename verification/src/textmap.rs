//! Maps keyed by text, kept as lists of records with distinct keys.
use vstd::prelude::*;
use crate::text::same_text;

verus! {

/// A map from text keys to values, kept as a list of distinct keys.
pub struct TextMap<V> {
    entries: Vec<(String, V)>,
}

/// The map that a list of (name, time) records describes; later records
/// win.
pub open spec fn records_map<V>(s: Seq<(String, V)>) -> Map<Seq<char>, V>
    decreases s.len(),
{
    if s.len() == 0 {
        Map::empty()
    } else {
        records_map(s.drop_last()).insert(s.last().0@, s.last().1)
    }
}

/// No two records share a name.
pub open spec fn distinct_names<V>(s: Seq<(String, V)>) -> bool {
    forall|i: int, j: int| 0 <= i < j < s.len() ==> (#[trigger] s[i]).0@ != (#[trigger] s[j]).0@
}

pub proof fn lemma_records_map<V>(s: Seq<(String, V)>)
    requires
        distinct_names(s),
    ensures
        forall|k: Seq<char>|
            #[trigger] records_map(s).contains_key(k) <==> exists|i: int|
                0 <= i < s.len() && s[i].0@ == k,
        forall|i: int| 0 <= i < s.len() ==> records_map(s)[#[trigger] s[i].0@] == s[i].1,
    decreases s.len(),
{
    if s.len() > 0 {
        let init = s.drop_last();
        assert(distinct_names(init)) by {
            assert forall|i: int, j: int| 0 <= i < j < init.len() implies (
            #[trigger] init[i]).0@ != (#[trigger] init[j]).0@ by {
                assert(init[i] == s[i] && init[j] == s[j]);
            }
        }
        lemma_records_map(init);
        assert forall|k: Seq<char>| #[trigger] records_map(s).contains_key(k) <==> exists|i: int|
            0 <= i < s.len() && s[i].0@ == k by {
            if records_map(s).contains_key(k) && k != s.last().0@ {
                assert(records_map(init).contains_key(k));
                let i = choose|i: int| 0 <= i < init.len() && init[i].0@ == k;
                assert(s[i] == init[i]);
                assert(s[i].0@ == k);
            }
            if k == s.last().0@ {
                assert(s[s.len() - 1].0@ == k);
            }
            if exists|i: int| 0 <= i < s.len() && s[i].0@ == k {
                let i = choose|i: int| 0 <= i < s.len() && s[i].0@ == k;
                if i < init.len() {
                    assert(init[i] == s[i]);
                }
            }
        }
        assert forall|i: int| 0 <= i < s.len() implies records_map(s)[#[trigger] s[i].0@]
            == s[i].1 by {
            if i < init.len() {
                assert(init[i] == s[i]);
                assert(s[i].0@ != s[s.len() - 1].0@);
            }
        }
    }
}

impl<V> TextMap<V> {
    /// The map.
    pub closed spec fn view(&self) -> Map<Seq<char>, V> {
        records_map(self.entries@)
    }

    /// The (key, value) records, keys distinct.
    pub closed spec fn pairs(&self) -> Seq<(String, V)> {
        self.entries@
    }

    /// States that the map is the map of its records, whose keys are
    /// distinct (no effect at run time).
    pub fn records_agree(&self)
        ensures
            self.view() == records_map(self.pairs()),
            distinct_names(self.pairs()),
    {
        proof {
            use_type_invariant(self);
        }
    }

    /// Number of records.
    pub fn len(&self) -> (n: usize)
        ensures
            n == self.pairs().len(),
    {
        self.entries.len()
    }

    /// The `i`-th record.
    pub fn entry(&self, i: usize) -> (r: (&String, &V))
        requires
            i < self.pairs().len(),
        ensures
            *r.0 == self.pairs()[i as int].0,
            *r.1 == self.pairs()[i as int].1,
    {
        (&self.entries[i].0, &self.entries[i].1)
    }

    #[verifier::type_invariant]
    closed spec fn inv(&self) -> bool {
        distinct_names(self.entries@)
    }

    /// An empty map.
    pub fn new() -> (r: TextMap<V>)
        ensures
            r.view() == Map::<Seq<char>, V>::empty(),
    {
        TextMap { entries: Vec::new() }
    }

    /// The value recorded under `name`.
    pub fn get(&self, name: &str) -> (r: Option<&V>)
        ensures
            r == if self.view().contains_key(name@) {
                Some(&self.view()[name@])
            } else {
                None
            },
    {
        proof {
            use_type_invariant(self);
            lemma_records_map(self.entries@);
        }
        let mut i: usize = 0;
        while i < self.entries.len()
            invariant
                i <= self.entries.len(),
                forall|j: int| 0 <= j < i ==> (#[trigger] self.entries@[j]).0@ != name@,
            decreases self.entries.len() - i,
        {
            if same_text(self.entries[i].0.as_str(), name) {
                proof {
                    assert(self.entries@[i as int].0@ == name@);
                    use_type_invariant(self);
                    lemma_records_map(self.entries@);
                    assert(self.view().contains_key(name@));
                    assert(self.view()[self.entries@[i as int].0@] == self.entries@[i as int].1);
                }
                return Some(&self.entries[i].1);
            }
            i = i + 1;
        }
        None
    }

    /// Records `t` under `name`, replacing an earlier value.
    pub fn insert(&mut self, name: String, t: V)
        ensures
            final(self).view() == old(self).view().insert(name@, t),
    {
        proof {
            use_type_invariant(&*self);
            lemma_records_map(self.entries@);
        }
        let ghost old_map = self.view();
        let mut found: Option<usize> = None;
        let mut i: usize = 0;
        while i < self.entries.len()
            invariant
                i <= self.entries.len(),
                found is None ==> forall|j: int| 0 <= j < i ==> (#[trigger] self.entries@[j]).0@ != name@,
                found matches Some(j) ==> j < self.entries.len() && self.entries@[j as int].0@ == name@,
            decreases self.entries.len() - i,
        {
            if found.is_none() && same_text(self.entries[i].0.as_str(), name.as_str()) {
                found = Some(i);
            }
            i = i + 1;
        }
        let mut entries: Vec<(String, V)> = Vec::new();
        std::mem::swap(&mut entries, &mut self.entries);
        let ghost before = entries@;
        match found {
            Some(j) => {
                entries.set(j, (name, t));
                proof {
                    lemma_records_update(before, j as int, entries@[j as int]);
                }
            },
            None => {
                entries.push((name, t));
                proof {
                    assert(entries@.drop_last() == before);
                    assert forall|a: int, b: int| 0 <= a < b < entries@.len() implies (
                    #[trigger] entries@[a]).0@ != (#[trigger] entries@[b]).0@ by {
                        if b < before.len() {
                            assert(entries@[a] == before[a] && entries@[b] == before[b]);
                        } else {
                            assert(entries@[a] == before[a]);
                        }
                    }
                }
            },
        }
        self.entries = entries;
    }
}

/// Replacing the record of an existing name replaces its time in the map.
proof fn lemma_records_update<V>(s: Seq<(String, V)>, j: int, x: (String, V))
    requires
        distinct_names(s),
        0 <= j < s.len(),
        s[j].0@ == x.0@,
    ensures
        distinct_names(s.update(j, x)),
        records_map(s.update(j, x)) == records_map(s).insert(x.0@, x.1),
    decreases s.len(),
{
    let u = s.update(j, x);
    assert forall|a: int, b: int| 0 <= a < b < u.len() implies (#[trigger] u[a]).0@ != (
    #[trigger] u[b]).0@ by {
        assert(s[a].0@ != s[b].0@);
    }
    let init = s.drop_last();
    assert(distinct_names(init)) by {
        assert forall|a: int, b: int| 0 <= a < b < init.len() implies (#[trigger] init[a]).0@ != (
        #[trigger] init[b]).0@ by {
            assert(init[a] == s[a] && init[b] == s[b]);
        }
    }
    if j < s.len() - 1 {
        lemma_records_update(init, j, x);
        assert(u.drop_last() == init.update(j, x));
        assert(s.last().0@ != x.0@) by {
            assert(s[j].0@ != s[s.len() - 1].0@);
        }
        assert(records_map(u) =~= records_map(s).insert(x.0@, x.1));
    } else {
        assert(u.drop_last() == init);
        lemma_records_map(init);
        assert(records_map(u) =~= records_map(s).insert(x.0@, x.1));
    }
}

} // verus!
