//! Full paths of the files listed in an NTFS master file table.
//!
//! The table gives each record its parent record and its name; a file's
//! path is the drive root joined with the names along its parent chain.
//! Record 5 is the root directory; a parent of 0 also stands for the root.
use std::collections::HashMap;
use vstd::prelude::*;
use crate::paths::{join, join_chars};
use crate::ranking::{insert_desc, lemma_slot, slot, sort_desc};
use crate::scanner::{
    category_for, classify_file, has_component_in, should_skip, skip_names, FileEntry, Timestamp,
};
use crate::text::lowercase;
use crate::text::{chars_are, chars_of, string_of};
use crate::time::{checked_instant, instant, WINDOWS_EPOCH_OFFSET};

verus! {

broadcast use vstd::std_specs::hash::group_hash_axioms;

/// The record of the root directory.
pub const ROOT_RECORD: u64 = 5;

/// The bits of a file reference that hold the record number (the rest is a
/// sequence number).
pub const RECORD_NUM_MASK: u64 = 0x0000_FFFF_FFFF_FFFF;

/// How often (in files) collection reports progress.
pub const MFT_PROGRESS_EVERY: u64 = 50000;

/// A parent reference that stands for the root.
pub open spec fn is_root_parent(p: u64) -> bool {
    p == ROOT_RECORD || p == 0
}

/// The path of record `fid`, following at most `fuel` parents that are not
/// the root; `None` when a record on the way is missing or the chain is
/// longer than that.
pub open spec fn path_of(m: Map<u64, (u64, String)>, root: Seq<char>, fid: u64, fuel: nat) -> Option<
    Seq<char>,
>
    decreases fuel,
{
    if fid == ROOT_RECORD {
        Some(root)
    } else if !m.contains_key(fid) {
        None
    } else {
        let (p, name) = m[fid];
        if is_root_parent(p) {
            Some(join(root, name@, '\\'))
        } else if fuel == 0 {
            None
        } else {
            match path_of(m, root, p, (fuel - 1) as nat) {
                Some(pp) => Some(join(pp, name@, '\\')),
                None => None,
            }
        }
    }
}

/// The path of record `fid`: a parent chain longer than the number of
/// records must loop, and then there is no path.
pub open spec fn resolved(m: Map<u64, (u64, String)>, root: Seq<char>, fid: u64) -> Option<Seq<char>> {
    path_of(m, root, fid, m.dom().len())
}

/// `base` joined with the names from the last to the first.
pub open spec fn rejoin(base: Seq<char>, names: Seq<Seq<char>>) -> Seq<char>
    decreases names.len(),
{
    if names.len() == 0 {
        base
    } else {
        join(rejoin(base, names.drop_first()), names[0], '\\')
    }
}

proof fn lemma_rejoin_push(base: Seq<char>, names: Seq<Seq<char>>, y: Seq<char>)
    ensures
        rejoin(base, names.push(y)) == rejoin(join(base, y, '\\'), names),
    decreases names.len(),
{
    if names.len() > 0 {
        assert(names.push(y).drop_first() == names.drop_first().push(y));
        assert(names.push(y)[0] == names[0]);
        lemma_rejoin_push(base, names.drop_first(), y);
        assert(rejoin(base, names.push(y)) == join(
            rejoin(base, names.drop_first().push(y)),
            names[0],
            '\\',
        ));
    } else {
        assert(names.push(y).drop_first() == Seq::<Seq<char>>::empty());
        assert(names.push(y)[0] == y);
        assert(rejoin(base, Seq::<Seq<char>>::empty()) == base);
        assert(rejoin(join(base, y, '\\'), names) == join(base, y, '\\'));
    }
}

/// More fuel never changes a path that was found.
pub proof fn lemma_path_of_fuel(m: Map<u64, (u64, String)>, root: Seq<char>, fid: u64, f: nat, g: nat)
    requires
        f <= g,
        path_of(m, root, fid, f) is Some,
    ensures
        path_of(m, root, fid, g) == path_of(m, root, fid, f),
    decreases f,
{
    if fid != ROOT_RECORD && m.contains_key(fid) {
        let (p, name) = m[fid];
        if !is_root_parent(p) && f > 0 {
            lemma_path_of_fuel(m, root, p, (f - 1) as nat, (g - 1) as nat);
        }
    }
}

/// Law: a record that has a path, and whose parent is not the root, has
/// its parent's path joined with its own name.
pub proof fn law_path_extends_parent(m: Map<u64, (u64, String)>, root: Seq<char>, fid: u64)
    requires
        fid != ROOT_RECORD,
        m.contains_key(fid),
        !is_root_parent(m[fid].0),
        resolved(m, root, fid) is Some,
    ensures
        resolved(m, root, m[fid].0) is Some,
        resolved(m, root, fid) == Some(join(resolved(m, root, m[fid].0)->0, m[fid].1@, '\\')),
{
    let n = m.dom().len();
    let p = m[fid].0;
    assert(n > 0);
    let q = path_of(m, root, p, (n - 1) as nat);
    assert(q is Some);
    lemma_path_of_fuel(m, root, p, (n - 1) as nat, n);
}

/// The names along a parent chain, from the file up.
pub open spec fn chain_names(m: Map<u64, (u64, String)>, chain: Seq<u64>) -> Seq<Seq<char>> {
    chain.map_values(|f: u64| m[f].1@)
}

proof fn lemma_chain_suffix(m: Map<u64, (u64, String)>, root: Seq<char>, chain: Seq<u64>, i: int, f: nat)
    requires
        0 <= i < chain.len(),
        f >= chain.len() - 1 - i,
        forall|j: int| 0 <= j < chain.len() ==> m.contains_key(#[trigger] chain[j]) && chain[j] != ROOT_RECORD,
        forall|j: int| 1 <= j < chain.len() ==> #[trigger] chain[j] != 0,
        forall|j: int| 0 <= j < chain.len() - 1 ==> m[#[trigger] chain[j]].0 == chain[j + 1],
        m[chain.last()].0 == ROOT_RECORD || m[chain.last()].0 == 0,
    ensures
        path_of(m, root, chain[i], f) == Some(
            rejoin(root, chain_names(m, chain).subrange(i, chain.len() as int)),
        ),
    decreases chain.len() - i,
{
    let k = chain.len() as int;
    let names = chain_names(m, chain);
    let tail = names.subrange(i, k);
    assert(tail[0] == m[chain[i]].1@);
    if i == k - 1 {
        assert(tail.drop_first() == Seq::<Seq<char>>::empty());
        assert(rejoin(root, Seq::<Seq<char>>::empty()) == root);
        assert(chain[i] == chain.last());
    } else {
        lemma_chain_suffix(m, root, chain, i + 1, (f - 1) as nat);
        assert(tail.drop_first() == names.subrange(i + 1, k));
        assert(m[chain[i]].0 == chain[i + 1]);
    }
}

/// Law: a file whose parent chain (the file, its parent, and so on) holds
/// distinct records that are all in the table, none of them the root, and
/// ends at a record whose parent is the root (record 5 or 0) has a path,
/// however long the chain: the root joined with every name along the
/// chain, from the top down to the file's own name.
pub proof fn law_chain_resolves(m: Map<u64, (u64, String)>, root: Seq<char>, chain: Seq<u64>)
    requires
        m.dom().finite(),
        chain.len() > 0,
        chain.no_duplicates(),
        forall|j: int| 0 <= j < chain.len() ==> m.contains_key(#[trigger] chain[j]) && chain[j] != ROOT_RECORD,
        forall|j: int| 1 <= j < chain.len() ==> #[trigger] chain[j] != 0,
        forall|j: int| 0 <= j < chain.len() - 1 ==> m[#[trigger] chain[j]].0 == chain[j + 1],
        m[chain.last()].0 == ROOT_RECORD || m[chain.last()].0 == 0,
    ensures
        resolved(m, root, chain[0]) == Some(rejoin(root, chain_names(m, chain))),
{
    chain.unique_seq_to_set();
    assert(chain.to_set().subset_of(m.dom())) by {
        assert forall|x: u64| chain.to_set().contains(x) implies m.dom().contains(x) by {
            let j = choose|j: int| 0 <= j < chain.len() && chain[j] == x;
        }
    }
    vstd::set_lib::lemma_len_subset(chain.to_set(), m.dom());
    lemma_chain_suffix(m, root, chain, 0, m.dom().len());
    assert(chain_names(m, chain).subrange(0, chain.len() as int) == chain_names(m, chain));
}

/// What a scan of the table collects: each record's parent and name, and
/// the records that are files, in table order.
pub struct MftCollector {
    pub names: HashMap<u64, (u64, String)>,
    pub files: Vec<u64>,
    pub count: u64,
}

impl MftCollector {
    /// Nothing collected yet.
    pub fn new() -> (c: MftCollector)
        ensures
            c.names@ == Map::<u64, (u64, String)>::empty(),
            c.files@.len() == 0,
            c.count == 0,
    {
        MftCollector { names: HashMap::new(), files: Vec::new(), count: 0 }
    }

    /// Takes in one record of the table. Records named `.` or `..` are
    /// ignored; the others are remembered, and files are counted. Returns
    /// whether to report the count (at every multiple of 50000).
    pub fn add_record(&mut self, fid: u64, parent: u64, name: String, is_dir: bool) -> (report: bool)
        requires
            old(self).count < u64::MAX,
        ensures
            if name@ == "."@ || name@ == ".."@ {
                *final(self) == *old(self) && !report
            } else {
                &&& final(self).names@ == old(self).names@.insert(fid, (parent, name))
                &&& final(self).files@ == if is_dir {
                    old(self).files@
                } else {
                    old(self).files@.push(fid)
                }
                &&& final(self).count == if is_dir {
                    old(self).count
                } else {
                    (old(self).count + 1) as u64
                }
                &&& report == (final(self).count % MFT_PROGRESS_EVERY == 0)
            },
    {
        let v = chars_of(name.as_str());
        if chars_are(&v, ".") || chars_are(&v, "..") {
            return false;
        }
        self.names.insert(fid, (parent, name));
        if !is_dir {
            self.files.push(fid);
            self.count = self.count + 1;
        }
        self.count % MFT_PROGRESS_EVERY == 0
    }
}

/// The path of record `fid` under `root`, if it has one.
pub fn resolve_path(names: &HashMap<u64, (u64, String)>, root: &str, fid: u64) -> (r: Option<String>)
    ensures
        match (r, resolved(names@, root@, fid)) {
            (Some(s), Some(t)) => s@ == t,
            (None, None) => true,
            _ => false,
        },
{
    let ghost m = names@;
    let n = names.len();
    let mut cur = fid;
    let mut fuel: usize = n;
    let mut stack: Vec<Vec<char>> = Vec::new();
    let ghost target = resolved(m, root@, fid);
    let mut found_root_parent = false;
    loop
        invariant_except_break
            m == names@,
            fuel <= n,
            !found_root_parent,
            target == match path_of(m, root@, cur, fuel as nat) {
                Some(q) => Some(rejoin(q, stack@.map_values(|x: Vec<char>| x@))),
                None => None,
            },
        ensures
            m == names@,
            found_root_parent ==> target == Some(rejoin(root@, stack@.map_values(|x: Vec<char>| x@))),
            !found_root_parent && cur == ROOT_RECORD ==> target == Some(rejoin(root@, stack@.map_values(|x: Vec<char>| x@))),
            !found_root_parent && cur != ROOT_RECORD ==> target is None,
        decreases fuel,
    {
        if cur == ROOT_RECORD {
            break;
        }
        let entry = names.get(&cur);
        match entry {
            None => {
                break;
            },
            Some(e) => {
                let p = e.0;
                let nm = chars_of(e.1.as_str());
                let ghost sv = stack@.map_values(|x: Vec<char>| x@);
                proof {
                    assert(m.contains_key(cur));
                    assert(m[cur] == *e);
                    lemma_rejoin_push(root@, sv, nm@);
                }
                stack.push(nm);
                proof {
                    assert(stack@.map_values(|x: Vec<char>| x@) == sv.push(e.1@));
                }
                if p == ROOT_RECORD || p == 0 {
                    found_root_parent = true;
                    break;
                }
                if fuel == 0 {
                    cur = 0;
                    proof {
                        assert(target is None);
                    }
                    break;
                }
                proof {
                    let pv = path_of(m, root@, p, (fuel - 1) as nat);
                    if pv is Some {
                        lemma_rejoin_push(pv->0, sv, e.1@);
                    }
                }
                cur = p;
                fuel = fuel - 1;
            },
        }
    }
    if !found_root_parent && cur != ROOT_RECORD {
        return None;
    }
    let ghost sv = stack@.map_values(|x: Vec<char>| x@);
    let mut path = chars_of(root);
    let mut k = stack.len();
    proof {
        assert(sv.take(k as int) == sv);
    }
    while k > 0
        invariant
            k <= stack.len(),
            sv == stack@.map_values(|x: Vec<char>| x@),
            rejoin(root@, sv) == rejoin(path@, sv.take(k as int)),
        decreases k,
    {
        proof {
            assert(sv.take(k as int) == sv.take(k - 1).push(sv[k - 1]));
            lemma_rejoin_push(path@, sv.take(k - 1), sv[k - 1]);
            assert(stack@[k - 1]@ == sv[k - 1]);
        }
        path = join_chars(&path, &stack[k - 1], '\\');
        k = k - 1;
    }
    proof {
        assert(sv.take(0) == Seq::<Seq<char>>::empty());
    }
    Some(string_of(path.as_slice()))
}

/// Files are listed in order of their record number.
pub open spec fn record_key() -> spec_fn((u64, String)) -> int {
    |x: (u64, String)| -((x.0 & RECORD_NUM_MASK) as int)
}

/// (record, path) of each collected file that has a path outside the
/// skipped system locations, in table order.
pub open spec fn file_paths_of(m: Map<u64, (u64, String)>, root: Seq<char>, files: Seq<u64>) -> Seq<
    (u64, Seq<char>),
>
    decreases files.len(),
{
    if files.len() == 0 {
        Seq::empty()
    } else {
        let rest = file_paths_of(m, root, files.drop_last());
        match resolved(m, root, files.last()) {
            Some(p) => if has_component_in(p, '\\', skip_names()) {
                rest
            } else {
                rest.push((files.last(), p))
            },
            None => rest,
        }
    }
}

/// Pairs of (record, path) as values.
pub open spec fn pairs_view(v: Seq<(u64, String)>) -> Seq<(u64, Seq<char>)> {
    v.map_values(|x: (u64, String)| (x.0, x.1@))
}

/// The files of the table with their paths, in order of record number
/// (files with equal record numbers keep their table order).
pub fn file_paths(c: &MftCollector, root: &str) -> (r: Vec<(u64, String)>)
    ensures
        exists|unsorted: Seq<(u64, String)>|
            pairs_view(unsorted) == file_paths_of(c.names@, root@, c.files@) && r@ == sort_desc(
                unsorted,
                record_key(),
            ),
{
    let mut found: Vec<(u64, String)> = Vec::new();
    let n = c.files.len();
    proof {
        assert(c.files@.take(0) == Seq::<u64>::empty());
    }
    for i in 0..n
        invariant
            n == c.files.len(),
            pairs_view(found@) == file_paths_of(c.names@, root@, c.files@.take(i as int)),
    {
        let fid = c.files[i];
        proof {
            assert(c.files@.take(i + 1).drop_last() == c.files@.take(i as int));
            assert(c.files@.take(i + 1).last() == fid);
        }
        match resolve_path(&c.names, root, fid) {
            Some(p) => {
                if !should_skip(p.as_str(), '\\') {
                    let ghost f0 = found@;
                    found.push((fid, p));
                    proof {
                        assert(found@ == f0.push((fid, p)));
                        assert(pairs_view(found@) =~= pairs_view(f0).push((fid, p@)));
                    }
                }
            },
            None => {},
        }
    }
    proof {
        assert(c.files@.take(n as int) == c.files@);
    }
    let ghost unsorted = found@;
    let r = by_record_number(found);
    proof {
        assert(pairs_view(unsorted) == file_paths_of(c.names@, root@, c.files@));
    }
    r
}

/// Stable sort by record number, from the lowest.
fn by_record_number(v: Vec<(u64, String)>) -> (r: Vec<(u64, String)>)
    ensures
        r@ == sort_desc(v@, record_key()),
{
    let ghost key = record_key();
    let mut r: Vec<(u64, String)> = Vec::new();
    let mut rest = v;
    let ghost all = rest@;
    let n = rest.len();
    let mut stack: Vec<(u64, String)> = Vec::new();
    while rest.len() > 0
        invariant
            stack@.len() + rest@.len() == all.len(),
            n == all.len(),
            forall|i: int| 0 <= i < rest@.len() ==> rest@[i] == all[i],
            forall|i: int| 0 <= i < stack@.len() ==> stack@[i] == all[all.len() - 1 - i],
        decreases rest.len(),
    {
        let x = rest.pop().unwrap();
        stack.push(x);
    }
    assert(all.take(0) == Seq::<(u64, String)>::empty());
    let mut i: usize = 0;
    while stack.len() > 0
        invariant
            i + stack@.len() == all.len(),
            n == all.len(),
            forall|j: int| 0 <= j < stack@.len() ==> stack@[j] == all[all.len() - 1 - j],
            r@ == sort_desc(all.take(i as int), key),
            key == record_key(),
        decreases stack.len(),
    {
        let x = stack.pop().unwrap();
        proof {
            assert(x == all[i as int]);
            assert(all.take(i + 1).drop_last() == all.take(i as int));
            lemma_slot(r@, x, key);
        }
        let xr = x.0 & RECORD_NUM_MASK;
        let mut p = r.len();
        proof {
            assert(r@.take(p as int) == r@);
        }
        while p > 0 && (r[p - 1].0 & RECORD_NUM_MASK) > xr
            invariant
                p <= r.len(),
                key == record_key(),
                xr == x.0 & RECORD_NUM_MASK,
                slot(r@, x, key) == slot(r@.take(p as int), x, key),
            decreases p,
        {
            proof {
                assert(r@.take(p as int).drop_last() == r@.take(p - 1));
            }
            p = p - 1;
        }
        proof {
            if p > 0 {
                assert(r@.take(p as int).last() == r@[p - 1]);
            }
            assert(slot(r@, x, key) == p);
        }
        r.insert(p, x);
        proof {
            assert(r@ =~= insert_desc(sort_desc(all.take(i as int), key), x, key));
        }
        i = i + 1;
    }
    proof {
        assert(all.take(all.len() as int) == all);
    }
    r
}

/// An NTFS timestamp (100-nanosecond ticks since 1601, read as a signed
/// number) in whole seconds since the Unix epoch, truncated toward zero.
pub open spec fn nt_unix_secs(nt: u64) -> int {
    let signed = nt as i64;
    (if signed >= 0 {
        signed / 10_000_000
    } else {
        -((-signed) / 10_000_000)
    }) - WINDOWS_EPOCH_OFFSET
}

/// An NTFS modification time as an instant (whole seconds), if chrono
/// represents it.
pub fn nt_time_to_timestamp(nt: u64) -> (r: Option<Timestamp>)
    ensures
        r == checked_instant(nt_unix_secs(nt) as i64, 0),
{
    let secs: i64 = if nt < 0x8000_0000_0000_0000 {
        (nt / 10_000_000) as i64
    } else {
        let magnitude: u64 = ((0xFFFF_FFFF_FFFF_FFFFu64 - nt) + 1) / 10_000_000;
        proof {
            assert((nt as i64) == nt - 0x1_0000_0000_0000_0000) by (bit_vector)
                requires
                    nt >= 0x8000_0000_0000_0000u64,
            ;
        }
        0 - (magnitude as i64)
    };
    instant(secs - WINDOWS_EPOCH_OFFSET, 0)
}

/// The record number a file reference points at.
pub fn record_number(fid: u64) -> (r: u64)
    ensures
        r == fid & RECORD_NUM_MASK,
{
    fid & RECORD_NUM_MASK
}

/// The entry of a file of the table: its category from its path and
/// extension, and its modification time (an NTFS timestamp) if the file
/// has one that chrono represents.
pub fn table_entry(path: String, size_bytes: u64, extension: String, modified_nt: Option<u64>) -> (e:
    FileEntry)
    ensures
        e.path == path,
        e.size_bytes == size_bytes,
        e.extension == extension,
        e.last_modified == match modified_nt {
            Some(nt) => checked_instant(nt_unix_secs(nt) as i64, 0),
            None => None,
        },
        e.category == category_for(lowercase(path@), lowercase(extension@)),
{
    let category = classify_file(path.as_str(), extension.as_str());
    let last_modified = match modified_nt {
        Some(nt) => nt_time_to_timestamp(nt),
        None => None,
    };
    FileEntry { path, size_bytes, extension, last_modified, category }
}

} // verus!
