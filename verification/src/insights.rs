//! The insights of a drive scan: totals per extension, per top-level folder
//! and per category, the largest files, and the largest files left
//! unmodified for 180 days.
use vstd::prelude::*;
use crate::groups::{
    lemma_sorted_tally,
    add_category, add_text, exec_total_key, plain_groups, plain_view, sort_by_total, text_groups,
    text_view, total_key,
};
use crate::paths::{components, components_of, folder_chars, folder_of};
use crate::ranking::{
    insert_desc, is_desc, lemma_sort_elements, lemma_sort_map, lemma_top, lemma_top_keeps_largest,
    lemma_top_push, prefix, sort_desc, top,
};
use crate::scanner::{
    duplicate_entries, is_earlier, CategoryStats, ExtensionStats, FileCategory, FileEntry,
    FolderStats, ScanResult, Timestamp,
};
use crate::tally::{
    distinct_keys, group_files, group_sum, is_tally_of, key_count, lemma_tally, size_sum, tally,
};
use crate::text::{chars_of, string_of};

verus! {

/// Files left unmodified this long (180 days, in seconds) are stale.
pub const STALE_SECS: i64 = 15552000;

/// How many of the largest files a scan keeps.
pub const LARGEST_KEPT: usize = 200;

/// How many of the largest stale files a scan keeps.
pub const STALE_KEPT: usize = 500;

/// The moment 180 days before `now`.
pub open spec fn stale_cutoff(now: Timestamp) -> Timestamp {
    Timestamp { secs: (now.secs - STALE_SECS) as i64, nanos: now.nanos }
}

/// A file is stale when its modification time is unknown or before the cutoff.
pub open spec fn is_stale(e: FileEntry, cutoff: Timestamp) -> bool {
    match e.last_modified {
        None => true,
        Some(t) => is_earlier(t, cutoff),
    }
}

/// Files are ranked by size.
pub open spec fn size_key() -> spec_fn(FileEntry) -> int {
    |e: FileEntry| e.size_bytes as int
}

/// Sum of the file sizes.
pub open spec fn total_size(s: Seq<FileEntry>) -> nat
    decreases s.len(),
{
    if s.len() == 0 {
        0
    } else {
        total_size(s.drop_last()) + s.last().size_bytes as nat
    }
}

/// (extension, size) of every file that has an extension.
pub open spec fn ext_pairs(s: Seq<FileEntry>) -> Seq<(Seq<char>, nat)>
    decreases s.len(),
{
    if s.len() == 0 {
        Seq::empty()
    } else if s.last().extension@.len() > 0 {
        ext_pairs(s.drop_last()).push((s.last().extension@, s.last().size_bytes as nat))
    } else {
        ext_pairs(s.drop_last())
    }
}

/// (folder, size) of every file, the folder being its top-level folder
/// under the drive.
pub open spec fn folder_pairs(s: Seq<FileEntry>, drive: Seq<char>, sep: char) -> Seq<
    (Seq<char>, nat),
>
    decreases s.len(),
{
    if s.len() == 0 {
        Seq::empty()
    } else {
        folder_pairs(s.drop_last(), drive, sep).push(
            (folder_of(s.last().path@, drive, sep), s.last().size_bytes as nat),
        )
    }
}

/// (category, size) of every file.
pub open spec fn category_pairs(s: Seq<FileEntry>) -> Seq<(FileCategory, nat)>
    decreases s.len(),
{
    if s.len() == 0 {
        Seq::empty()
    } else {
        category_pairs(s.drop_last()).push((s.last().category, s.last().size_bytes as nat))
    }
}

/// The stale files, in scan order.
pub open spec fn stale_entries(s: Seq<FileEntry>, cutoff: Timestamp) -> Seq<FileEntry>
    decreases s.len(),
{
    if s.len() == 0 {
        Seq::empty()
    } else if is_stale(s.last(), cutoff) {
        stale_entries(s.drop_last(), cutoff).push(s.last())
    } else {
        stale_entries(s.drop_last(), cutoff)
    }
}

/// Extension statistics as (extension, bytes, files).
pub open spec fn extension_view(v: Seq<ExtensionStats>) -> Seq<(Seq<char>, nat, nat)> {
    v.map_values(|s: ExtensionStats| (s.extension@, s.total_bytes as nat, s.file_count as nat))
}

/// Folder statistics as (folder, bytes, files).
pub open spec fn folder_view(v: Seq<FolderStats>) -> Seq<(Seq<char>, nat, nat)> {
    v.map_values(|s: FolderStats| (s.path@, s.total_bytes as nat, s.file_count as nat))
}

/// Category statistics as (category, bytes, files).
pub open spec fn category_view(v: Seq<CategoryStats>) -> Seq<(FileCategory, nat, nat)> {
    v.map_values(|s: CategoryStats| (s.category, s.total_bytes as nat, s.file_count as nat))
}

/// The insights of a scan of `drive` that found `entries`, as of `now`.
pub open spec fn insights_of(
    r: ScanResult,
    entries: Seq<FileEntry>,
    drive: Seq<char>,
    now: Timestamp,
    sep: char,
) -> bool {
    &&& r.drive@ == drive
    &&& r.total_bytes == total_size(entries)
    &&& extension_view(r.by_extension@) == sort_desc_groups(tally(ext_pairs(entries)))
    &&& folder_view(r.by_folder@) == sort_desc_groups(tally(folder_pairs(entries, drive, sep)))
    &&& category_view(r.by_category@) == sort_desc_groups(tally(category_pairs(entries)))
    &&& r.largest_files@ == top(entries, size_key(), LARGEST_KEPT as nat)
    &&& r.entries@ == r.largest_files@
    &&& r.stale_files@ == top(
        stale_entries(entries, stale_cutoff(now)),
        size_key(),
        STALE_KEPT as nat,
    )
}

/// Groups from the largest byte total to the smallest, stable.
pub open spec fn sort_desc_groups<K>(t: Seq<(K, nat, nat)>) -> Seq<(K, nat, nat)> {
    crate::ranking::sort_desc(t, total_key::<K>())
}

// ---------------------------------------------------------------------------
// facts about the pair sequences

proof fn lemma_total_prefix(s: Seq<FileEntry>, i: int)
    requires
        0 <= i <= s.len(),
    ensures
        total_size(s.take(i)) <= total_size(s),
    decreases s.len() - i,
{
    if i < s.len() {
        lemma_total_prefix(s, i + 1);
        assert(s.take(i + 1).drop_last() == s.take(i));
    } else {
        assert(s.take(i) == s);
    }
}

proof fn lemma_pairs_bounds(s: Seq<FileEntry>, drive: Seq<char>, sep: char)
    ensures
        size_sum(ext_pairs(s)) <= total_size(s),
        size_sum(folder_pairs(s, drive, sep)) == total_size(s),
        size_sum(category_pairs(s)) == total_size(s),
        ext_pairs(s).len() <= s.len(),
        folder_pairs(s, drive, sep).len() == s.len(),
        category_pairs(s).len() == s.len(),
        total_size(stale_entries(s, stale_cutoff_any())) >= 0,
    decreases s.len(),
{
    if s.len() > 0 {
        let init = s.drop_last();
        lemma_pairs_bounds(init, drive, sep);
        if s.last().extension@.len() > 0 {
            assert(ext_pairs(s).drop_last() == ext_pairs(init));
        }
        assert(folder_pairs(s, drive, sep).drop_last() == folder_pairs(init, drive, sep));
        assert(category_pairs(s).drop_last() == category_pairs(init));
    }
}

/// Any cutoff (used where the statement does not depend on it).
spec fn stale_cutoff_any() -> Timestamp {
    Timestamp { secs: 0, nanos: 0 }
}

proof fn lemma_count_le_len<K>(pairs: Seq<(K, nat)>, k: K)
    ensures
        key_count(pairs, k) <= pairs.len(),
    decreases pairs.len(),
{
    if pairs.len() > 0 {
        lemma_count_le_len(pairs.drop_last(), k);
    }
}

/// Every group of a tally counts at most as many files as there are pairs.
proof fn lemma_tally_counts<K>(pairs: Seq<(K, nat)>)
    ensures
        forall|j: int|
            0 <= j < tally(pairs).len() ==> (#[trigger] tally(pairs)[j]).2 <= pairs.len(),
{
    lemma_tally(pairs);
    assert forall|j: int| 0 <= j < tally(pairs).len() implies (#[trigger] tally(
        pairs,
    )[j]).2 <= pairs.len() by {
        lemma_count_le_len(pairs, tally(pairs)[j].0);
    }
}

// ---------------------------------------------------------------------------
// the ranked buffers

/// Offers `e` to a descending buffer of at most `k` entries: it goes in at
/// its slot and the buffer is cut back to `k`.
fn offer(buf: &mut Vec<FileEntry>, e: FileEntry, k: usize)
    requires
        is_desc(old(buf)@, size_key()),
        old(buf)@.len() <= k,
    ensures
        final(buf)@ == prefix(insert_desc(old(buf)@, e, size_key()), k as nat),
{
    let ghost key = size_key();
    let ghost b0 = buf@;
    let mut p = buf.len();
    proof {
        crate::ranking::lemma_slot(b0, e, key);
        assert(b0.take(p as int) == b0);
    }
    while p > 0 && buf[p - 1].size_bytes < e.size_bytes
        invariant
            p <= buf.len(),
            buf@ == b0,
            key == size_key(),
            crate::ranking::slot(b0, e, key) == crate::ranking::slot(b0.take(p as int), e, key),
        decreases p,
    {
        proof {
            assert(b0.take(p as int).drop_last() == b0.take(p - 1));
        }
        p = p - 1;
    }
    proof {
        if p > 0 {
            assert(b0.take(p as int).last() == b0[p - 1]);
        }
        assert(crate::ranking::slot(b0, e, key) == p);
    }
    if p < k {
        buf.insert(p, e);
        if buf.len() > k {
            buf.truncate(k);
        }
        proof {
            assert(buf@ =~= prefix(insert_desc(b0, e, key), k as nat));
        }
    } else {
        proof {
            assert(b0 =~= prefix(insert_desc(b0, e, key), k as nat));
        }
    }
}

// ---------------------------------------------------------------------------
// the computation

/// Extension groups as statistics.
fn extension_stats(v: Vec<(String, u64, u64)>) -> (r: Vec<ExtensionStats>)
    ensures
        extension_view(r@) == text_groups(v@),
{
    let mut r: Vec<ExtensionStats> = Vec::new();
    let mut rest = v;
    let ghost all = rest@;
    let mut stack: Vec<(String, u64, u64)> = Vec::new();
    while rest.len() > 0
        invariant
            stack@.len() + rest@.len() == all.len(),
            forall|i: int| 0 <= i < rest@.len() ==> rest@[i] == all[i],
            forall|i: int| 0 <= i < stack@.len() ==> stack@[i] == all[all.len() - 1 - i],
        decreases rest.len(),
    {
        let x = rest.pop().unwrap();
        stack.push(x);
    }
    while stack.len() > 0
        invariant
            r@.len() + stack@.len() == all.len(),
            forall|j: int| 0 <= j < stack@.len() ==> stack@[j] == all[all.len() - 1 - j],
            extension_view(r@) == text_groups(all.take(r@.len() as int)),
        decreases stack.len(),
    {
        let x = stack.pop().unwrap();
        let ghost i = r@.len() as int;
        proof {
            assert(x == all[i]);
        }
        let (k, t, c) = x;
        let ghost r0 = r@;
        let item = ExtensionStats { extension: k, total_bytes: t, file_count: c };
        r.push(item);
        proof {
            assert(all.take(i + 1) == all.take(i).push(all[i]));
            assert(r@ == r0.push(item));
            assert(extension_view(r@) == extension_view(r0).push(extension_view(seq![item])[0]));
            assert(text_groups(all.take(i + 1)) == text_groups(all.take(i)).push(text_view(all[i])));
            assert(extension_view(r@) =~= text_groups(all.take(i + 1)));
        }
    }
    proof {
        assert(all.take(all.len() as int) == all);
    }
    r
}

/// Folder groups as statistics.
fn folder_stats(v: Vec<(String, u64, u64)>) -> (r: Vec<FolderStats>)
    ensures
        folder_view(r@) == text_groups(v@),
{
    let mut r: Vec<FolderStats> = Vec::new();
    let mut rest = v;
    let ghost all = rest@;
    let mut stack: Vec<(String, u64, u64)> = Vec::new();
    while rest.len() > 0
        invariant
            stack@.len() + rest@.len() == all.len(),
            forall|i: int| 0 <= i < rest@.len() ==> rest@[i] == all[i],
            forall|i: int| 0 <= i < stack@.len() ==> stack@[i] == all[all.len() - 1 - i],
        decreases rest.len(),
    {
        let x = rest.pop().unwrap();
        stack.push(x);
    }
    while stack.len() > 0
        invariant
            r@.len() + stack@.len() == all.len(),
            forall|j: int| 0 <= j < stack@.len() ==> stack@[j] == all[all.len() - 1 - j],
            folder_view(r@) == text_groups(all.take(r@.len() as int)),
        decreases stack.len(),
    {
        let x = stack.pop().unwrap();
        let ghost i = r@.len() as int;
        proof {
            assert(x == all[i]);
        }
        let (k, t, c) = x;
        let ghost r0 = r@;
        let item = FolderStats { path: k, total_bytes: t, file_count: c };
        r.push(item);
        proof {
            assert(all.take(i + 1) == all.take(i).push(all[i]));
            assert(r@ == r0.push(item));
            assert(folder_view(r@) == folder_view(r0).push(folder_view(seq![item])[0]));
            assert(text_groups(all.take(i + 1)) == text_groups(all.take(i)).push(text_view(all[i])));
            assert(folder_view(r@) =~= text_groups(all.take(i + 1)));
        }
    }
    proof {
        assert(all.take(all.len() as int) == all);
    }
    r
}

/// Category groups as statistics.
fn category_stats(v: Vec<(FileCategory, u64, u64)>) -> (r: Vec<CategoryStats>)
    ensures
        category_view(r@) == plain_groups(v@),
{
    let mut r: Vec<CategoryStats> = Vec::new();
    for i in 0..v.len()
        invariant
            category_view(r@) == plain_groups(v@.take(i as int)),
    {
        let x = v[i];
        let (k, t, c) = x;
        proof {
            assert(x == v@[i as int]);
        }
        let ghost r0 = r@;
        let item = CategoryStats { category: k, total_bytes: t, file_count: c };
        r.push(item);
        proof {
            assert(v@.take(i + 1) == v@.take(i as int).push(v@[i as int]));
            assert(r@ == r0.push(item));
            assert(category_view(r@) == category_view(r0).push(category_view(seq![item])[0]));
            assert(plain_groups(v@.take(i + 1)) == plain_groups(v@.take(i as int)).push(plain_view(v@[i as int])));
            assert(category_view(r@) =~= plain_groups(v@.take(i + 1)));
        }
    }
    proof {
        assert(v@.take(v@.len() as int) == v@);
    }
    r
}

/// Sorting the executable groups sorts their views.
proof fn lemma_sorted_views(v: Seq<(String, u64, u64)>, w: Seq<(FileCategory, u64, u64)>)
    ensures
        text_groups(crate::ranking::sort_desc(v, exec_total_key::<String>())) == sort_desc_groups(
            text_groups(v),
        ),
        plain_groups(crate::ranking::sort_desc(w, exec_total_key::<FileCategory>()))
            == sort_desc_groups(plain_groups(w)),
{
    let f = |g: (String, u64, u64)| text_view(g);
    assert forall|a: (String, u64, u64)| #[trigger] total_key::<Seq<char>>()(f(a))
        == exec_total_key::<String>()(a) by {}
    lemma_sort_map(v, f, exec_total_key::<String>(), total_key::<Seq<char>>());
    let h = |g: (FileCategory, u64, u64)| plain_view(g);
    assert forall|a: (FileCategory, u64, u64)| #[trigger] total_key::<FileCategory>()(h(a))
        == exec_total_key::<FileCategory>()(a) by {}
    lemma_sort_map(w, h, exec_total_key::<FileCategory>(), total_key::<FileCategory>());
}

/// Computes the insights of a scan of `drive` that found `entries`, as of
/// `now`; `sep` is the platform's main path separator.
pub fn compute_insights(entries: Vec<FileEntry>, drive: String, now: Timestamp, sep: char) -> (r:
    ScanResult)
    requires
        total_size(entries@) <= u64::MAX,
        now.secs >= i64::MIN + STALE_SECS,
        sep == '/' || sep == '\\',
    ensures
        insights_of(r, entries@, drive@, now, sep),
{
    let ghost all = entries@;
    let ghost cutoff = stale_cutoff(now);
    let cut = Timestamp { secs: now.secs - STALE_SECS, nanos: now.nanos };
    let drive_chars = chars_of(drive.as_str());
    let drive_parts = components_of(&drive_chars, sep);
    let n = entries.len();

    let mut total: u64 = 0;
    let mut ext_groups: Vec<(String, u64, u64)> = Vec::new();
    let mut folder_groups: Vec<(String, u64, u64)> = Vec::new();
    let mut cat_groups: Vec<(FileCategory, u64, u64)> = Vec::new();
    let mut largest: Vec<FileEntry> = Vec::new();
    let mut stale: Vec<FileEntry> = Vec::new();
    proof {
        assert(all.take(0) == Seq::<FileEntry>::empty());
        lemma_top(all.take(0), size_key(), LARGEST_KEPT as nat);
    }
    let mut i: usize = 0;
    while i < n
        invariant
            n == entries.len(),
            all == entries@,
            i <= n,
            cut == cutoff,
            cutoff == stale_cutoff(now),
            total_size(all) <= u64::MAX,
            drive_chars@ == drive@,
            drive_parts@.map_values(|x: Vec<char>| x@) == components(drive@, sep),
            total == total_size(all.take(i as int)),
            text_groups(ext_groups@) == tally(ext_pairs(all.take(i as int))),
            text_groups(folder_groups@) == tally(folder_pairs(all.take(i as int), drive@, sep)),
            plain_groups(cat_groups@) == tally(category_pairs(all.take(i as int))),
            largest@ == top(all.take(i as int), size_key(), LARGEST_KEPT as nat),
            stale@ == top(stale_entries(all.take(i as int), cutoff), size_key(), STALE_KEPT as nat),
        decreases n - i,
    {
        let ghost before = all.take(i as int);
        let ghost after = all.take(i + 1);
        let e = &entries[i];
        let size = e.size_bytes;
        proof {
            assert(after.drop_last() == before);
            assert(after.last() == all[i as int]);
            lemma_total_prefix(all, i + 1);
            lemma_pairs_bounds(before, drive@, sep);
            lemma_pairs_bounds(after, drive@, sep);
            lemma_tally(ext_pairs(before));
            lemma_tally(folder_pairs(before, drive@, sep));
            lemma_tally(category_pairs(before));
            lemma_tally_counts(ext_pairs(before));
            lemma_tally_counts(folder_pairs(before, drive@, sep));
            lemma_tally_counts(category_pairs(before));
            assert forall|j: int| 0 <= j < ext_groups@.len() implies (#[trigger] ext_groups@[j]).2
                < u64::MAX by {
                assert(text_groups(ext_groups@)[j].2 == ext_groups@[j].2);
            }
            assert forall|j: int| 0 <= j < folder_groups@.len() implies (
            #[trigger] folder_groups@[j]).2 < u64::MAX by {
                assert(text_groups(folder_groups@)[j].2 == folder_groups@[j].2);
            }
            assert forall|j: int| 0 <= j < cat_groups@.len() implies (#[trigger] cat_groups@[j]).2
                < u64::MAX by {
                assert(plain_groups(cat_groups@)[j].2 == cat_groups@[j].2);
            }
        }
        total = total + size;

        proof {
            assert(*e == all[i as int]);
            assert(before.push(all[i as int]) == after);
            if e.extension@.len() > 0 {
                assert(ext_pairs(after).drop_last() == ext_pairs(before));
            }
            assert(folder_pairs(after, drive@, sep).drop_last() == folder_pairs(before, drive@, sep));
            assert(category_pairs(after).drop_last() == category_pairs(before));
        }
        if !e.extension.as_str().is_empty() {
            add_text(&mut ext_groups, e.extension.clone(), size);
        }
        let path_chars = chars_of(e.path.as_str());
        let folder = folder_chars(&path_chars, &drive_chars, &drive_parts, sep);
        add_text(&mut folder_groups, string_of(folder.as_slice()), size);
        add_category(&mut cat_groups, e.category, size);

        proof {
            lemma_top_push(before, all[i as int], size_key(), LARGEST_KEPT as nat);
            lemma_top(before, size_key(), LARGEST_KEPT as nat);
        }
        offer(&mut largest, e.duplicate(), LARGEST_KEPT);

        let is_old = match e.last_modified {
            None => true,
            Some(t) => t.is_before(&cut),
        };
        if is_old {
            proof {
                lemma_top_push(stale_entries(before, cutoff), all[i as int], size_key(), STALE_KEPT as nat);
                lemma_top(stale_entries(before, cutoff), size_key(), STALE_KEPT as nat);
                assert(stale_entries(after, cutoff) == stale_entries(before, cutoff).push(all[i as int]));
            }
            offer(&mut stale, e.duplicate(), STALE_KEPT);
        }
        i = i + 1;
    }
    proof {
        assert(all.take(n as int) == all);
        lemma_sorted_views(ext_groups@, cat_groups@);
        lemma_sorted_views(folder_groups@, cat_groups@);
    }
    let by_extension = extension_stats(sort_by_total(ext_groups));
    let by_folder = folder_stats(sort_by_total(folder_groups));
    let by_category = category_stats(sort_by_total(cat_groups));
    let entries_copy = duplicate_entries(&largest);
    ScanResult {
        drive,
        entries: entries_copy,
        by_extension,
        by_folder,
        by_category,
        largest_files: largest,
        stale_files: stale,
        total_bytes: total,
    }
}


// ---------------------------------------------------------------------------
// laws

/// Bytes of the files that have no extension.
pub open spec fn unextended_size(s: Seq<FileEntry>) -> nat
    decreases s.len(),
{
    if s.len() == 0 {
        0
    } else {
        unextended_size(s.drop_last()) + if s.last().extension@.len() == 0 {
            s.last().size_bytes as nat
        } else {
            0
        }
    }
}

proof fn lemma_ext_split(s: Seq<FileEntry>)
    ensures
        size_sum(ext_pairs(s)) + unextended_size(s) == total_size(s),
    decreases s.len(),
{
    if s.len() > 0 {
        lemma_ext_split(s.drop_last());
        if s.last().extension@.len() > 0 {
            assert(ext_pairs(s).drop_last() == ext_pairs(s.drop_last()));
        }
    }
}

/// Law: every scanned file is counted in exactly one folder group and one
/// category group, and in an extension group when it has an extension; so
/// the folder and category totals add up to the bytes and files scanned, and
/// the extension totals to the bytes of the files that have an extension.
pub proof fn law_groups_cover_scan(
    r: ScanResult,
    entries: Seq<FileEntry>,
    drive: Seq<char>,
    now: Timestamp,
    sep: char,
)
    requires
        insights_of(r, entries, drive, now, sep),
    ensures
        group_sum(folder_view(r.by_folder@)) == r.total_bytes,
        group_files(folder_view(r.by_folder@)) == entries.len(),
        group_sum(category_view(r.by_category@)) == r.total_bytes,
        group_files(category_view(r.by_category@)) == entries.len(),
        group_sum(extension_view(r.by_extension@)) + unextended_size(entries) == r.total_bytes,
{
    let fp = folder_pairs(entries, drive, sep);
    let cp = category_pairs(entries);
    let ep = ext_pairs(entries);
    lemma_pairs_bounds(entries, drive, sep);
    lemma_tally(fp);
    lemma_tally(cp);
    lemma_tally(ep);
    lemma_sorted_tally(tally(fp), fp);
    lemma_sorted_tally(tally(cp), cp);
    lemma_sorted_tally(tally(ep), ep);
    lemma_ext_split(entries);
}

/// Law: each group reports exactly the bytes and the number of files that
/// carry its key, no key is reported twice, every key that occurs is
/// reported, and the groups run from the largest total to the smallest.
pub proof fn law_groups_exact(
    r: ScanResult,
    entries: Seq<FileEntry>,
    drive: Seq<char>,
    now: Timestamp,
    sep: char,
)
    requires
        insights_of(r, entries, drive, now, sep),
    ensures
        is_tally_of(extension_view(r.by_extension@), ext_pairs(entries)),
        is_tally_of(folder_view(r.by_folder@), folder_pairs(entries, drive, sep)),
        is_tally_of(category_view(r.by_category@), category_pairs(entries)),
        is_desc(extension_view(r.by_extension@), total_key::<Seq<char>>()),
        is_desc(folder_view(r.by_folder@), total_key::<Seq<char>>()),
        is_desc(category_view(r.by_category@), total_key::<FileCategory>()),
{
    let fp = folder_pairs(entries, drive, sep);
    let cp = category_pairs(entries);
    let ep = ext_pairs(entries);
    lemma_tally(fp);
    lemma_tally(cp);
    lemma_tally(ep);
    lemma_sorted_tally(tally(fp), fp);
    lemma_sorted_tally(tally(cp), cp);
    lemma_sorted_tally(tally(ep), ep);
}

/// Law: the largest files run from the largest to the smallest, number
/// `min(files, 200)`, are all scanned files, and every scanned file that is
/// not listed is no larger than the smallest one listed.
pub proof fn law_largest_files(
    r: ScanResult,
    entries: Seq<FileEntry>,
    drive: Seq<char>,
    now: Timestamp,
    sep: char,
)
    requires
        insights_of(r, entries, drive, now, sep),
    ensures
        is_desc(r.largest_files@, size_key()),
        r.largest_files@.len() == if entries.len() <= LARGEST_KEPT {
            entries.len()
        } else {
            LARGEST_KEPT as nat
        },
        forall|e: FileEntry| #[trigger] r.largest_files@.contains(e) ==> entries.contains(e),
        forall|e: FileEntry|
            entries.contains(e) && !(#[trigger] r.largest_files@.contains(e)) ==> e.size_bytes
                <= r.largest_files@.last().size_bytes,
{
    let k = LARGEST_KEPT as nat;
    lemma_top(entries, size_key(), k);
    lemma_sort_elements(entries, size_key());
    let srt = sort_desc(entries, size_key());
    let t = r.largest_files@;
    assert forall|e: FileEntry| #[trigger] t.contains(e) implies entries.contains(e) by {
        let i = choose|i: int| 0 <= i < t.len() && t[i] == e;
        assert(srt[i] == e);
        assert(srt.contains(e));
    }
    assert forall|e: FileEntry| entries.contains(e) && !(#[trigger] t.contains(e)) implies e.size_bytes
        <= t.last().size_bytes by {
        lemma_top_keeps_largest(entries, size_key(), k, e);
    }
}

/// Law: the stale files are scanned files that were last modified more than
/// 180 days before the scan (or at an unknown time), listed from the largest
/// to the smallest, at most 500 of them, and every stale file that is not
/// listed is no larger than the smallest one listed.
pub proof fn law_stale_files(
    r: ScanResult,
    entries: Seq<FileEntry>,
    drive: Seq<char>,
    now: Timestamp,
    sep: char,
)
    requires
        insights_of(r, entries, drive, now, sep),
    ensures
        is_desc(r.stale_files@, size_key()),
        r.stale_files@.len() <= STALE_KEPT,
        forall|e: FileEntry|
            #[trigger] r.stale_files@.contains(e) ==> entries.contains(e) && is_stale(
                e,
                stale_cutoff(now),
            ),
        forall|e: FileEntry|
            entries.contains(e) && is_stale(e, stale_cutoff(now)) && !(
            #[trigger] r.stale_files@.contains(e)) ==> e.size_bytes
                <= r.stale_files@.last().size_bytes,
{
    let k = STALE_KEPT as nat;
    let st = stale_entries(entries, stale_cutoff(now));
    lemma_top(st, size_key(), k);
    lemma_sort_elements(st, size_key());
    lemma_stale_entries(entries, stale_cutoff(now));
    let srt = sort_desc(st, size_key());
    let t = r.stale_files@;
    assert forall|e: FileEntry| #[trigger] t.contains(e) implies entries.contains(e) && is_stale(
        e,
        stale_cutoff(now),
    ) by {
        let i = choose|i: int| 0 <= i < t.len() && t[i] == e;
        assert(srt[i] == e);
        assert(srt.contains(e));
        assert(st.contains(e));
    }
    assert forall|e: FileEntry|
        entries.contains(e) && is_stale(e, stale_cutoff(now)) && !(#[trigger] t.contains(
            e,
        )) implies e.size_bytes <= t.last().size_bytes by {
        assert(st.contains(e));
        lemma_top_keeps_largest(st, size_key(), k, e);
    }
}

/// The stale entries are exactly the stale scanned files.
proof fn lemma_stale_entries(s: Seq<FileEntry>, cutoff: Timestamp)
    ensures
        forall|e: FileEntry|
            #[trigger] stale_entries(s, cutoff).contains(e) <==> s.contains(e) && is_stale(e, cutoff),
    decreases s.len(),
{
    if s.len() > 0 {
        let init = s.drop_last();
        lemma_stale_entries(init, cutoff);
        let st = stale_entries(s, cutoff);
        let si = stale_entries(init, cutoff);
        assert forall|e: FileEntry| #[trigger] st.contains(e) <==> s.contains(e) && is_stale(e, cutoff) by {
            if st.contains(e) {
                let i = choose|i: int| 0 <= i < st.len() && st[i] == e;
                if i < si.len() {
                    assert(si[i] == e);
                    assert(si.contains(e));
                    let j = choose|j: int| 0 <= j < init.len() && init[j] == e;
                    assert(s[j] == e);
                } else {
                    assert(s[s.len() - 1] == e);
                }
            }
            if s.contains(e) && is_stale(e, cutoff) {
                let j = choose|j: int| 0 <= j < s.len() && s[j] == e;
                if j < init.len() {
                    assert(init[j] == e);
                    assert(init.contains(e));
                    assert(si.contains(e));
                    let i = choose|i: int| 0 <= i < si.len() && si[i] == e;
                    assert(st[i] == e);
                } else {
                    assert(st[si.len() as int] == e);
                }
            }
        }
    }
}

} // verus!
