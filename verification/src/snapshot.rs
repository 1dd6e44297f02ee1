//! Saved summaries of a scan, for comparing drives over time.
use vstd::prelude::*;
use crate::scanner::{ScanResult, Timestamp};
use crate::time::{chrono_accepts, stamp, stamp_text};
use crate::text::{chars_of, string_of};
use crate::textmap::{distinct_names, lemma_records_map, records_map, TextMap};

verus! {

/// What the chat model advises for a file.
#[derive(Clone, Copy, Debug, PartialEq, Eq, Structural)]
pub enum AiVerdict {
    SafeToDelete,
    Review,
    Keep,
}

/// The model's advice about one file, with its reason.
#[derive(Clone, Debug)]
pub struct AiSuggestion {
    pub path: String,
    pub verdict: AiVerdict,
    pub reason: String,
}

/// How a verdict is written in a snapshot.
pub open spec fn verdict_label(v: AiVerdict) -> Seq<char> {
    match v {
        AiVerdict::SafeToDelete => "safe_to_delete"@,
        AiVerdict::Review => "review"@,
        AiVerdict::Keep => "keep"@,
    }
}

/// The label of a verdict.
pub fn verdict_text(v: AiVerdict) -> (s: String)
    ensures
        s@ == verdict_label(v),
{
    let lit = match v {
        AiVerdict::SafeToDelete => "safe_to_delete",
        AiVerdict::Review => "review",
        AiVerdict::Keep => "keep",
    };
    string_of(chars_of(lit).as_slice())
}

/// One of the largest files in a snapshot, with the verdict given for it.
#[derive(Clone, Debug)]
pub struct SnapshotFileEntry {
    pub path: String,
    pub size_bytes: u64,
    pub verdict: Option<String>,
}

/// A saved summary of a scan.
pub struct Snapshot {
    pub timestamp: String,
    pub drive: String,
    pub total_bytes: u64,
    pub file_count: u64,
    pub largest_files: Vec<SnapshotFileEntry>,
    pub verdicts: TextMap<String>,
}

/// The verdict labels map holds the same paths as the verdicts, each with
/// its verdict's label.
pub open spec fn labels_match(labels: Map<Seq<char>, String>, verdicts: Map<Seq<char>, AiVerdict>) -> bool {
    &&& forall|k: Seq<char>| #[trigger] labels.contains_key(k) <==> verdicts.contains_key(k)
    &&& forall|k: Seq<char>| #[trigger] labels.contains_key(k) ==> labels[k]@ == verdict_label(verdicts[k])
}

/// The snapshot entry of a file: its path and size, and the label of its
/// verdict if it has one.
pub open spec fn entry_matches(
    s: SnapshotFileEntry,
    path: Seq<char>,
    size: u64,
    verdicts: Map<Seq<char>, AiVerdict>,
) -> bool {
    &&& s.path@ == path
    &&& s.size_bytes == size
    &&& if verdicts.contains_key(path) {
        s.verdict matches Some(l) && l@ == verdict_label(verdicts[path])
    } else {
        s.verdict is None
    }
}

/// `s` summarises the scan `result` with the verdicts given: drive, total,
/// the largest files with their verdicts, and all verdicts as labels.
pub open spec fn summarises(s: Snapshot, result: ScanResult, verdicts: Map<Seq<char>, AiVerdict>) -> bool {
    &&& s.drive@ == result.drive@
    &&& s.total_bytes == result.total_bytes
    &&& s.file_count == result.largest_files@.len()
    &&& s.largest_files@.len() == result.largest_files@.len()
    &&& forall|i: int|
        0 <= i < s.largest_files@.len() ==> entry_matches(
            #[trigger] s.largest_files@[i],
            result.largest_files@[i].path@,
            result.largest_files@[i].size_bytes,
            verdicts,
        )
    &&& labels_match(s.verdicts.view(), verdicts)
}

impl Snapshot {
    /// The snapshot of a scan taken at the instant `now`, stamped with it
    /// as `YYYY-MM-DD_hh-mm-ss` (UTC).
    pub fn from_scan_result(result: &ScanResult, verdicts: &TextMap<AiVerdict>, now: Timestamp) -> (s:
        Snapshot)
        requires
            chrono_accepts(now.secs, now.nanos),
        ensures
            s.timestamp@ == stamp_text(now.secs, now.nanos),
            summarises(s, *result, verdicts.view()),
    {
        let text = match stamp(now) {
            Some(t) => t,
            None => String::new(),
        };
        Self::stamped(result, verdicts, text)
    }

    /// The snapshot of a scan stamped with `timestamp`.
    fn stamped(result: &ScanResult, verdicts: &TextMap<AiVerdict>, timestamp: String) -> (s: Snapshot)
        ensures
            s.timestamp == timestamp,
            summarises(s, *result, verdicts.view()),
    {
        verdicts.records_agree();
        let ghost pairs = verdicts.pairs();
        let mut labels: TextMap<String> = TextMap::new();
        let n = verdicts.len();
        let mut i: usize = 0;
        proof {
            assert(pairs.take(0) == Seq::<(String, AiVerdict)>::empty());
        }
        while i < n
            invariant
                i <= n,
                n == pairs.len(),
                pairs == verdicts.pairs(),
                distinct_names(pairs),
                labels_match(labels.view(), records_map(pairs.take(i as int))),
            decreases n - i,
        {
            let (k, v) = verdicts.entry(i);
            proof {
                assert(pairs.take(i + 1).drop_last() == pairs.take(i as int));
                assert(pairs.take(i + 1).last() == pairs[i as int]);
            }
            labels.insert(k.clone(), verdict_text(*v));
            i = i + 1;
        }
        proof {
            assert(pairs.take(n as int) == pairs);
        }
        let files = &result.largest_files;
        let mut largest: Vec<SnapshotFileEntry> = Vec::new();
        for j in 0..files.len()
            invariant
                largest@.len() == j,
                forall|m: int|
                    0 <= m < j ==> entry_matches(
                        #[trigger] largest@[m],
                        files@[m].path@,
                        files@[m].size_bytes,
                        verdicts.view(),
                    ),
        {
            let e = &files[j];
            let verdict = match verdicts.get(e.path.as_str()) {
                Some(v) => Some(verdict_text(*v)),
                None => None,
            };
            largest.push(SnapshotFileEntry { path: e.path.clone(), size_bytes: e.size_bytes, verdict });
        }
        Snapshot {
            timestamp,
            drive: result.drive.clone(),
            total_bytes: result.total_bytes,
            file_count: files.len() as u64,
            largest_files: largest,
            verdicts: labels,
        }
    }

    /// The name of the file the snapshot is saved in.
    pub fn file_name(&self) -> (s: String)
        ensures
            s@ == "snapshot_"@ + self.timestamp@ + ".json"@,
    {
        let mut s = string_of(chars_of("snapshot_").as_slice());
        s.append(self.timestamp.as_str());
        s.append(".json");
        s
    }
}

} // verus!
