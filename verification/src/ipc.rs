//! Messages between the interface and the scanning service, one JSON value
//! per line, and the client's side of a scan done by the service.
use vstd::prelude::*;
use crate::scanner::{FileCategory, FileEntry, ScanState, Timestamp};
use crate::text::{chars_are, chars_of, push_char, string_of, trim, trimmed};
use crate::time::{checked_instant, instant};

verus! {

/// What the interface asks the service.
#[derive(Clone, Copy, Debug, PartialEq, Eq, Structural)]
pub enum Request {
    Scan { drive: char },
}

/// A file entry as it travels between the processes.
#[derive(Clone, Debug)]
pub struct FileEntryWire {
    pub path: String,
    pub size_bytes: u64,
    pub extension: String,
    pub last_modified: Option<i64>,
    pub category: String,
}

/// What the service answers.
pub enum Response {
    Accepted,
    Error(String),
    File(FileEntryWire),
    Done,
}

/// The name of a category on the wire (its variant name).
pub open spec fn category_name(c: FileCategory) -> Seq<char> {
    match c {
        FileCategory::Documents => "Documents"@,
        FileCategory::Media => "Media"@,
        FileCategory::Archives => "Archives"@,
        FileCategory::Executables => "Executables"@,
        FileCategory::System => "System"@,
        FileCategory::Temp => "Temp"@,
        FileCategory::DevBuild => "DevBuild"@,
        FileCategory::Other => "Other"@,
    }
}

/// The category a wire name stands for; unknown names stand for Other.
pub open spec fn category_named(name: Seq<char>) -> FileCategory {
    if name == "Documents"@ {
        FileCategory::Documents
    } else if name == "Media"@ {
        FileCategory::Media
    } else if name == "Archives"@ {
        FileCategory::Archives
    } else if name == "Executables"@ {
        FileCategory::Executables
    } else if name == "System"@ {
        FileCategory::System
    } else if name == "Temp"@ {
        FileCategory::Temp
    } else if name == "DevBuild"@ {
        FileCategory::DevBuild
    } else {
        FileCategory::Other
    }
}

/// The wire name of a category.
pub fn category_wire_name(c: FileCategory) -> (s: String)
    ensures
        s@ == category_name(c),
{
    let lit = match c {
        FileCategory::Documents => "Documents",
        FileCategory::Media => "Media",
        FileCategory::Archives => "Archives",
        FileCategory::Executables => "Executables",
        FileCategory::System => "System",
        FileCategory::Temp => "Temp",
        FileCategory::DevBuild => "DevBuild",
        FileCategory::Other => "Other",
    };
    string_of(chars_of(lit).as_slice())
}

/// The category a wire name stands for.
pub fn category_from_name(name: &str) -> (c: FileCategory)
    ensures
        c == category_named(name@),
{
    let v = chars_of(name);
    if chars_are(&v, "Documents") {
        FileCategory::Documents
    } else if chars_are(&v, "Media") {
        FileCategory::Media
    } else if chars_are(&v, "Archives") {
        FileCategory::Archives
    } else if chars_are(&v, "Executables") {
        FileCategory::Executables
    } else if chars_are(&v, "System") {
        FileCategory::System
    } else if chars_are(&v, "Temp") {
        FileCategory::Temp
    } else if chars_are(&v, "DevBuild") {
        FileCategory::DevBuild
    } else {
        FileCategory::Other
    }
}

impl FileEntryWire {
    /// The wire form of an entry: the modification time in whole seconds,
    /// the category by name.
    pub fn from_entry(e: &FileEntry) -> (w: FileEntryWire)
        ensures
            w.path == e.path,
            w.size_bytes == e.size_bytes,
            w.extension == e.extension,
            w.last_modified == match e.last_modified {
                Some(t) => Some(t.secs),
                None => None,
            },
            w.category@ == category_name(e.category),
    {
        FileEntryWire {
            path: e.path.clone(),
            size_bytes: e.size_bytes,
            extension: e.extension.clone(),
            last_modified: match e.last_modified {
                Some(t) => Some(t.secs),
                None => None,
            },
            category: category_wire_name(e.category),
        }
    }

    /// The entry a wire form stands for; a time chrono cannot represent is
    /// dropped, an unknown category name reads as Other.
    pub fn to_entry(&self) -> (e: FileEntry)
        ensures
            e.path == self.path,
            e.size_bytes == self.size_bytes,
            e.extension == self.extension,
            e.last_modified == match self.last_modified {
                Some(s) => checked_instant(s, 0),
                None => None,
            },
            e.category == category_named(self.category@),
    {
        FileEntry {
            path: self.path.clone(),
            size_bytes: self.size_bytes,
            extension: self.extension.clone(),
            last_modified: match self.last_modified {
                Some(s) => instant(s, 0),
                None => None,
            },
            category: category_from_name(self.category.as_str()),
        }
    }
}

/// Law: a category survives the trip to the wire and back.
pub proof fn law_category_round_trip(c: FileCategory)
    ensures
        category_named(category_name(c)) == c,
{
    reveal_strlit("Documents");
    reveal_strlit("Media");
    reveal_strlit("Archives");
    reveal_strlit("Executables");
    reveal_strlit("System");
    reveal_strlit("Temp");
    reveal_strlit("DevBuild");
    reveal_strlit("Other");
    assert("Documents"@.len() != "Media"@.len());
    assert("Documents"@.len() != "Archives"@.len());
    assert("Media"@.len() != "Archives"@.len());
    assert("Documents"@.len() != "Executables"@.len());
    assert("Media"@.len() != "Executables"@.len());
    assert("Archives"@.len() != "Executables"@.len());
    assert("Documents"@.len() != "System"@.len());
    assert("Media"@.len() != "System"@.len());
    assert("Archives"@.len() != "System"@.len());
    assert("Executables"@.len() != "System"@.len());
    assert("Documents"@.len() != "Temp"@.len());
    assert("Media"@.len() != "Temp"@.len());
    assert("Archives"@.len() != "Temp"@.len());
    assert("Executables"@.len() != "Temp"@.len());
    assert("System"@.len() != "Temp"@.len());
    assert("Documents"@.len() != "DevBuild"@.len());
    assert("Media"@.len() != "DevBuild"@.len());
    assert("Archives"@[0] != "DevBuild"@[0]);
    assert("Executables"@.len() != "DevBuild"@.len());
    assert("System"@.len() != "DevBuild"@.len());
    assert("Temp"@.len() != "DevBuild"@.len());
    assert("Documents"@.len() != "Other"@.len());
    assert("Media"@[0] != "Other"@[0]);
    assert("Archives"@.len() != "Other"@.len());
    assert("Executables"@.len() != "Other"@.len());
    assert("System"@.len() != "Other"@.len());
    assert("Temp"@.len() != "Other"@.len());
    assert("DevBuild"@.len() != "Other"@.len());
}

/// Law: an entry sent to the other process and read back keeps its path,
/// size, extension and category; a modification time that chrono accepts
/// comes back as its whole seconds.
pub proof fn law_entry_round_trip(e: FileEntry, w: FileEntryWire, back: FileEntry)
    requires
        w.path == e.path,
        w.size_bytes == e.size_bytes,
        w.extension == e.extension,
        w.last_modified == match e.last_modified {
            Some(t) => Some(t.secs),
            None => None,
        },
        w.category@ == category_name(e.category),
        back.path == w.path,
        back.size_bytes == w.size_bytes,
        back.extension == w.extension,
        back.last_modified == match w.last_modified {
            Some(s) => checked_instant(s, 0),
            None => None,
        },
        back.category == category_named(w.category@),
    ensures
        back.path == e.path,
        back.size_bytes == e.size_bytes,
        back.extension == e.extension,
        back.category == e.category,
        back.last_modified == match e.last_modified {
            Some(t) => checked_instant(t.secs, 0),
            None => None,
        },
        e.last_modified matches Some(t) ==> (crate::time::chrono_accepts(t.secs, t.nanos)
            ==> back.last_modified == Some(Timestamp { secs: t.secs, nanos: 0 })),
{
    law_category_round_trip(e.category);
}

/// The message a received line carries: the line without surrounding
/// whitespace, or nothing when that is empty.
pub open spec fn line_message(line: Seq<char>) -> Option<Seq<char>> {
    if trimmed(line).len() == 0 {
        None
    } else {
        Some(trimmed(line))
    }
}

/// The message a received line carries, if any.
pub fn message_of_line(line: &str) -> (r: Option<String>)
    ensures
        match (r, line_message(line@)) {
            (Some(s), Some(t)) => s@ == t,
            (None, None) => true,
            _ => false,
        },
{
    let t = trim(line);
    if t.as_str().is_empty() {
        None
    } else {
        Some(t)
    }
}

/// The root path of a drive letter, such as `C:\`.
pub open spec fn drive_root(letter: char) -> Seq<char> {
    seq![letter, ':', '\\']
}

/// The root path of a drive letter.
pub fn drive_root_text(letter: char) -> (s: String)
    ensures
        s@ == drive_root(letter),
{
    let mut s = String::new();
    push_char(&mut s, letter);
    push_char(&mut s, ':');
    push_char(&mut s, '\\');
    s
}

/// The file count at which a scan reports its progress.
pub const PROGRESS_EVERY: usize = 50000;

/// What the client does after a reply from the service.
pub enum ServiceStep {
    /// Wait for the next reply; report this many files scanned, if given.
    Continue(Option<u64>),
    /// The scan is complete.
    Finished,
    /// The service failed; the client falls back to scanning itself.
    Failed,
}

/// The client's side of a scan done by the service: the entries received
/// so far.
pub struct ServiceScan {
    pub entries: Vec<FileEntry>,
}

impl ServiceScan {
    /// A scan that has received nothing.
    pub fn new() -> (s: ServiceScan)
        ensures
            s.entries@.len() == 0,
    {
        ServiceScan { entries: Vec::new() }
    }

    /// Takes in one reply: a file is added (and every 50000 files the
    /// count is reported), `Done` finishes, an error fails, an acknowledgement is ignored.
    pub fn step(&mut self, reply: Response) -> (next: ServiceStep)
        requires
            old(self).entries@.len() < usize::MAX,
        ensures
            final(self).entries@ == old(self).entries@ + received(seq![reply]),
            next == match reply {
                Response::File(_) => if final(self).entries@.len() % (PROGRESS_EVERY as nat) == 0 {
                    ServiceStep::Continue(Some(final(self).entries@.len() as u64))
                } else {
                    ServiceStep::Continue(None)
                },
                Response::Done => ServiceStep::Finished,
                Response::Error(_) => ServiceStep::Failed,
                Response::Accepted => ServiceStep::Continue(None),
            },
    {
        match reply {
            Response::File(w) => {
                let e = w.to_entry();
                proof {
                    assert(seq![reply].drop_last() == Seq::<Response>::empty());
                    assert(received(Seq::<Response>::empty()) == Seq::<FileEntry>::empty());
                    assert(e == entry_from_wire(w));
                    assert(received(seq![reply]) == seq![entry_from_wire(w)]);
                }
                self.entries.push(e);
                proof {
                    assert(self.entries@ =~= old(self).entries@ + received(seq![reply]));
                }
                let n = self.entries.len();
                if n % PROGRESS_EVERY == 0 {
                    ServiceStep::Continue(Some(n as u64))
                } else {
                    ServiceStep::Continue(None)
                }
            },
            Response::Done => {
                proof {
                    assert(seq![reply].drop_last() == Seq::<Response>::empty());
                    assert(received(Seq::<Response>::empty()) == Seq::<FileEntry>::empty());
                    assert(self.entries@ =~= old(self).entries@ + received(seq![reply]));
                }
                ServiceStep::Finished
            },
            Response::Error(_) => {
                proof {
                    assert(seq![reply].drop_last() == Seq::<Response>::empty());
                    assert(received(Seq::<Response>::empty()) == Seq::<FileEntry>::empty());
                    assert(self.entries@ =~= old(self).entries@ + received(seq![reply]));
                }
                ServiceStep::Failed
            },
            Response::Accepted => {
                proof {
                    assert(seq![reply].drop_last() == Seq::<Response>::empty());
                    assert(received(Seq::<Response>::empty()) == Seq::<FileEntry>::empty());
                    assert(self.entries@ =~= old(self).entries@ + received(seq![reply]));
                }
                ServiceStep::Continue(None)
            },
        }
    }
}

/// The entry a client makes of a received file (see
/// [`FileEntryWire::to_entry`]).
pub open spec fn entry_from_wire(w: FileEntryWire) -> FileEntry {
    FileEntry {
        path: w.path,
        size_bytes: w.size_bytes,
        extension: w.extension,
        last_modified: match w.last_modified {
            Some(s) => checked_instant(s, 0),
            None => None,
        },
        category: category_named(w.category@),
    }
}

/// The entries a client holds after taking in `replies`: one per file
/// received, in order.
pub open spec fn received(replies: Seq<Response>) -> Seq<FileEntry>
    decreases replies.len(),
{
    if replies.len() == 0 {
        Seq::empty()
    } else {
        let prev = received(replies.drop_last());
        match replies.last() {
            Response::File(w) => prev.push(entry_from_wire(w)),
            _ => prev,
        }
    }
}

/// An entry as it arrives in the other process: its modification time in
/// whole seconds.
pub open spec fn through_wire(e: FileEntry) -> FileEntry {
    FileEntry {
        path: e.path,
        size_bytes: e.size_bytes,
        extension: e.extension,
        last_modified: match e.last_modified {
            Some(t) => checked_instant(t.secs, 0),
            None => None,
        },
        category: e.category,
    }
}

/// Law: after a successful scan by the service, a client that takes in its
/// replies holds every file the service found, in the order found, each as
/// it comes through the wire; the last reply finishes the scan.
pub proof fn law_service_scan_delivers(found: Seq<FileEntry>, replies: Seq<Response>)
    requires
        replies.len() == found.len() + 1,
        replies.last() is Done,
        forall|i: int|
            0 <= i < found.len() ==> (#[trigger] replies[i] matches Response::File(w) && wire_of(w, found[i])),
    ensures
        received(replies) == found.map_values(|e: FileEntry| through_wire(e)),
{
    let n = found.len() as int;
    assert forall|k: int| 0 <= k <= n implies #[trigger] received(replies.take(k)) == found.take(k).map_values(
        |e: FileEntry| through_wire(e),
    ) by {
        lemma_received_prefix(found, replies, k);
    }
    assert(replies.take(n) == replies.drop_last());
    assert(received(replies) == received(replies.take(n)));
    assert(found.take(n) == found);
}

proof fn lemma_received_prefix(found: Seq<FileEntry>, replies: Seq<Response>, k: int)
    requires
        replies.len() == found.len() + 1,
        0 <= k <= found.len(),
        forall|i: int|
            0 <= i < found.len() ==> (#[trigger] replies[i] matches Response::File(w) && wire_of(w, found[i])),
    ensures
        received(replies.take(k)) == found.take(k).map_values(|e: FileEntry| through_wire(e)),
    decreases k,
{
    if k == 0 {
        assert(replies.take(0) == Seq::<Response>::empty());
        assert(found.take(0).map_values(|e: FileEntry| through_wire(e)) == Seq::<FileEntry>::empty());
    } else {
        lemma_received_prefix(found, replies, k - 1);
        assert(replies.take(k).drop_last() == replies.take(k - 1));
        assert(replies.take(k).last() == replies[k - 1]);
        let e = found[k - 1];
        if let Response::File(w) = replies[k - 1] {
            law_category_round_trip(e.category);
            assert(entry_from_wire(w) == through_wire(e));
        }
        assert(found.take(k).map_values(|e: FileEntry| through_wire(e)) == found.take(k - 1).map_values(
            |e: FileEntry| through_wire(e),
        ).push(through_wire(e)));
    }
}

/// `w` is the wire form of `e` (see [`FileEntryWire::from_entry`]).
pub open spec fn wire_of(w: FileEntryWire, e: FileEntry) -> bool {
    &&& w.path == e.path
    &&& w.size_bytes == e.size_bytes
    &&& w.extension == e.extension
    &&& w.last_modified == match e.last_modified {
        Some(t) => Some(t.secs),
        None => None,
    }
    &&& w.category@ == category_name(e.category)
}

/// What the service answers a scan request with: each file found, then
/// `Done`; or a single error when its scan of the table failed.
pub fn scan_replies(result: Option<Vec<FileEntry>>) -> (r: Vec<Response>)
    ensures
        match result {
            None => r@.len() == 1 && (r@[0] matches Response::Error(m) && m@ == "MFT scan failed"@),
            Some(v) => {
                &&& r@.len() == v@.len() + 1
                &&& r@.last() is Done
                &&& forall|i: int|
                    0 <= i < v@.len() ==> (#[trigger] r@[i] matches Response::File(w) && wire_of(
                        w,
                        v@[i],
                    ))
            },
        },
{
    match result {
        None => {
            let mut r: Vec<Response> = Vec::new();
            r.push(Response::Error(string_of(chars_of("MFT scan failed").as_slice())));
            r
        },
        Some(v) => {
            let mut r: Vec<Response> = Vec::new();
            for i in 0..v.len()
                invariant
                    r@.len() == i,
                    forall|j: int|
                        0 <= j < i ==> (#[trigger] r@[j] matches Response::File(w) && wire_of(w, v@[j])),
            {
                r.push(Response::File(FileEntryWire::from_entry(&v[i])));
            }
            r.push(Response::Done);
            r
        },
    }
}

} // verus!
