//! What a drive scan finds, and the insights computed from it.
use vstd::prelude::*;
use crate::paths::{components, components_of, is_sep};
use crate::prefetch::PrefetchIndex;
use crate::text::{chars_are, chars_of, contains_seq, contains_str, lowercase, to_lower, to_upper, uppercase};
use crate::time::days_before;

verus! {

/// The kind of file, judged from its path and extension.
#[derive(Clone, Copy, Debug, PartialEq, Eq, Hash, Structural)]
pub enum FileCategory {
    Documents,
    Media,
    Archives,
    Executables,
    System,
    Temp,
    DevBuild,
    Other,
}

/// The label shown for a category.
pub open spec fn category_label(c: FileCategory) -> Seq<char> {
    match c {
        FileCategory::Documents => "Documents"@,
        FileCategory::Media => "Media"@,
        FileCategory::Archives => "Archives"@,
        FileCategory::Executables => "Executables"@,
        FileCategory::System => "System"@,
        FileCategory::Temp => "Temp"@,
        FileCategory::DevBuild => "Dev/Build"@,
        FileCategory::Other => "Other"@,
    }
}

impl FileCategory {
    /// The label shown for the category.
    pub fn as_str(&self) -> (s: &'static str)
        ensures
            s@ == category_label(*self),
    {
        match self {
            FileCategory::Documents => "Documents",
            FileCategory::Media => "Media",
            FileCategory::Archives => "Archives",
            FileCategory::Executables => "Executables",
            FileCategory::System => "System",
            FileCategory::Temp => "Temp",
            FileCategory::DevBuild => "Dev/Build",
            FileCategory::Other => "Other",
        }
    }
}

/// Path fragments (in lowercase) that mark temporary files.
pub open spec fn temp_markers() -> Seq<Seq<char>> {
    seq!["\\temp\\"@, "/temp/"@, "\\tmp\\"@, "\\appdata\\local\\temp"@, "\\cache\\"@]
}

/// Path fragments (in lowercase) that mark system files.
pub open spec fn system_markers() -> Seq<Seq<char>> {
    seq!["\\windows\\"@, "\\program files"@, "\\programdata\\"@]
}

/// Path fragments (in lowercase) that mark development and build output.
pub open spec fn dev_markers() -> Seq<Seq<char>> {
    seq![
        "\\node_modules\\"@,
        "\\.git\\"@,
        "\\target\\"@,
        "\\build\\"@,
        "\\obj\\"@,
        "\\.next\\"@,
        "\\dist\\"@,
    ]
}

/// Extensions (in lowercase) of documents.
pub open spec fn document_exts() -> Seq<Seq<char>> {
    seq!["pdf"@, "doc"@, "docx"@, "xls"@, "xlsx"@, "ppt"@, "pptx"@, "txt"@, "rtf"@, "odt"@]
}

/// Extensions (in lowercase) of media files.
pub open spec fn media_exts() -> Seq<Seq<char>> {
    seq![
        "mp4"@,
        "mkv"@,
        "avi"@,
        "mov"@,
        "wmv"@,
        "mp3"@,
        "flac"@,
        "wav"@,
        "jpg"@,
        "jpeg"@,
        "png"@,
        "gif"@,
        "webp"@,
        "bmp"@,
        "raw"@,
    ]
}

/// Extensions (in lowercase) of archives.
pub open spec fn archive_exts() -> Seq<Seq<char>> {
    seq!["zip"@, "rar"@, "7z"@, "tar"@, "gz"@, "bz2"@, "xz"@, "iso"@]
}

/// Extensions (in lowercase) of executables.
pub open spec fn executable_exts() -> Seq<Seq<char>> {
    seq!["exe"@, "dll"@, "msi"@]
}

/// One of `needles` occurs in `hay`.
pub open spec fn contains_any(hay: Seq<char>, needles: Seq<Seq<char>>) -> bool {
    exists|j: int| 0 <= j < needles.len() && contains_seq(hay, #[trigger] needles[j])
}

/// The category of a file from its lowercased path and lowercased extension:
/// temporary locations first, then system locations, then development
/// output, then the extension.
pub open spec fn category_for(lower_path: Seq<char>, lower_ext: Seq<char>) -> FileCategory {
    if contains_any(lower_path, temp_markers()) {
        FileCategory::Temp
    } else if contains_any(lower_path, system_markers()) {
        FileCategory::System
    } else if contains_any(lower_path, dev_markers()) {
        FileCategory::DevBuild
    } else if document_exts().contains(lower_ext) {
        FileCategory::Documents
    } else if media_exts().contains(lower_ext) {
        FileCategory::Media
    } else if archive_exts().contains(lower_ext) {
        FileCategory::Archives
    } else if executable_exts().contains(lower_ext) {
        FileCategory::Executables
    } else {
        FileCategory::Other
    }
}

/// Law: a file in a temporary location is Temp, whatever other markers or
/// extension it has: a lowercased path holding `\temp\`, `/temp/`,
/// `\tmp\`, `\appdata\local\temp` or `\cache\` is classified Temp; a
/// file is classified System only when its path holds none of these and
/// holds `\windows\`, `\program files` or `\programdata\`.
pub proof fn law_temp_before_system(lower_path: Seq<char>, lower_ext: Seq<char>)
    ensures
        contains_seq(lower_path, "\\temp\\"@) || contains_seq(lower_path, "/temp/"@) || contains_seq(
            lower_path,
            "\\tmp\\"@,
        ) || contains_seq(lower_path, "\\appdata\\local\\temp"@) || contains_seq(lower_path, "\\cache\\"@)
            ==> category_for(lower_path, lower_ext) == FileCategory::Temp,
        category_for(lower_path, lower_ext) == FileCategory::System ==> {
            &&& !contains_seq(lower_path, "\\temp\\"@)
            &&& !contains_seq(lower_path, "/temp/"@)
            &&& !contains_seq(lower_path, "\\tmp\\"@)
            &&& !contains_seq(lower_path, "\\appdata\\local\\temp"@)
            &&& !contains_seq(lower_path, "\\cache\\"@)
            &&& (contains_seq(lower_path, "\\windows\\"@) || contains_seq(lower_path, "\\program files"@)
                || contains_seq(lower_path, "\\programdata\\"@))
        },
{
    let t = temp_markers();
    let y = system_markers();
    assert(t[0] == "\\temp\\"@ && t[1] == "/temp/"@ && t[2] == "\\tmp\\"@ && t[3]
        == "\\appdata\\local\\temp"@ && t[4] == "\\cache\\"@);
    assert(y[0] == "\\windows\\"@ && y[1] == "\\program files"@ && y[2] == "\\programdata\\"@);
    if contains_seq(lower_path, "\\temp\\"@) {
        assert(contains_seq(lower_path, t[0]));
    }
    if contains_seq(lower_path, "/temp/"@) {
        assert(contains_seq(lower_path, t[1]));
    }
    if contains_seq(lower_path, "\\tmp\\"@) {
        assert(contains_seq(lower_path, t[2]));
    }
    if contains_seq(lower_path, "\\appdata\\local\\temp"@) {
        assert(contains_seq(lower_path, t[3]));
    }
    if contains_seq(lower_path, "\\cache\\"@) {
        assert(contains_seq(lower_path, t[4]));
    }
    if contains_any(lower_path, y) {
        let j = choose|j: int| 0 <= j < y.len() && contains_seq(lower_path, #[trigger] y[j]);
        assert(j == 0 || j == 1 || j == 2);
    }
}

/// Whether one of the literals occurs in `hay`.
fn contains_any_of(hay: &Vec<char>, needles: &[&str]) -> (b: bool)
    ensures
        b == exists|j: int| 0 <= j < needles@.len() && contains_seq(hay@, (#[trigger] needles@[j])@),
{
    let mut j: usize = 0;
    while j < needles.len()
        invariant
            j <= needles@.len(),
            forall|k: int| 0 <= k < j ==> !contains_seq(hay@, (#[trigger] needles@[k])@),
        decreases needles@.len() - j,
    {
        if contains_str(hay, needles[j]) {
            return true;
        }
        j = j + 1;
    }
    false
}

/// Whether `v` spells one of the literals.
fn is_one_of(v: &Vec<char>, lits: &[&str]) -> (b: bool)
    ensures
        b == exists|j: int| 0 <= j < lits@.len() && v@ == (#[trigger] lits@[j])@,
{
    let mut j: usize = 0;
    while j < lits.len()
        invariant
            j <= lits@.len(),
            forall|k: int| 0 <= k < j ==> v@ != (#[trigger] lits@[k])@,
        decreases lits@.len() - j,
    {
        if chars_are(v, lits[j]) {
            return true;
        }
        j = j + 1;
    }
    false
}

/// The category of a file whose path and extension are already lowercased.
pub fn category_of_lowercase(lower_path: &str, lower_ext: &str) -> (c: FileCategory)
    ensures
        c == category_for(lower_path@, lower_ext@),
{
    let p = chars_of(lower_path);
    let e = chars_of(lower_ext);
    let temp = ["\\temp\\", "/temp/", "\\tmp\\", "\\appdata\\local\\temp", "\\cache\\"];
    let system = ["\\windows\\", "\\program files", "\\programdata\\"];
    let dev = ["\\node_modules\\", "\\.git\\", "\\target\\", "\\build\\", "\\obj\\", "\\.next\\", "\\dist\\"];
    let docs = ["pdf", "doc", "docx", "xls", "xlsx", "ppt", "pptx", "txt", "rtf", "odt"];
    let media = [
        "mp4", "mkv", "avi", "mov", "wmv", "mp3", "flac", "wav", "jpg", "jpeg", "png", "gif", "webp",
        "bmp", "raw",
    ];
    let archives = ["zip", "rar", "7z", "tar", "gz", "bz2", "xz", "iso"];
    let exes = ["exe", "dll", "msi"];
    proof {
        assert(temp@.map_values(|s: &str| s@) == temp_markers());
        assert(system@.map_values(|s: &str| s@) == system_markers());
        assert(dev@.map_values(|s: &str| s@) == dev_markers());
        assert(docs@.map_values(|s: &str| s@) == document_exts());
        assert(media@.map_values(|s: &str| s@) == media_exts());
        assert(archives@.map_values(|s: &str| s@) == archive_exts());
        assert(exes@.map_values(|s: &str| s@) == executable_exts());
    }
    if contains_any_of(&p, &temp) {
        proof { lemma_any_via_map(p@, temp@); }
        FileCategory::Temp
    } else if contains_any_of(&p, &system) {
        proof {
            lemma_any_via_map(p@, temp@);
            lemma_any_via_map(p@, system@);
        }
        FileCategory::System
    } else {
        proof {
            lemma_any_via_map(p@, temp@);
            lemma_any_via_map(p@, system@);
            lemma_any_via_map(p@, dev@);
            lemma_one_of_via_map(e@, docs@);
            lemma_one_of_via_map(e@, media@);
            lemma_one_of_via_map(e@, archives@);
            lemma_one_of_via_map(e@, exes@);
        }
        if contains_any_of(&p, &dev) {
            FileCategory::DevBuild
        } else if is_one_of(&e, &docs) {
            FileCategory::Documents
        } else if is_one_of(&e, &media) {
            FileCategory::Media
        } else if is_one_of(&e, &archives) {
            FileCategory::Archives
        } else if is_one_of(&e, &exes) {
            FileCategory::Executables
        } else {
            FileCategory::Other
        }
    }
}

proof fn lemma_any_via_map(hay: Seq<char>, lits: Seq<&str>)
    ensures
        contains_any(hay, lits.map_values(|s: &str| s@)) == exists|j: int|
            0 <= j < lits.len() && contains_seq(hay, (#[trigger] lits[j])@),
{
    let m = lits.map_values(|s: &str| s@);
    if contains_any(hay, m) {
        let j = choose|j: int| 0 <= j < m.len() && contains_seq(hay, #[trigger] m[j]);
        assert(contains_seq(hay, lits[j]@));
    }
    if exists|j: int| 0 <= j < lits.len() && contains_seq(hay, (#[trigger] lits[j])@) {
        let j = choose|j: int| 0 <= j < lits.len() && contains_seq(hay, (#[trigger] lits[j])@);
        assert(contains_seq(hay, m[j]));
    }
}

proof fn lemma_one_of_via_map(v: Seq<char>, lits: Seq<&str>)
    ensures
        lits.map_values(|s: &str| s@).contains(v) == exists|j: int|
            0 <= j < lits.len() && v == (#[trigger] lits[j])@,
{
    let m = lits.map_values(|s: &str| s@);
    if m.contains(v) {
        let j = choose|j: int| 0 <= j < m.len() && m[j] == v;
        assert(v == lits[j]@);
    }
    if exists|j: int| 0 <= j < lits.len() && v == (#[trigger] lits[j])@ {
        let j = choose|j: int| 0 <= j < lits.len() && v == (#[trigger] lits[j])@;
        assert(m[j] == v);
    }
}

/// The category of a file from its path text and its extension (as std's
/// `Path::extension` gives it, or empty): both are lowercased first.
pub fn classify_file(path: &str, extension: &str) -> (c: FileCategory)
    ensures
        c == category_for(lowercase(path@), lowercase(extension@)),
{
    let lp = to_lower(path);
    let le = to_lower(extension);
    category_of_lowercase(lp.as_str(), le.as_str())
}

/// Names of components that a scan never enters or counts.
pub open spec fn skip_names() -> Seq<Seq<char>> {
    seq!["$RECYCLE.BIN"@, "System Volume Information"@, "pagefile.sys"@, "hiberfil.sys"@]
}

/// Names of components under which executables are not reported.
pub open spec fn skip_exe_names() -> Seq<Seq<char>> {
    seq!["Windows"@, "Program Files"@, "Program Files (x86)"@]
}

/// Some component of the path is one of `names`.
pub open spec fn has_component_in(path: Seq<char>, sep: char, names: Seq<Seq<char>>) -> bool {
    exists|i: int|
        0 <= i < components(path, sep).len() && names.contains(#[trigger] components(path, sep)[i])
}

/// Whether some component of `path` is one of the literals.
fn has_component_among(path: &str, sep: char, names: &[&str]) -> (b: bool)
    ensures
        b == has_component_in(path@, sep, names@.map_values(|s: &str| s@)),
{
    let v = chars_of(path);
    let parts = components_of(&v, sep);
    let ghost pv = parts@.map_values(|x: Vec<char>| x@);
    let ghost nv = names@.map_values(|s: &str| s@);
    let mut i: usize = 0;
    while i < parts.len()
        invariant
            i <= parts.len(),
            pv == parts@.map_values(|x: Vec<char>| x@),
            pv == components(path@, sep),
            nv == names@.map_values(|s: &str| s@),
            forall|k: int| 0 <= k < i ==> !nv.contains(#[trigger] pv[k]),
        decreases parts.len() - i,
    {
        let found = is_one_of(&parts[i], names);
        proof {
            assert(parts@[i as int]@ == pv[i as int]);
            lemma_one_of_via_map(pv[i as int], names@);
        }
        if found {
            return true;
        }
        i = i + 1;
    }
    false
}

/// The path passes through a recycle bin, the volume information folder, or
/// names the page or hibernation file.
pub fn should_skip(path: &str, sep: char) -> (b: bool)
    ensures
        b == has_component_in(path@, sep, skip_names()),
{
    let names = ["$RECYCLE.BIN", "System Volume Information", "pagefile.sys", "hiberfil.sys"];
    proof {
        assert(names@.map_values(|s: &str| s@) == skip_names());
    }
    has_component_among(path, sep, &names)
}

/// The path lies under a Windows or Program Files folder.
pub fn should_skip_exe_path(path: &str, sep: char) -> (b: bool)
    ensures
        b == has_component_in(path@, sep, skip_exe_names()),
{
    let names = ["Windows", "Program Files", "Program Files (x86)"];
    proof {
        assert(names@.map_values(|s: &str| s@) == skip_exe_names());
    }
    has_component_among(path, sep, &names)
}


/// A point in time: whole seconds since the Unix epoch and the nanoseconds
/// past them (up to two seconds' worth during a leap second).
#[derive(Clone, Copy, Debug, PartialEq, Eq, Structural)]
pub struct Timestamp {
    pub secs: i64,
    pub nanos: u32,
}

/// `a` comes strictly before `b`.
pub open spec fn is_earlier(a: Timestamp, b: Timestamp) -> bool {
    a.secs < b.secs || (a.secs == b.secs && a.nanos < b.nanos)
}

impl Timestamp {
    /// Whether `self` comes strictly before `other`.
    pub fn is_before(&self, other: &Timestamp) -> (b: bool)
        ensures
            b == is_earlier(*self, *other),
    {
        self.secs < other.secs || (self.secs == other.secs && self.nanos < other.nanos)
    }
}

/// One file found by a scan.
#[derive(Clone, Debug)]
pub struct FileEntry {
    pub path: String,
    pub size_bytes: u64,
    pub extension: String,
    pub last_modified: Option<Timestamp>,
    pub category: FileCategory,
}

impl FileEntry {
    /// A copy of the entry.
    pub fn duplicate(&self) -> (r: FileEntry)
        ensures
            r == *self,
    {
        FileEntry {
            path: self.path.clone(),
            size_bytes: self.size_bytes,
            extension: self.extension.clone(),
            last_modified: self.last_modified,
            category: self.category,
        }
    }
}

/// The modification time of a scanned file: seconds and nanoseconds since
/// the Unix epoch when the file system gives a time after the epoch, taken
/// as an instant if chrono represents it.
pub open spec fn modified_instant(modified: Option<(u64, u32)>) -> Option<Timestamp> {
    match modified {
        Some((secs, nanos)) => crate::time::checked_instant(secs as i64, nanos),
        None => None,
    }
}

/// The entry of a file found by a drive walk: its category from its path
/// and extension, and its modification time.
pub fn scanned_entry(path: String, size_bytes: u64, extension: String, modified: Option<(u64, u32)>) -> (e:
    FileEntry)
    ensures
        e.path == path,
        e.size_bytes == size_bytes,
        e.extension == extension,
        e.last_modified == modified_instant(modified),
        e.category == category_for(lowercase(path@), lowercase(extension@)),
{
    let category = classify_file(path.as_str(), extension.as_str());
    let last_modified = match modified {
        Some((secs, nanos)) => crate::time::timestamp_from_unix(secs, nanos),
        None => None,
    };
    FileEntry { path, size_bytes, extension, last_modified, category }
}

/// Copies of all entries, in order.
pub fn duplicate_entries(v: &Vec<FileEntry>) -> (r: Vec<FileEntry>)
    ensures
        r@ == v@,
{
    let mut r: Vec<FileEntry> = Vec::new();
    for i in 0..v.len()
        invariant
            r@ == v@.take(i as int),
    {
        r.push(v[i].duplicate());
        assert(v@.take(i + 1) == v@.take(i as int).push(v@[i as int]));
    }
    assert(v@.take(v@.len() as int) == v@);
    r
}

/// Progress of a running scan, shared with the interface.
#[derive(Clone, Debug)]
pub struct ScanState {
    pub files_scanned: u64,
    pub is_done: bool,
    pub error: Option<String>,
}

impl Default for ScanState {
    fn default() -> (s: ScanState)
        ensures
            s.files_scanned == 0,
            !s.is_done,
            s.error is None,
    {
        ScanState { files_scanned: 0, is_done: false, error: None }
    }
}

/// Bytes and files with one extension.
#[derive(Clone, Debug)]
pub struct ExtensionStats {
    pub extension: String,
    pub total_bytes: u64,
    pub file_count: u64,
}

/// Bytes and files under one top-level folder.
#[derive(Clone, Debug)]
pub struct FolderStats {
    pub path: String,
    pub total_bytes: u64,
    pub file_count: u64,
}

/// Bytes and files in one category.
#[derive(Clone, Debug)]
pub struct CategoryStats {
    pub category: FileCategory,
    pub total_bytes: u64,
    pub file_count: u64,
}

/// Everything a drive scan reports.
#[derive(Clone, Debug)]
pub struct ScanResult {
    pub drive: String,
    pub entries: Vec<FileEntry>,
    pub by_extension: Vec<ExtensionStats>,
    pub by_folder: Vec<FolderStats>,
    pub by_category: Vec<CategoryStats>,
    pub largest_files: Vec<FileEntry>,
    pub stale_files: Vec<FileEntry>,
    pub total_bytes: u64,
}


/// `s` without its trailing '\' and '/' characters.
pub open spec fn trim_trailing_seps(s: Seq<char>) -> Seq<char>
    decreases s.len(),
{
    if s.len() > 0 && (s.last() == '\\' || s.last() == '/') {
        trim_trailing_seps(s.drop_last())
    } else {
        s
    }
}

/// The drive letter of a path such as `C:` or `C:\`: the first character,
/// when the path without trailing separators is at least two characters
/// long and ends with ':'.
pub open spec fn drive_letter_of(path: Seq<char>) -> Option<char> {
    let t = trim_trailing_seps(path);
    if t.len() >= 2 && t.last() == ':' {
        Some(t[0])
    } else {
        None
    }
}

/// The drive letter of a drive root path, if it is one.
pub fn get_drive_letter(path: &str) -> (r: Option<char>)
    ensures
        r == drive_letter_of(path@),
{
    let v = chars_of(path);
    let mut n = v.len();
    proof {
        assert(v@.take(n as int) == v@);
    }
    while n > 0 && (v[n - 1] == '\\' || v[n - 1] == '/')
        invariant
            n <= v.len(),
            trim_trailing_seps(v@) == trim_trailing_seps(v@.take(n as int)),
        decreases n,
    {
        proof {
            assert(v@.take(n as int).drop_last() == v@.take(n - 1));
        }
        n = n - 1;
    }
    proof {
        if n > 0 {
            assert(v@.take(n as int).last() == v@[n - 1]);
        }
        assert(trim_trailing_seps(v@.take(n as int)) == v@.take(n as int));
    }
    if n >= 2 && v[n - 1] == ':' {
        Some(v[0])
    } else {
        None
    }
}

/// A large file found by the big-files scan.
#[derive(Clone, Debug)]
pub struct BigFileEntry {
    pub path: String,
    pub size_bytes: u64,
}

/// (path, size) of each file of `files` at least `min_bytes` large, in order.
pub open spec fn big_files_of(files: Seq<FileEntry>, min_bytes: nat) -> Seq<(Seq<char>, u64)>
    decreases files.len(),
{
    if files.len() == 0 {
        Seq::empty()
    } else if files.last().size_bytes >= min_bytes {
        big_files_of(files.drop_last(), min_bytes).push((files.last().path@, files.last().size_bytes))
    } else {
        big_files_of(files.drop_last(), min_bytes)
    }
}

/// Law: the big files are, in order, exactly the listed files of at least
/// `min_bytes`: every such file is in the result, nothing else is, and the
/// result holds as many entries as there are such files.
pub proof fn law_big_files(files: Seq<FileEntry>, min_bytes: nat)
    ensures
        forall|i: int|
            0 <= i < files.len() && (#[trigger] files[i]).size_bytes >= min_bytes ==> big_files_of(
                files,
                min_bytes,
            ).contains((files[i].path@, files[i].size_bytes)),
        forall|k: int|
            0 <= k < big_files_of(files, min_bytes).len() ==> (#[trigger] big_files_of(files, min_bytes)[k]).1
                >= min_bytes && exists|i: int|
                0 <= i < files.len() && (files[i].path@, files[i].size_bytes) == big_files_of(
                    files,
                    min_bytes,
                )[k],
        big_files_of(files, min_bytes).len() == files.filter(|e: FileEntry| e.size_bytes >= min_bytes).len(),
    decreases files.len(),
{
    reveal(Seq::filter);
    if files.len() > 0 {
        let init = files.drop_last();
        law_big_files(init, min_bytes);
        let r = big_files_of(files, min_bytes);
        let r0 = big_files_of(init, min_bytes);
        assert forall|i: int|
            0 <= i < files.len() && (#[trigger] files[i]).size_bytes >= min_bytes implies r.contains(
                (files[i].path@, files[i].size_bytes),
            ) by {
            if i < init.len() {
                assert(init[i] == files[i]);
                let k = choose|k: int| 0 <= k < r0.len() && r0[k] == (init[i].path@, init[i].size_bytes);
                assert(r[k] == r0[k]);
            } else {
                assert(files[i] == files.last());
                assert(r[r.len() - 1] == (files.last().path@, files.last().size_bytes));
            }
        }
        assert forall|k: int| 0 <= k < r.len() implies (#[trigger] r[k]).1 >= min_bytes && exists|i: int|
            0 <= i < files.len() && (files[i].path@, files[i].size_bytes) == r[k] by {
            if k < r0.len() {
                assert(r[k] == r0[k]);
                let i = choose|i: int| 0 <= i < init.len() && (init[i].path@, init[i].size_bytes) == r0[k];
                assert(files[i] == init[i]);
            } else {
                assert(files[files.len() - 1] == files.last());
            }
        }
    }
}

/// Big-file entries as (path, size).
pub open spec fn big_view(v: Seq<BigFileEntry>) -> Seq<(Seq<char>, u64)> {
    v.map_values(|b: BigFileEntry| (b.path@, b.size_bytes))
}

/// The large files of a drive scan: among its largest files, those of at
/// least `min_size_mb` mebibytes, in the same order; nothing when the scan
/// failed.
pub fn scan_big_files(scan: Option<ScanResult>, min_size_mb: u64) -> (r: Vec<BigFileEntry>)
    requires
        min_size_mb * 1048576 <= u64::MAX,
    ensures
        big_view(r@) == match scan {
            Some(res) => big_files_of(res.largest_files@, (min_size_mb * 1048576) as nat),
            None => Seq::empty(),
        },
{
    match scan {
        Some(result) => {
            let min_bytes = min_size_mb * 1024 * 1024;
            let files = &result.largest_files;
            let mut r: Vec<BigFileEntry> = Vec::new();
            for i in 0..files.len()
                invariant
                    min_bytes == min_size_mb * 1048576,
                    big_view(r@) == big_files_of(files@.take(i as int), min_bytes as nat),
            {
                proof {
                    assert(files@.take(i + 1).drop_last() == files@.take(i as int));
                    assert(files@.take(i + 1).last() == files@[i as int]);
                }
                if files[i].size_bytes >= min_bytes {
                    let ghost r0 = r@;
                    let item = BigFileEntry { path: files[i].path.clone(), size_bytes: files[i].size_bytes };
                    r.push(item);
                    proof {
                        assert(r@ == r0.push(item));
                        assert(big_view(r@) =~= big_view(r0).push((item.path@, item.size_bytes)));
                    }
                }
            }
            proof {
                assert(files@.take(files@.len() as int) == files@);
            }
            r
        },
        None => Vec::new(),
    }
}

/// An executable found by the unused-apps scan.
#[derive(Clone, Debug)]
pub struct ExeEntry {
    pub path: String,
    pub size_bytes: u64,
    pub last_modified: Option<Timestamp>,
    pub last_run: Option<Timestamp>,
}

/// The character in ASCII lowercase.
pub open spec fn ascii_lower(c: char) -> char {
    if 'A' <= c && c <= 'Z' {
        ((c as u32) + 32) as char
    } else {
        c
    }
}

/// The extension is "exe" in any ASCII case.
pub open spec fn is_exe_ext(ext: Seq<char>) -> bool {
    ext.len() == 3 && ascii_lower(ext[0]) == 'e' && ascii_lower(ext[1]) == 'x' && ascii_lower(
        ext[2],
    ) == 'e'
}

fn lower_ascii(c: char) -> (r: char)
    ensures
        r == ascii_lower(c),
{
    if 'A' <= c && c <= 'Z' {
        ((c as u32 + 32) as u8) as char
    } else {
        c
    }
}

/// Whether the extension is "exe" in any ASCII case.
pub fn is_exe_extension(ext: &str) -> (b: bool)
    ensures
        b == is_exe_ext(ext@),
{
    let v = chars_of(ext);
    v.len() == 3 && lower_ascii(v[0]) == 'e' && lower_ascii(v[1]) == 'x' && lower_ascii(v[2]) == 'e'
}

/// A file the unused-apps scan reports: an executable outside the skipped
/// system folders.
pub open spec fn is_exe_candidate(path: Seq<char>, ext: Seq<char>, sep: char) -> bool {
    !has_component_in(path, sep, skip_names()) && !has_component_in(path, sep, skip_exe_names())
        && is_exe_ext(ext)
}

/// Whether the file at `path` with extension `ext` is reported by the
/// unused-apps scan.
pub fn exe_candidate(path: &str, ext: &str, sep: char) -> (b: bool)
    ensures
        b == is_exe_candidate(path@, ext@, sep),
{
    if should_skip(path, sep) || should_skip_exe_path(path, sep) {
        return false;
    }
    is_exe_extension(ext)
}

/// The entry of an executable, with its last run time looked up in the
/// prefetch index under its upper-cased file stem.
pub fn executable_entry(
    path: String,
    size_bytes: u64,
    last_modified: Option<Timestamp>,
    stem: &str,
    prefetch: &PrefetchIndex,
) -> (e: ExeEntry)
    ensures
        e.path == path,
        e.size_bytes == size_bytes,
        e.last_modified == last_modified,
        e.last_run == if prefetch.view().contains_key(uppercase(stem@)) {
            Some(prefetch.view()[uppercase(stem@)])
        } else {
            None
        },
{
    let name = to_upper(stem);
    let last_run = match prefetch.get(name.as_str()) {
        Some(t) => Some(*t),
        None => None,
    };
    ExeEntry { path, size_bytes, last_modified, last_run }
}

/// An executable counts as unused when it never ran or last ran before
/// `cutoff`.
pub open spec fn is_unused(e: ExeEntry, cutoff: Timestamp) -> bool {
    match e.last_run {
        None => true,
        Some(t) => is_earlier(t, cutoff),
    }
}

/// The executables that are unused as of `cutoff`, in order.
pub open spec fn unused_of(s: Seq<ExeEntry>, cutoff: Timestamp) -> Seq<ExeEntry>
    decreases s.len(),
{
    if s.len() == 0 {
        Seq::empty()
    } else if is_unused(s.last(), cutoff) {
        unused_of(s.drop_last(), cutoff).push(s.last())
    } else {
        unused_of(s.drop_last(), cutoff)
    }
}

/// Law: the unused list keeps, in order, exactly the executables that never
/// ran (whatever their modification time) and those whose last run came
/// strictly before the cutoff: every such entry is in it, and every entry in
/// it is such an entry of the input.
pub proof fn law_unused_entries(s: Seq<ExeEntry>, cutoff: Timestamp)
    ensures
        forall|i: int|
            0 <= i < s.len() && (#[trigger] s[i]).last_run is None ==> unused_of(s, cutoff).contains(s[i]),
        forall|i: int|
            0 <= i < s.len() && match (#[trigger] s[i]).last_run {
                None => false,
                Some(t) => t.secs < cutoff.secs || (t.secs == cutoff.secs && t.nanos < cutoff.nanos),
            } ==> unused_of(s, cutoff).contains(s[i]),
        forall|k: int|
            0 <= k < unused_of(s, cutoff).len() ==> s.contains(#[trigger] unused_of(s, cutoff)[k]) && match unused_of(
                s,
                cutoff,
            )[k].last_run {
                None => true,
                Some(t) => t.secs < cutoff.secs || (t.secs == cutoff.secs && t.nanos < cutoff.nanos),
            },
        unused_of(s, cutoff).len() == s.filter(
            |e: ExeEntry|
                match e.last_run {
                    None => true,
                    Some(t) => t.secs < cutoff.secs || (t.secs == cutoff.secs && t.nanos < cutoff.nanos),
                },
        ).len(),
    decreases s.len(),
{
    reveal(Seq::filter);
    if s.len() > 0 {
        let init = s.drop_last();
        law_unused_entries(init, cutoff);
        assert forall|i: int| 0 <= i < init.len() implies init[i] == s[i] by {}
        let r = unused_of(s, cutoff);
        let r0 = unused_of(init, cutoff);
        assert forall|i: int|
            0 <= i < s.len() && (#[trigger] s[i]).last_run is None implies r.contains(s[i]) by {
            if i < init.len() {
                assert(init[i] == s[i]);
                let k = choose|k: int| 0 <= k < r0.len() && r0[k] == init[i];
                assert(r[k] == r0[k]);
            } else {
                assert(r[r.len() - 1] == s.last());
            }
        }
        assert forall|i: int|
            0 <= i < s.len() && match (#[trigger] s[i]).last_run {
                None => false,
                Some(t) => t.secs < cutoff.secs || (t.secs == cutoff.secs && t.nanos < cutoff.nanos),
            } implies r.contains(s[i]) by {
            if i < init.len() {
                assert(init[i] == s[i]);
                if r0.contains(init[i]) {
                    let k = choose|k: int| 0 <= k < r0.len() && r0[k] == init[i];
                    assert(r[k] == r0[k]);
                }
            } else {
                if r.len() > r0.len() {
                    assert(r[r.len() - 1] == s.last());
                }
            }
        }
        assert forall|k: int| 0 <= k < r.len() implies s.contains(#[trigger] r[k]) && match r[k].last_run {
            None => true,
            Some(t) => t.secs < cutoff.secs || (t.secs == cutoff.secs && t.nanos < cutoff.nanos),
        } by {
            if k < r0.len() {
                assert(r[k] == r0[k]);
                let j = choose|j: int| 0 <= j < init.len() && init[j] == r0[k];
                assert(s[j] == init[j]);
            } else {
                assert(r[k] == s.last());
                assert(s[s.len() - 1] == s.last());
            }
        }
    }
}

/// Keeps the executables not run in the `days` days before `now`.
pub fn keep_unused(entries: Vec<ExeEntry>, now: Timestamp, days: u32) -> (r: Vec<ExeEntry>)
    requires
        now.secs - days * 86400 >= i64::MIN,
    ensures
        r@ == unused_of(entries@, days_before(now, days as int)),
{
    let cutoff = crate::time::days_earlier(now, days);
    let mut r: Vec<ExeEntry> = Vec::new();
    let mut rest = entries;
    let ghost all = rest@;
    let mut stack: Vec<ExeEntry> = Vec::new();
    while rest.len() > 0
        invariant
            stack@.len() + rest@.len() == all.len(),
            forall|i: int| 0 <= i < rest@.len() ==> rest@[i] == all[i],
            forall|i: int| 0 <= i < stack@.len() ==> stack@[i] == all[all.len() - 1 - i],
        decreases rest.len(),
    {
        let x = rest.pop().unwrap();
        stack.push(x);
    }
    let ghost mut i: int = 0;
    assert(all.take(0) == Seq::<ExeEntry>::empty());
    while stack.len() > 0
        invariant
            i + stack@.len() == all.len(),
            0 <= i,
            forall|j: int| 0 <= j < stack@.len() ==> stack@[j] == all[all.len() - 1 - j],
            r@ == unused_of(all.take(i), cutoff),
            cutoff == days_before(now, days as int),
        decreases stack.len(),
    {
        let x = stack.pop().unwrap();
        proof {
            assert(x == all[i]);
            assert(all.take(i + 1).drop_last() == all.take(i));
            assert(all.take(i + 1).last() == x);
        }
        let unused = match x.last_run {
            None => true,
            Some(t) => t.is_before(&cutoff),
        };
        if unused {
            r.push(x);
        }
        proof {
            i = i + 1;
        }
    }
    proof {
        assert(all.take(all.len() as int) == all);
    }
    r
}


} // verus!
