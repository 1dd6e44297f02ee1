//! Paths as the scanner sees them: text split into components.
//!
//! The component rules are std's for the paths a drive scan produces: '/'
//! always separates, and so does the platform's main separator (`\` on
//! Windows); a Windows path may open with a disk prefix such as `C:`; a
//! separator right after the prefix (or at the very start) is the root;
//! empty pieces and `.` pieces inside the path are dropped, except a leading
//! `.` of a relative path. Verbatim (`\\?\`) and UNC (`\\server\share`)
//! prefixes do not occur among drive roots and are read as ordinary names.
use vstd::prelude::*;
use crate::text::copy_chars;

verus! {

/// `c` separates components when `main_sep` is the platform's separator.
pub open spec fn is_sep(c: char, main_sep: char) -> bool {
    c == '/' || c == main_sep
}

/// The pieces of `s` between separators, empty ones included.
pub open spec fn pieces(s: Seq<char>, sep: char) -> Seq<Seq<char>>
    decreases s.len(),
{
    if s.len() == 0 {
        seq![Seq::empty()]
    } else {
        let p = pieces(s.drop_last(), sep);
        if is_sep(s.last(), sep) {
            p.push(Seq::empty())
        } else {
            p.update(p.len() - 1, p.last().push(s.last()))
        }
    }
}

/// The current-directory component.
pub open spec fn cur_dir() -> Seq<char> {
    seq!['.']
}

/// A piece that names something: neither empty nor `.`.
pub open spec fn is_named(x: Seq<char>) -> bool {
    x.len() > 0 && x != cur_dir()
}

/// The predicate `is_named`, as a function value.
pub open spec fn named() -> spec_fn(Seq<char>) -> bool {
    |x: Seq<char>| is_named(x)
}

/// An ASCII letter.
pub open spec fn is_ascii_alpha(c: char) -> bool {
    ('a' <= c && c <= 'z') || ('A' <= c && c <= 'Z')
}

/// Length of a Windows disk prefix (`C:`) at the start of `s`, or 0.
pub open spec fn disk_prefix_len(s: Seq<char>, sep: char) -> nat {
    if sep == '\\' && s.len() >= 2 && is_ascii_alpha(s[0]) && s[1] == ':' {
        2
    } else {
        0
    }
}

/// The path after its disk prefix starts with a separator.
pub open spec fn is_rooted(s: Seq<char>, sep: char) -> bool {
    let rest = s.skip(disk_prefix_len(s, sep) as int);
    rest.len() > 0 && is_sep(rest[0], sep)
}

/// Number of leading components that are a prefix or the root.
pub open spec fn lead_len(s: Seq<char>, sep: char) -> nat {
    (if disk_prefix_len(s, sep) > 0 {
        1nat
    } else {
        0nat
    }) + (if is_rooted(s, sep) {
        1nat
    } else {
        0nat
    })
}

/// The character in ASCII uppercase.
pub open spec fn ascii_upper(c: char) -> char {
    if 'a' <= c && c <= 'z' {
        ((c as u32) - 32) as char
    } else {
        c
    }
}

/// The component of a disk prefix: its letter in uppercase and the colon,
/// as std's `Prefix::Disk` compares it.
pub open spec fn disk_component(s: Seq<char>) -> Seq<char> {
    seq![ascii_upper(s[0]), ':']
}

/// The components of a path: prefix, root, a leading `.`, then the names.
pub open spec fn components(s: Seq<char>, sep: char) -> Seq<Seq<char>> {
    let p = disk_prefix_len(s, sep) as int;
    let rest = s.skip(p);
    let parts = pieces(rest, sep);
    (if p > 0 {
        seq![disk_component(s)]
    } else {
        Seq::empty()
    }) + (if is_rooted(s, sep) {
        seq![seq![sep]]
    } else {
        Seq::empty()
    }) + (if !is_rooted(s, sep) && parts[0] == cur_dir() {
        seq![cur_dir()]
    } else {
        Seq::empty()
    }) + parts.filter(named())
}

/// The top-level folder of a file under `drive`: the component that follows
/// the drive's components in the file's parent, if the parent lies strictly
/// below the drive.
pub open spec fn top_component(path: Seq<char>, drive: Seq<char>, sep: char) -> Option<
    Seq<char>,
> {
    let pc = components(path, sep);
    let dc = components(drive, sep);
    if pc.len() > lead_len(path, sep) {
        let parent = pc.drop_last();
        if parent.len() > dc.len() && parent.take(dc.len() as int) == dc {
            Some(parent[dc.len() as int])
        } else {
            None
        }
    } else {
        None
    }
}

/// `base` joined with one more name, as std's `PathBuf::push` writes it: a
/// separator goes between them unless `base` is empty, already ends with a
/// separator, or is a bare disk prefix such as `C:`.
pub open spec fn join(base: Seq<char>, name: Seq<char>, sep: char) -> Seq<char> {
    let bare_disk = disk_prefix_len(base, sep) == 2 && base.len() == 2;
    if base.len() == 0 || is_sep(base.last(), sep) || bare_disk {
        base + name
    } else {
        base.push(sep) + name
    }
}

/// The folder a file is counted under: the drive joined with the file's
/// top-level folder, or the drive itself.
pub open spec fn folder_of(path: Seq<char>, drive: Seq<char>, sep: char) -> Seq<char> {
    match top_component(path, drive, sep) {
        Some(c) => join(drive, c, sep),
        None => drive,
    }
}

/// The pieces of a path never run out.
pub proof fn lemma_pieces_len(s: Seq<char>, sep: char)
    ensures
        pieces(s, sep).len() >= 1,
    decreases s.len(),
{
    if s.len() > 0 {
        lemma_pieces_len(s.drop_last(), sep);
    }
}

fn is_sep_char(c: char, sep: char) -> (b: bool)
    ensures
        b == is_sep(c, sep),
{
    c == '/' || c == sep
}

fn is_ascii_alpha_char(c: char) -> (b: bool)
    ensures
        b == is_ascii_alpha(c),
{
    ('a' <= c && c <= 'z') || ('A' <= c && c <= 'Z')
}

/// The pieces of `s[from..]`.
fn pieces_from(s: &Vec<char>, from: usize, sep: char) -> (r: Vec<Vec<char>>)
    requires
        from <= s.len(),
    ensures
        r@.map_values(|x: Vec<char>| x@) == pieces(s@.skip(from as int), sep),
{
    let mut r: Vec<Vec<char>> = Vec::new();
    let mut cur: Vec<char> = Vec::new();
    let mut i = from;
    proof {
        assert(s@.skip(from as int).take(0) == Seq::<char>::empty());
    }
    while i < s.len()
        invariant
            from <= i <= s.len(),
            pieces(s@.skip(from as int).take(i - from), sep) == r@.map_values(
                |x: Vec<char>| x@,
            ).push(cur@),
        decreases s.len() - i,
    {
        let ghost before = s@.skip(from as int).take(i - from);
        let ghost after = s@.skip(from as int).take(i - from + 1);
        proof {
            assert(after.drop_last() == before);
            assert(after.last() == s@[i as int]);
        }
        let c = s[i];
        if is_sep_char(c, sep) {
            r.push(cur);
            cur = Vec::new();
            proof {
                assert(r@.map_values(|x: Vec<char>| x@) == r@.drop_last().map_values(
                    |x: Vec<char>| x@,
                ).push(r@.last()@));
            }
        } else {
            cur.push(c);
            proof {
                lemma_pieces_len(before, sep);
            }
        }
        i = i + 1;
    }
    proof {
        assert(s@.skip(from as int).take(s.len() - from) == s@.skip(from as int));
    }
    r.push(cur);
    proof {
        assert(r@.map_values(|x: Vec<char>| x@) == r@.drop_last().map_values(
            |x: Vec<char>| x@,
        ).push(r@.last()@));
    }
    r
}

fn is_cur_dir(x: &Vec<char>) -> (b: bool)
    ensures
        b == (x@ == cur_dir()),
{
    let b = x.len() == 1 && x[0] == '.';
    proof {
        if b {
            assert(x@ =~= cur_dir());
        }
    }
    b
}

/// The components of the path `s`.
pub fn components_of(s: &Vec<char>, sep: char) -> (r: Vec<Vec<char>>)
    ensures
        r@.map_values(|x: Vec<char>| x@) == components(s@, sep),
{
    let p: usize = if sep == '\\' && s.len() >= 2 && is_ascii_alpha_char(s[0]) && s[1] == ':' {
        2
    } else {
        0
    };
    let ghost rest = s@.skip(p as int);
    let rooted = p < s.len() && is_sep_char(s[p], sep);
    proof {
        assert(rooted == is_rooted(s@, sep));
    }
    let parts = pieces_from(s, p, sep);
    let ghost pv = parts@.map_values(|x: Vec<char>| x@);
    proof {
        lemma_pieces_len(rest, sep);
    }
    let mut r: Vec<Vec<char>> = Vec::new();
    if p > 0 {
        let c = s[0];
        let upper = if 'a' <= c && c <= 'z' {
            ((c as u32 - 32) as u8) as char
        } else {
            c
        };
        let mut d: Vec<char> = Vec::new();
        d.push(upper);
        d.push(':');
        proof {
            assert(d@ == disk_component(s@));
        }
        r.push(d);
    }
    if rooted {
        let mut d: Vec<char> = Vec::new();
        d.push(sep);
        r.push(d);
    }
    if !rooted && is_cur_dir(&parts[0]) {
        let mut d: Vec<char> = Vec::new();
        d.push('.');
        r.push(d);
    }
    let ghost lead = r@.map_values(|x: Vec<char>| x@);
    proof {
        assert(pv[0] == parts@[0]@);
        assert(lead == (if p > 0 {
            seq![disk_component(s@)]
        } else {
            Seq::empty()
        }) + (if rooted {
            seq![seq![sep]]
        } else {
            Seq::empty()
        }) + (if !rooted && pv[0] == cur_dir() {
            seq![cur_dir()]
        } else {
            Seq::empty()
        }));
    }
    let n = parts.len();
    let mut j: usize = 0;
    while j < n
        invariant
            n == parts.len(),
            j <= n,
            pv == parts@.map_values(|x: Vec<char>| x@),
            r@.map_values(|x: Vec<char>| x@) == lead + pv.take(j as int).filter(
                named(),
            ),
        decreases n - j,
    {
        proof {
            assert(pv.take(j + 1) == pv.take(j as int).push(pv[j as int]));
            pv.take(j as int).lemma_filter_push(pv[j as int], named());
            assert(lead + pv.take(j as int).filter(named()).push(pv[j as int]) == (lead
                + pv.take(j as int).filter(named())).push(pv[j as int]));
        }
        let x = &parts[j];
        proof {
            assert(x@ == pv[j as int]);
        }
        if x.len() > 0 && !is_cur_dir(x) {
            r.push(copy_chars(x));
            proof {
                assert(r@.map_values(|x: Vec<char>| x@) == r@.drop_last().map_values(
                    |x: Vec<char>| x@,
                ).push(r@.last()@));
            }
        }
        j = j + 1;
    }
    proof {
        assert(pv.take(n as int) == pv);
    }
    r
}


/// The two character sequences are equal.
pub fn same_chars(a: &Vec<char>, b: &Vec<char>) -> (r: bool)
    ensures
        r == (a@ == b@),
{
    if a.len() != b.len() {
        return false;
    }
    let mut i: usize = 0;
    while i < a.len()
        invariant
            a.len() == b.len(),
            i <= a.len(),
            forall|j: int| 0 <= j < i ==> a@[j] == b@[j],
        decreases a.len() - i,
    {
        if a[i] != b[i] {
            return false;
        }
        i = i + 1;
    }
    assert(a@ =~= b@);
    true
}

/// Number of leading prefix and root components of `s`.
fn lead_count(s: &Vec<char>, sep: char) -> (n: usize)
    ensures
        n == lead_len(s@, sep),
{
    let p: usize = if sep == '\\' && s.len() >= 2 && is_ascii_alpha_char(s[0]) && s[1] == ':' {
        2
    } else {
        0
    };
    let rooted = p < s.len() && is_sep_char(s[p], sep);
    proof {
        assert(rooted == is_rooted(s@, sep));
    }
    (if p > 0 {
        1
    } else {
        0
    }) + (if rooted {
        1
    } else {
        0
    })
}

/// `base` joined with `name` (see [`join`]).
pub fn join_chars(base: &Vec<char>, name: &Vec<char>, sep: char) -> (r: Vec<char>)
    ensures
        r@ == join(base@, name@, sep),
{
    let bare_disk = sep == '\\' && base.len() == 2 && is_ascii_alpha_char(base[0]) && base[1]
        == ':';
    let mut r = copy_chars(base);
    if !(base.len() == 0 || is_sep_char(base[base.len() - 1], sep) || bare_disk) {
        r.push(sep);
    }
    let ghost start = r@;
    for i in 0..name.len()
        invariant
            r@ == start + name@.take(i as int),
    {
        r.push(name[i]);
        assert(name@.take(i + 1) == name@.take(i as int).push(name@[i as int]));
    }
    assert(name@.take(name@.len() as int) == name@);
    r
}

/// The folder under which `path` is counted (see [`folder_of`]), given the
/// components of the drive.
pub fn folder_chars(path: &Vec<char>, drive: &Vec<char>, drive_parts: &Vec<Vec<char>>, sep: char) -> (r: Vec<char>)
    requires
        drive_parts@.map_values(|x: Vec<char>| x@) == components(drive@, sep),
    ensures
        r@ == folder_of(path@, drive@, sep),
{
    let pc = components_of(path, sep);
    let lead = lead_count(path, sep);
    let ghost pv = pc@.map_values(|x: Vec<char>| x@);
    let ghost dv = drive_parts@.map_values(|x: Vec<char>| x@);
    let n = pc.len();
    let m = drive_parts.len();
    if n > lead && n - 1 > m {
        let ghost parent = pv.drop_last();
        let mut k: usize = 0;
        while k < m
            invariant
                k <= m,
                m == drive_parts.len(),
                m < n - 1,
                n == pc.len(),
                pv == pc@.map_values(|x: Vec<char>| x@),
                dv == drive_parts@.map_values(|x: Vec<char>| x@),
                parent == pv.drop_last(),
                pv == components(path@, sep),
                dv == components(drive@, sep),
                n > lead_len(path@, sep),
                forall|j: int| 0 <= j < k ==> parent[j] == dv[j],
            decreases m - k,
        {
            proof {
                assert(pc@[k as int]@ == parent[k as int]);
                assert(drive_parts@[k as int]@ == dv[k as int]);
            }
            if !same_chars(&pc[k], &drive_parts[k]) {
                proof {
                    assert(parent.take(m as int)[k as int] != dv[k as int]);
                    assert(parent.take(m as int) != dv);
                    assert(top_component(path@, drive@, sep) is None);
                }
                return copy_chars(drive);
            }
            k = k + 1;
        }
        proof {
            assert(parent.take(m as int) =~= dv);
            assert(pc@[m as int]@ == parent[m as int]);
        }
        join_chars(drive, &pc[m], sep)
    } else {
        copy_chars(drive)
    }
}

} // verus!
