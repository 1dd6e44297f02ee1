//! When programs last ran, as Windows' prefetch files record it.
//!
//! Each prefetch file names an executable and holds its last execution time
//! as a FILETIME. The index maps the upper-cased executable name, without
//! its `.EXE`, to that time; a later record for the same name replaces an
//! earlier one.
use vstd::prelude::*;
use crate::listing::{extension_is, has_extension};
use crate::scanner::Timestamp;
use crate::textmap::TextMap;
use crate::text::{chars_of, push_char, string_of, to_upper, uppercase};
use crate::time::{checked_instant, filetime_parts, filetime_to_timestamp};

verus! {

/// The index of last run times by program name.
pub type PrefetchIndex = TextMap<Timestamp>;

/// `s` with every occurrence of `pat` removed, scanning from the left.
pub open spec fn remove_all(s: Seq<char>, pat: Seq<char>) -> Seq<char>
    decreases s.len(),
{
    if pat.len() == 0 || s.len() < pat.len() {
        s
    } else if s.take(pat.len() as int) == pat {
        remove_all(s.skip(pat.len() as int), pat)
    } else {
        seq![s[0]] + remove_all(s.skip(1), pat)
    }
}

/// The index key of a program named `name` in a prefetch file.
pub open spec fn prefetch_key(name: Seq<char>) -> Seq<char> {
    remove_all(uppercase(name), ".EXE"@)
}

/// `s` with every occurrence of the literal `pat` removed.
pub fn remove_all_text(s: &str, pat: &str) -> (r: String)
    ensures
        r@ == remove_all(s@, pat@),
{
    let v = chars_of(s);
    let p = chars_of(pat);
    let n = v.len();
    let m = p.len();
    let mut r = String::new();
    if m == 0 || n < m {
        return string_of(v.as_slice());
    }
    let mut i: usize = 0;
    proof {
        assert(v@.skip(0) == v@);
    }
    while i < n
        invariant
            n == v.len(),
            m == p.len(),
            v@ == s@,
            p@ == pat@,
            m > 0,
            i <= n,
            r@ + remove_all(v@.skip(i as int), p@) == remove_all(v@, p@),
        decreases n - i,
    {
        let ghost rest = v@.skip(i as int);
        if n - i < m {
            let ghost r0 = r@;
            let mut j = i;
            while j < n
                invariant
                    i <= j <= n,
                    n == v.len(),
                    r@ == r0 + v@.subrange(i as int, j as int),
                    rest == v@.skip(i as int),
                    r0 + remove_all(rest, p@) == remove_all(v@, p@),
                    rest.len() < p@.len(),
                    v@ == s@,
                    p@ == pat@,
                decreases n - j,
            {
                push_char(&mut r, v[j]);
                proof {
                    assert(v@.subrange(i as int, j + 1) == v@.subrange(i as int, j as int).push(v@[j as int]));
                }
                j = j + 1;
            }
            proof {
                assert(v@.subrange(i as int, n as int) == rest);
                assert(remove_all(rest, p@) == rest);
            }
            return r;
        }
        let mut k: usize = 0;
        let mut same = true;
        while k < m
            invariant
                i + m <= n,
                n == v.len(),
                m == p.len(),
                k <= m,
                rest == v@.skip(i as int),
                same == forall|j: int| 0 <= j < k ==> v@[i + j] == p@[j],
            decreases m - k,
        {
            if v[i + k] != p[k] {
                same = false;
            }
            k = k + 1;
        }
        if same {
            proof {
                assert(rest.take(m as int) =~= p@);
                assert(rest.skip(m as int) == v@.skip(i + m));
            }
            i = i + m;
        } else {
            proof {
                assert(rest.take(m as int) != p@) by {
                    let j = choose|j: int| 0 <= j < m && v@[i + j] != p@[j];
                    assert(rest.take(m as int)[j] != p@[j]);
                }
                assert(rest.skip(1) == v@.skip(i + 1));
                assert(rest[0] == v@[i as int]);
            }
            push_char(&mut r, v[i]);
            proof {
                assert(r@ + remove_all(v@.skip(i + 1), p@) == remove_all(v@, p@));
            }
            i = i + 1;
        }
    }
    proof {
        assert(v@.skip(n as int) == Seq::<char>::empty());
    }
    r
}

/// The index key of a program named `name`: upper-cased, `.EXE` removed.
pub fn key_for_program(name: &str) -> (r: String)
    ensures
        r@ == prefetch_key(name@),
{
    let up = to_upper(name);
    remove_all_text(up.as_str(), ".EXE")
}

/// Adds what one prefetch file says: program `name` last ran at the
/// FILETIME `last_run`. A time that chrono cannot represent is skipped.
pub fn record_run(index: &mut PrefetchIndex, name: &str, last_run: u64)
    ensures
        final(index).view() == match checked_instant(filetime_parts(last_run).0, filetime_parts(last_run).1) {
            Some(t) => old(index).view().insert(prefetch_key(name@), t),
            None => old(index).view(),
        },
{
    match filetime_to_timestamp(last_run) {
        Some(t) => index.insert(key_for_program(name), t),
        None => {},
    }
}

/// Whether a file of the prefetch folder, named `name`, is a prefetch
/// file: its extension is `pf`.
pub fn is_prefetch_file(name: &str) -> (b: bool)
    ensures
        b == has_extension(name@, "pf"@),
{
    extension_is(&chars_of(name), "pf")
}

} // verus!
