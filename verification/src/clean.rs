//! The folders that Quick Clean offers to empty.
use vstd::prelude::*;
use crate::paths::{components, components_of, same_chars};
use crate::text::{chars_of, string_of};

verus! {

/// A folder Quick Clean can empty, with its label and, once computed, the
/// bytes it holds.
#[derive(Clone, Debug)]
pub struct CleanTarget {
    pub path: String,
    pub label: String,
    pub size: Option<u64>,
}

impl CleanTarget {
    /// A target whose size is not computed yet.
    pub fn new(path: String, label: &str) -> (t: CleanTarget)
        ensures
            t.path == path,
            t.label@ == label@,
            t.size is None,
    {
        CleanTarget { path, label: string_of(chars_of(label).as_slice()), size: None }
    }
}

/// The two paths have the same components.
pub open spec fn same_path(a: Seq<char>, b: Seq<char>, sep: char) -> bool {
    components(a, sep) == components(b, sep)
}

/// Whether the two paths have the same components.
pub fn paths_equal(a: &str, b: &str, sep: char) -> (r: bool)
    ensures
        r == same_path(a@, b@, sep),
{
    let av = chars_of(a);
    let bv = chars_of(b);
    let ac = components_of(&av, sep);
    let bc = components_of(&bv, sep);
    let ghost ap = ac@.map_values(|x: Vec<char>| x@);
    let ghost bp = bc@.map_values(|x: Vec<char>| x@);
    if ac.len() != bc.len() {
        proof {
            assert(ap.len() != bp.len());
        }
        return false;
    }
    let mut i: usize = 0;
    while i < ac.len()
        invariant
            i <= ac.len(),
            ac.len() == bc.len(),
            ap == ac@.map_values(|x: Vec<char>| x@),
            bp == bc@.map_values(|x: Vec<char>| x@),
            ap == components(a@, sep),
            bp == components(b@, sep),
            forall|j: int| 0 <= j < i ==> ap[j] == bp[j],
        decreases ac.len() - i,
    {
        proof {
            assert(ac@[i as int]@ == ap[i as int]);
            assert(bc@[i as int]@ == bp[i as int]);
        }
        if !same_chars(&ac[i], &bc[i]) {
            proof {
                assert(ap[i as int] != bp[i as int]);
            }
            return false;
        }
        i = i + 1;
    }
    proof {
        assert(ap =~= bp);
    }
    true
}

/// The (path, label) of each default target.
pub open spec fn targets_view(v: Seq<CleanTarget>) -> Seq<(Seq<char>, Seq<char>)> {
    v.map_values(|t: CleanTarget| (t.path@, t.label@))
}

/// The default targets: on Windows the user's `%TEMP%`, the user's `%TMP%`
/// when it is another folder, the Windows temp folder and the Windows Update
/// download cache; elsewhere `/tmp`.
pub open spec fn default_targets_of(windows: bool, temp: Option<Seq<char>>, tmp: Option<Seq<char>>) -> Seq<
    (Seq<char>, Seq<char>),
> {
    if windows {
        let first: Seq<(Seq<char>, Seq<char>)> = match temp {
            Some(t) => seq![(t, "User Temp (%TEMP%)"@)],
            None => Seq::empty(),
        };
        let second: Seq<(Seq<char>, Seq<char>)> = match tmp {
            Some(p) => if (match temp {
                Some(t) => same_path(t, p, '\\'),
                None => false,
            }) {
                Seq::empty()
            } else {
                seq![(p, "User TMP (%TMP%)"@)]
            },
            None => Seq::empty(),
        };
        first + second + seq![
            ("C:\\Windows\\Temp"@, "Windows Temp (may need admin)"@),
            ("C:\\Windows\\SoftwareDistribution\\Download"@, "Windows Update cache (requires admin)"@),
        ]
    } else {
        seq![("/tmp"@, "System temp"@)]
    }
}

/// The default targets, given whether this is Windows and the values of the
/// `TEMP` and `TMP` environment variables.
pub fn default_targets(windows: bool, temp: Option<String>, tmp: Option<String>) -> (r: Vec<CleanTarget>)
    ensures
        targets_view(r@) == default_targets_of(
            windows,
            match temp {
                Some(t) => Some(t@),
                None => None,
            },
            match tmp {
                Some(t) => Some(t@),
                None => None,
            },
        ),
        forall|i: int| 0 <= i < r@.len() ==> (#[trigger] r@[i]).size is None,
{
    let mut r: Vec<CleanTarget> = Vec::new();
    if windows {
        let temp_view = match &temp {
            Some(t) => Some(t.clone()),
            None => None,
        };
        match temp {
            Some(t) => {
                r.push(CleanTarget::new(t, "User Temp (%TEMP%)"));
            },
            None => {},
        }
        match tmp {
            Some(p) => {
                let dup = match &temp_view {
                    Some(t) => paths_equal(t.as_str(), p.as_str(), '\\'),
                    None => false,
                };
                if !dup {
                    r.push(CleanTarget::new(p, "User TMP (%TMP%)"));
                }
            },
            None => {},
        }
        r.push(CleanTarget::new(string_of(chars_of("C:\\Windows\\Temp").as_slice()), "Windows Temp (may need admin)"));
        r.push(
            CleanTarget::new(
                string_of(chars_of("C:\\Windows\\SoftwareDistribution\\Download").as_slice()),
                "Windows Update cache (requires admin)",
            ),
        );
        proof {
            assert(targets_view(r@) =~= default_targets_of(
                windows,
                match temp_view {
                    Some(t) => Some(t@),
                    None => None,
                },
                match tmp {
                    Some(t) => Some(t@),
                    None => None,
                },
            ));
        }
    } else {
        r.push(CleanTarget::new(string_of(chars_of("/tmp").as_slice()), "System temp"));
        proof {
            assert(targets_view(r@) =~= default_targets_of(windows, None, None));
        }
    }
    r
}

} // verus!
