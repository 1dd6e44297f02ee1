use vstd::prelude::*;
use crate::paths::{join, join_chars};
use crate::text::{chars_of, string_of};

verus! {

/// The name of the chat model used when the user has not chosen one.
pub open spec fn default_model() -> Seq<char> {
    seq!['g', 'p', 't', '-', '5', '-', 'n', 'a', 'n', 'o']
}

/// Settings the user enters in the settings tab.
pub struct Config {
    pub openai_api_key: String,
    pub openai_model: String,
}

impl Config {
    /// The chat model to use: the configured one, or the default when none is set.
    pub fn model(&self) -> (m: &str)
        ensures
            m@ == if self.openai_model@.len() == 0 { default_model() } else { self.openai_model@ },
    {
        if self.openai_model.as_str().is_empty() {
            let d = "gpt-5-nano";
            proof {
                reveal_strlit("gpt-5-nano");
            }
            d
        } else {
            self.openai_model.as_str()
        }
    }
}

/// The folder that holds the settings file. On Windows: the `APPDATA`
/// folder (or `.` when it is not set) with `\\storage-cleaner` appended;
/// elsewhere `.config/storage-cleaner` in the home folder (an empty home
/// when `HOME` is not set).
pub open spec fn config_dir_of(windows: bool, appdata: Option<Seq<char>>, home: Option<Seq<char>>) -> Seq<
    char,
> {
    if windows {
        (match appdata {
            Some(a) => a,
            None => "."@,
        }) + "\\storage-cleaner"@
    } else {
        let base = (match home {
            Some(h) => h,
            None => Seq::empty(),
        }) + "/.config"@;
        join(base, "storage-cleaner"@, '/')
    }
}

/// The separator of paths on the platform.
pub open spec fn platform_sep(windows: bool) -> char {
    if windows {
        '\\'
    } else {
        '/'
    }
}

/// Where the settings live, from the environment variables the platform
/// uses: the folder, and `config.json` inside it.
pub fn config_location(windows: bool, appdata: Option<String>, home: Option<String>) -> (r: (String, String))
    ensures
        r.0@ == config_dir_of(windows, opt_view(appdata), opt_view(home)),
        r.1@ == join(r.0@, "config.json"@, platform_sep(windows)),
{
    let dir: String = if windows {
        let mut d = match appdata {
            Some(a) => a,
            None => string_of(chars_of(".").as_slice()),
        };
        d.append("\\storage-cleaner");
        d
    } else {
        let mut base = match home {
            Some(h) => h,
            None => string_of(chars_of("").as_slice()),
        };
        proof {
            reveal_strlit("");
        }
        base.append("/.config");
        let joined = join_chars(&chars_of(base.as_str()), &chars_of("storage-cleaner"), '/');
        string_of(joined.as_slice())
    };
    let sep = if windows {
        '\\'
    } else {
        '/'
    };
    let file = join_chars(&chars_of(dir.as_str()), &chars_of("config.json"), sep);
    (dir, string_of(file.as_slice()))
}

/// The characters of an optional string.
pub open spec fn opt_view(s: Option<String>) -> Option<Seq<char>> {
    match s {
        Some(x) => Some(x@),
        None => None,
    }
}

/// The folder where snapshots are saved: `snapshots` inside the settings
/// folder.
pub fn snapshot_dir(config_dir: &str, windows: bool) -> (r: String)
    ensures
        r@ == join(config_dir@, "snapshots"@, platform_sep(windows)),
{
    let sep = if windows {
        '\\'
    } else {
        '/'
    };
    let joined = join_chars(&chars_of(config_dir), &chars_of("snapshots"), sep);
    string_of(joined.as_slice())
}

} // verus!
