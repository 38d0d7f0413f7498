use vstd::prelude::*;

verus! {

/// Why the program cannot lay a sheet out.
#[derive(Clone, Debug)]
pub enum ConfigError {
    /// No candidate path holds a configuration file.
    ConfigNotFound,
    /// The file does not have the expected shape; the parser's diagnostic.
    MalformedConfig(String),
    /// The terminal's size cannot be read.
    TerminalSizeUnavailable,
}

pub open spec fn local_path() -> Seq<char> {
    "./cheatsheet.json"@
}

pub open spec fn data_suffix() -> Seq<char> {
    "/.local/share/cheatsheet-rs/cheatsheet.json"@
}

pub open spec fn home_suffix() -> Seq<char> {
    "/cheatsheet.json"@
}

/// The paths to look at, in order of priority: the current directory, then two
/// places under the home directory. Without a home directory those two are
/// empty, and empty paths are never taken.
pub fn config_candidates(home: Option<&str>) -> (r: Vec<String>)
    ensures
        r@.len() == 3,
        r@[0]@ == local_path(),
        r@[1]@ == (match home {
            Some(h) => h@ + data_suffix(),
            None => Seq::<char>::empty(),
        }),
        r@[2]@ == (match home {
            Some(h) => h@ + home_suffix(),
            None => Seq::<char>::empty(),
        }),
{
    let mut r: Vec<String> = Vec::new();
    r.push(String::from_str("./cheatsheet.json"));
    match home {
        Some(h) => {
            r.push(String::from_str(h).concat("/.local/share/cheatsheet-rs/cheatsheet.json"));
            r.push(String::from_str(h).concat("/cheatsheet.json"));
        },
        None => {
            r.push(String::new());
            r.push(String::new());
        },
    }
    r
}

/// A candidate that can be taken: a non-empty path that exists.
pub open spec fn usable(c: (String, bool)) -> bool {
    c.0@.len() > 0 && c.1
}

/// The first usable candidate; each candidate is a path and whether it exists.
pub fn select_config(candidates: &Vec<(String, bool)>) -> (r: Result<usize, ConfigError>)
    ensures
        match r {
            Ok(i) => i < candidates@.len() && usable(candidates@[i as int]) && forall|j: int|
                0 <= j < i ==> !usable(#[trigger] candidates@[j]),
            Err(e) => e == ConfigError::ConfigNotFound && forall|j: int|
                0 <= j < candidates@.len() ==> !usable(#[trigger] candidates@[j]),
        },
{
    let mut i: usize = 0;
    while i < candidates.len()
        invariant
            i <= candidates@.len(),
            forall|j: int| 0 <= j < i ==> !usable(#[trigger] candidates@[j]),
        decreases candidates@.len() - i,
    {
        let c = &candidates[i];
        if c.1 && c.0.unicode_len() > 0 {
            return Ok(i);
        }
        i = i + 1;
    }
    Err(ConfigError::ConfigNotFound)
}

} // verus!
