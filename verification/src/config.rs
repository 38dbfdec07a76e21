//! Where the interpreter keeps its files: paths below the user's home.
//!
//! The paths are computed here; making the directories is left to the caller.

use vstd::prelude::*;
use vstd::string::*;

use crate::text::{chars_of, push_char};

verus! {

/// The path of `name` inside the directory `base`: `base` and `name` with one
/// `/` between them, unless `base` is empty or ends with `/` itself.
pub open spec fn join_path(base: Seq<char>, name: Seq<char>) -> Seq<char> {
    if base.len() == 0 {
        name
    } else if base.last() == '/' {
        base + name
    } else {
        base + seq!['/'] + name
    }
}

/// The directory of the interpreter's files below the home directory `home`.
pub open spec fn config_dir_spec(home: Seq<char>) -> Seq<char> {
    join_path(join_path(home, ".config"@), "squish"@)
}

/// The path of `name` inside the directory `base`.
pub fn path_join(base: &str, name: &str) -> (path: String)
    ensures
        path@ == join_path(base@, name@),
{
    let chars = chars_of(base);
    if chars.len() == 0 {
        return name.to_owned();
    }
    let mut path = base.to_owned();
    if chars[chars.len() - 1] != '/' {
        push_char(&mut path, '/');
    }
    path.append(name);
    path
}

/// The directory of the interpreter's files: `.config/squish` below the home
/// directory, or `None` where no home directory is known.
pub fn config_dir(home: Option<&str>) -> (dir: Option<String>)
    ensures
        match home {
            Some(h) => dir matches Some(d) && d@ == config_dir_spec(h@),
            None => dir is None,
        },
{
    match home {
        Some(h) => {
            let base = path_join(h, ".config");
            Some(path_join(base.as_str(), "squish"))
        },
        None => None,
    }
}

/// The path of the file `name` in the directory `dir`, where there is one.
fn file_path(dir: Option<&str>, name: &str) -> (path: Option<String>)
    ensures
        match path {
            Some(p) => dir matches Some(d) && p@ == join_path(d@, name@),
            None => dir is None,
        },
{
    match dir {
        Some(d) => Some(path_join(d, name)),
        None => None,
    }
}

/// The path of the history file, given the directory of the interpreter's
/// files.
pub fn history_file(dir: Option<&str>) -> (path: Option<String>)
    ensures
        match path {
            Some(p) => dir matches Some(d) && p@ == join_path(d@, "history"@),
            None => dir is None,
        },
{
    file_path(dir, "history")
}

/// The path of the file that counts directory visits.
pub fn dirfreq_file(dir: Option<&str>) -> (path: Option<String>)
    ensures
        match path {
            Some(p) => dir matches Some(d) && p@ == join_path(d@, "dirfreq"@),
            None => dir is None,
        },
{
    file_path(dir, "dirfreq")
}

/// The path of the alias file.
pub fn alias_file(dir: Option<&str>) -> (path: Option<String>)
    ensures
        match path {
            Some(p) => dir matches Some(d) && p@ == join_path(d@, "aliases"@),
            None => dir is None,
        },
{
    file_path(dir, "aliases")
}

/// The path of the settings file.
pub fn config_file(dir: Option<&str>) -> (path: Option<String>)
    ensures
        match path {
            Some(p) => dir matches Some(d) && p@ == join_path(d@, "config"@),
            None => dir is None,
        },
{
    file_path(dir, "config")
}

} // verus!
