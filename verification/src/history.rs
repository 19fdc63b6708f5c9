//! Where history is kept, and which lines it keeps. Reading the variables
//! and making the directory are left to the binary.
use vstd::prelude::*;
use vstd::string::StringExecFns;

use std::path::PathBuf;

use crate::shell::{ShellError, ShellResult};
use crate::text::{all_ws, chars_of, has_non_whitespace};

verus! {

/// The file history is kept in.
#[derive(Debug)]
pub struct HistoryConfig {
    path: PathBuf,
}

impl HistoryConfig {
    pub closed spec fn file(&self) -> PathBuf {
        self.path
    }

    pub fn new(path: PathBuf) -> (r: Self)
        ensures
            r.file() == path,
    {
        HistoryConfig { path }
    }

    pub fn path(&self) -> (r: &PathBuf)
        ensures
            *r == self.file(),
    {
        &self.path
    }
}

/// `base` with the relative path `rest` joined on, a `/` between them
/// unless `base` is empty or already ends in one (`Path::join`).
pub open spec fn joined_path(base: Seq<char>, rest: Seq<char>) -> Seq<char> {
    if base.len() == 0 || base.last() == '/' {
        base + rest
    } else {
        base + seq!['/'] + rest
    }
}

pub(crate) fn join_path(base: &str, rest: &str) -> (r: String)
    ensures
        r@ == joined_path(base@, rest@),
{
    let b = chars_of(base);
    let mut out = base.to_string();
    if b.len() > 0 && b[b.len() - 1] != '/' {
        out.append("/");
        proof {
            reveal_strlit("/");
        }
    }
    out.append(rest);
    out
}

/// The history file: `gshell/history.txt` under `XDG_DATA_HOME` when it
/// is set, else `.local/share/gshell/history.txt` under `HOME`; without
/// either, an error.
pub fn history_file_location(xdg_data_home: Option<&str>, home: Option<&str>) -> (r: ShellResult<
    String,
>)
    ensures
        match xdg_data_home {
            Some(x) => r matches Ok(p) && p@ == joined_path(x@, "gshell/history.txt"@),
            None => match home {
                Some(h) => r matches Ok(p) && p@ == joined_path(
                    h@,
                    ".local/share/gshell/history.txt"@,
                ),
                None => r matches Err(ShellError::Message(m)) && m@
                    == "HOME is not set and XDG_DATA_HOME is unavailable"@,
            },
        },
{
    match xdg_data_home {
        Some(x) => Ok(join_path(x, "gshell/history.txt")),
        None => match home {
            Some(h) => Ok(join_path(h, ".local/share/gshell/history.txt")),
            None => Err(
                ShellError::message(
                    "HOME is not set and XDG_DATA_HOME is unavailable".to_string(),
                ),
            ),
        },
    }
}

/// Whether a line is worth keeping: it has something besides whitespace.
pub fn should_record_history_entry(input: &str) -> (b: bool)
    ensures
        b == !all_ws(input@),
{
    let chars = chars_of(input);
    has_non_whitespace(chars.as_slice())
}

} // verus!
