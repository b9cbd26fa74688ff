//! Paths and log files.

use vstd::prelude::*;
use crate::text::str_eq;

verus! {

/// `Path::strip_prefix`: the rest of `path` after the leading components
/// `base`, if `path` starts with them.
pub uninterp spec fn path_strip_prefix(path: Seq<char>, base: Seq<char>) -> Option<Seq<char>>;

/// `Path::join` on Unix: an absolute `rest` (one that starts with `/`)
/// replaces `base`; otherwise `rest` follows `base`, with a `/` between them
/// unless `base` is empty or already ends with one.
pub open spec fn path_join(base: Seq<char>, rest: Seq<char>) -> Seq<char> {
    if rest.len() > 0 && rest[0] == '/' {
        rest
    } else if base.len() == 0 || base.last() == '/' {
        base + rest
    } else {
        base + seq!['/'] + rest
    }
}

/// `Path::new(path).strip_prefix(base)`, as text. Claimed: the result is a
/// function of the two paths alone, named `path_strip_prefix`.
#[verifier::external_body]
fn strip_prefix(path: &str, base: &str) -> (r: Option<String>)
    ensures
        match path_strip_prefix(path@, base@) {
            Some(rest) => r matches Some(s) && s@ == rest,
            None => r is None,
        },
{
    std::path::Path::new(path).strip_prefix(base).ok().map(|p| p.to_string_lossy().into_owned())
}

/// `Path::new(base).join(rest)`, as text (both are valid UTF-8, so
/// `to_string_lossy` changes nothing). Claimed: the result is `path_join`,
/// as `PathBuf::push` builds it on Unix.
#[verifier::external_body]
fn join_path(base: &str, rest: &str) -> (r: String)
    ensures
        r@ == path_join(base@, rest@),
{
    std::path::Path::new(base).join(rest).to_string_lossy().into_owned()
}

/// `current` shown relative to the home directory `home` (`~/...`) when it
/// lies under it, else `home` joined with `current`.
pub fn make_relative(current: &str, home: &str) -> (r: String)
    ensures
        r@ == match path_strip_prefix(current@, home@) {
            Some(rest) => path_join("~"@, rest),
            None => path_join(home@, current@),
        },
{
    match strip_prefix(current, home) {
        None => join_path(home, current),
        Some(relative) => join_path("~", relative.as_str()),
    }
}

/// `Path::new(p).is_dir()`. Nothing is claimed: the answer depends on the
/// file system.
#[verifier::external_body]
fn path_is_dir(p: &str) -> bool {
    std::path::Path::new(p).is_dir()
}

/// `Path::new(p).exists()`. Nothing is claimed: the answer depends on the
/// file system.
#[verifier::external_body]
fn path_exists(p: &str) -> bool {
    std::path::Path::new(p).exists()
}

/// Questions about a path on disk.
pub struct Exists<'p> {
    pub path: &'p str,
}

impl<'p> Exists<'p> {
    /// Questions about `path`.
    pub fn check(path: &'p str) -> (e: Self)
        ensures
            e.path == path,
    {
        Self { path }
    }

    /// Whether the path is a directory.
    pub fn folder(&self) -> bool {
        path_is_dir(self.path)
    }

    /// Whether something exists at the path.
    pub fn file(&self) -> bool {
        path_exists(self.path)
    }
}

/// The index of the first of the last `n` of `len` lines.
pub fn tail_start(len: usize, n: usize) -> (r: usize)
    ensures
        r == (if len > n { len - n } else { 0 }),
{
    if len > n {
        len - n
    } else {
        0
    }
}

/// Whether a log kind names the error log when showing logs: only `error`
/// does; anything else means the output log.
pub fn shows_error_log(kind: &str) -> (b: bool)
    ensures
        b == (kind@ == "error"@),
{
    str_eq(kind, "error")
}

} // verus!
