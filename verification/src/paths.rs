//! Paths, held as strings, and the trusted wrappers around `std::path`.

use vstd::prelude::*;

verus! {

/// What `Path::is_absolute` returns on Unix, the platform of this library:
/// a path is absolute exactly when it starts with the root `/`.
pub open spec fn spec_path_is_absolute(p: Seq<char>) -> bool {
    p.len() > 0 && p[0] == '/'
}

/// Calls `Path::is_absolute` on `p` (see `spec_path_is_absolute`).
#[verifier::external_body]
pub(crate) fn path_is_absolute(p: &str) -> (r: bool)
    ensures
        r == spec_path_is_absolute(p@),
{
    std::path::Path::new(p).is_absolute()
}

/// What `Path::join` returns (as a string) for these two paths.
pub uninterp spec fn spec_path_join(base: Seq<char>, rel: Seq<char>) -> Seq<char>;

/// Calls `Path::join`: `rel` appended to `base` with a separator, or `rel`
/// alone when it is absolute. The result is named by `spec_path_join`; the
/// joining rules are not stated.
#[verifier::external_body]
pub(crate) fn path_join(base: &str, rel: &str) -> (r: String)
    ensures
        r@ == spec_path_join(base@, rel@),
{
    std::path::Path::new(base).join(rel).to_string_lossy().into_owned()
}

/// Calls `Path::canonicalize`: the absolute path with symbolic links
/// resolved, or `None` when the file system refuses (no such file, or a name
/// that is not UTF-8). Which path comes back depends on the disk; stated is
/// only what the documentation promises of every answer: it is absolute.
#[verifier::external_body]
pub(crate) fn path_canonicalize(p: &str) -> (r: Option<String>)
    ensures
        r matches Some(c) ==> spec_path_is_absolute(c@),
{
    std::path::Path::new(p).canonicalize().ok().and_then(|c| c.into_os_string().into_string().ok())
}

/// Calls `home::home_dir`: the user's home directory, read from the
/// environment (`HOME`) or the password database. It depends on the
/// machine: nothing is stated. A home directory whose name is not UTF-8
/// counts as none.
#[verifier::external_body]
pub(crate) fn home_dir() -> (r: Option<String>)
{
    home::home_dir().and_then(|p| p.into_os_string().into_string().ok())
}

/// What the existence test `path_exists` answered, on some call, for the
/// path `p`.
pub open spec fn path_answer<F: Fn(&str) -> bool>(path_exists: F, p: Seq<char>, present: bool) -> bool {
    exists|m: &str| m@ == p && #[trigger] path_exists.ensures((m,), present)
}

/// What `Path::parent` returns (as a string) for a path with these
/// characters.
pub uninterp spec fn spec_path_parent(p: Seq<char>) -> Option<Seq<char>>;

/// Calls `Path::parent`: the path without its final component, `None` for a
/// root or an empty path. The result is named by `spec_path_parent`; the one
/// fact stated is that a parent is shorter than the path it came from (it is
/// a proper prefix of it, as the documentation describes).
#[verifier::external_body]
pub(crate) fn path_parent(p: &str) -> (r: Option<String>)
    ensures
        match r {
            Some(q) => spec_path_parent(p@) == Some(q@) && q@.len() < p@.len(),
            None => spec_path_parent(p@) is None,
        },
{
    std::path::Path::new(p).parent().map(|q| q.to_string_lossy().into_owned())
}

/// What `Path::extension` returns (as a string) for a path with these
/// characters.
pub uninterp spec fn spec_path_extension(p: Seq<char>) -> Option<Seq<char>>;

/// Calls `Path::extension`: the part of the final component after its last
/// dot, `None` when there is no final component, no dot, or only a leading
/// dot. The result is named by `spec_path_extension`.
#[verifier::external_body]
pub(crate) fn path_extension(p: &str) -> (r: Option<String>)
    ensures
        match r {
            Some(e) => spec_path_extension(p@) == Some(e@),
            None => spec_path_extension(p@) is None,
        },
{
    std::path::Path::new(p).extension().map(|e| e.to_string_lossy().into_owned())
}

/// The `n`-th ancestor of `p`: `p` itself for 0, then parent after parent
/// (`None` once a parent is missing).
pub open spec fn ancestor(p: Seq<char>, n: nat) -> Option<Seq<char>>
    decreases n,
{
    if n == 0 {
        Some(p)
    } else {
        match ancestor(p, (n - 1) as nat) {
            Some(q) => spec_path_parent(q),
            None => None,
        }
    }
}

/// Whether the path has the extension `rs`.
pub fn has_rs_extension(p: &str) -> (r: bool)
    ensures
        r == (spec_path_extension(p@) == Some("rs"@)),
{
    match path_extension(p) {
        Some(e) => crate::text::str_eq(e.as_str(), "rs"),
        None => false,
    }
}

/// What `Path::file_name` returns (as a string) for a path with these
/// characters.
pub uninterp spec fn spec_path_file_name(p: Seq<char>) -> Option<Seq<char>>;

/// Calls `Path::file_name`: the final component, `None` when the path ends
/// in `..` or has no components. The result is named by
/// `spec_path_file_name`.
#[verifier::external_body]
pub(crate) fn path_file_name(p: &str) -> (r: Option<String>)
    ensures
        match r {
            Some(n) => spec_path_file_name(p@) == Some(n@),
            None => spec_path_file_name(p@) is None,
        },
{
    std::path::Path::new(p).file_name().map(|n| n.to_string_lossy().into_owned())
}

/// What `Path`'s `==` answers for two paths with these characters.
pub uninterp spec fn spec_same_path(a: Seq<char>, b: Seq<char>) -> bool;

/// Compares two paths with `Path`'s `==`, which compares their components
/// (so `a//b` and `a/b` are the same path). The answer is named by
/// `spec_same_path`.
#[verifier::external_body]
pub(crate) fn same_path(a: &str, b: &str) -> (r: bool)
    ensures
        r == spec_same_path(a@, b@),
{
    std::path::Path::new(a) == std::path::Path::new(b)
}

/// What `Path::components` yields for a path with these characters, each
/// component as its text (`/` for the root, `.` and `..`).
pub uninterp spec fn spec_path_components(p: Seq<char>) -> Seq<Seq<char>>;

/// Calls `Path::components` and takes each component's text
/// (`Component::as_os_str`); named by `spec_path_components`. Two paths are
/// equal as `Path`s exactly when their components are; the splitting rules
/// themselves are not stated.
#[verifier::external_body]
pub(crate) fn path_components(p: &str) -> (r: Vec<String>)
    ensures
        r@.map_values(|s: String| s@) == spec_path_components(p@),
{
    std::path::Path::new(p).components().map(|c| c.as_os_str().to_string_lossy().into_owned()).collect()
}

} // verus!
