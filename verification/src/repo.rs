//! A handle on a version-control repository and the layout of its object
//! storage. Resolving references, reading and writing object files are
//! the collaborators' work and stay outside the library; they hand in and
//! take back plain values.

use vstd::prelude::*;

use vstd::string::StrSliceExecFns;

verus! {

/// A repository, held as the path of its root directory.
pub struct Repo {
    /// The path of the repository's root directory.
    pub git_root: String,
}

impl Repo {
    /// Wraps the given root directory path.
    pub fn new(git_root: String) -> (r: Self)
        ensures
            r.git_root@ == git_root@,
    {
        Repo { git_root }
    }
}

/// The storage path of the object with the given digest text, relative
/// to the repository root: the objects directory, the first two digits,
/// a separator, and the remaining digits.
pub fn format_object_path(sha: &str) -> (r: String)
    requires
        sha.is_ascii(),
        sha@.len() >= 2,
    ensures
        r@ == ".git/objects/"@ + sha@.subrange(0, 2) + "/"@ + sha@.subrange(2, sha@.len() as int),
{
    let n = sha.unicode_len();
    let mut out = String::from_str(".git/objects/");
    out.append(sha.substring_ascii(0, 2));
    out.append("/");
    out.append(sha.substring_ascii(2, n));
    out
}

} // verus!
