//! Paths as strings, joined the way `PathBuf::join` joins them on Unix, and the
//! user's home directory.
use vstd::prelude::*;

use crate::text::{chars_of, push_str, starts_with, str_starts_with, string_of};

verus! {

/// `base` joined with `rel`: an absolute `rel` replaces `base`; otherwise a `/` is put
/// between them unless `base` is empty or already ends with one.
pub open spec fn path_join(base: Seq<char>, rel: Seq<char>) -> Seq<char> {
    if starts_with(rel, "/"@) {
        rel
    } else if base.len() == 0 || base.last() == '/' {
        base + rel
    } else {
        base + "/"@ + rel
    }
}

/// Join `rel` onto `base` as `PathBuf::join` does.
pub fn join_path(base: &str, rel: &str) -> (r: String)
    ensures
        r@ == path_join(base@, rel@),
{
    if str_starts_with(rel, "/") {
        return string_of(rel);
    }
    let chars = chars_of(base);
    let mut r = string_of(base);
    let n = chars.len();
    if n > 0 && chars[n - 1] != '/' {
        push_str(&mut r, "/");
    }
    push_str(&mut r, rel);
    r
}

/// The user's home directory, by calling `dirs::home_dir`, as a string (lossy for a
/// path that is not UTF-8). Nothing is claimed of the result: it depends on the
/// environment and on the system's user database.
#[verifier::external_body]
pub(crate) fn home_dir() -> Option<String> {
    match dirs::home_dir() {
        Some(p) => Some(p.to_string_lossy().into_owned()),
        None => None,
    }
}

} // verus!
