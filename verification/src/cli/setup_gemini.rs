//! `amux setup gemini`: where the Gemini CLI extension goes, and whether it must be
//! written.
use vstd::prelude::*;

use crate::cli::{no_home_error, setup_error, version_after_prefix, version_line};
use crate::error::AmuxError;
use crate::paths::{home_dir, join_path, path_join};

verus! {

/// The version that an extension hook script announces on its first line.
pub fn version_from_content(content: &str) -> (r: Option<&str>)
    ensures
        match r {
            Some(v) => version_line(content@, 0, "# amux-status "@) == Some(v@),
            None => version_line(content@, 0, "# amux-status "@) is None,
        },
{
    version_after_prefix(content, 0, "# amux-status ")
}

/// `~/.gemini/extensions/amux-status` below `home`.
pub open spec fn extension_dir_of(home: Seq<char>) -> Seq<char> {
    path_join(path_join(path_join(home, ".gemini"@), "extensions"@), "amux-status"@)
}

/// The directory of the extension, below the home directory that the system reports.
pub fn extension_dir() -> (r: Result<String, AmuxError>)
    ensures
        r matches Ok(d) ==> exists|h: Seq<char>| d@ == extension_dir_of(h),
        r matches Err(e) ==> e@ == setup_error("could not determine home directory"@),
{
    match home_dir() {
        Some(h) => extension_dir_from(Some(h.as_str())),
        None => extension_dir_from(None),
    }
}

/// The directory of the extension, below the home directory if it is known.
pub fn extension_dir_from(home: Option<&str>) -> (r: Result<String, AmuxError>)
    ensures
        match home {
            Some(h) => r matches Ok(d) && d@ == extension_dir_of(h@),
            None => r matches Err(e) && e@ == setup_error("could not determine home directory"@),
        },
{
    match home {
        None => Err(no_home_error()),
        Some(h) => {
            let a = join_path(h, ".gemini");
            let b = join_path(a.as_str(), "extensions");
            Ok(join_path(b.as_str(), "amux-status"))
        },
    }
}

} // verus!
