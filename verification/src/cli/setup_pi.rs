//! `amux setup pi`: where the Pi extension goes.
use vstd::prelude::*;

use crate::cli::{no_home_error, setup_error, version_after_prefix, version_line};
use crate::error::AmuxError;
use crate::paths::{home_dir, join_path, path_join};

verus! {

/// The version that the extension source announces on its first line.
pub fn version_from_content(content: &str) -> (r: Option<&str>)
    ensures
        match r {
            Some(v) => version_line(content@, 0, "// amux-status "@) == Some(v@),
            None => version_line(content@, 0, "// amux-status "@) is None,
        },
{
    version_after_prefix(content, 0, "// amux-status ")
}

/// `~/.pi/agent/extensions/amux-status` below `home`.
pub open spec fn plugin_dir_of(home: Seq<char>) -> Seq<char> {
    path_join(path_join(path_join(path_join(home, ".pi"@), "agent"@), "extensions"@), "amux-status"@)
}

/// The directory of the extension, below the home directory that the system reports.
pub fn plugin_dir() -> (r: Result<String, AmuxError>)
    ensures
        r matches Ok(d) ==> exists|h: Seq<char>| d@ == plugin_dir_of(h),
        r matches Err(e) ==> e@ == setup_error("could not determine home directory"@),
{
    match home_dir() {
        Some(h) => plugin_dir_from(Some(h.as_str())),
        None => plugin_dir_from(None),
    }
}

/// The directory of the extension, below the home directory if it is known.
pub fn plugin_dir_from(home: Option<&str>) -> (r: Result<String, AmuxError>)
    ensures
        match home {
            Some(h) => r matches Ok(d) && d@ == plugin_dir_of(h@),
            None => r matches Err(e) && e@ == setup_error("could not determine home directory"@),
        },
{
    match home {
        None => Err(no_home_error()),
        Some(h) => {
            let a = join_path(h, ".pi");
            let b = join_path(a.as_str(), "agent");
            let c = join_path(b.as_str(), "extensions");
            Ok(join_path(c.as_str(), "amux-status"))
        },
    }
}

} // verus!
