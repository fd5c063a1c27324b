//! The command line: its commands, and the logic of each that is not input or output.
pub mod json;
pub mod list;
pub mod setup_codex;
pub mod setup_gemini;
pub mod setup_opencode;
pub mod setup_pi;
pub mod status;

use vstd::prelude::*;

use crate::agent::AgentStatus;
use crate::error::AmuxError;
use crate::text::{chars_of, line_ranges, lines, pieces, range_starts_with, starts_with, string_of};

verus! {

/// The parsed command line.
#[derive(Debug, Clone, Copy)]
pub struct Cli {
    pub command: Command,
}

/// The subcommands.
#[derive(Debug, Clone, Copy)]
pub enum Command {
    /// Scan tmux panes for agents and select one via fzf, or print them (`plain`),
    /// keeping only those with the given status.
    List { status: Option<AgentStatus>, plain: bool },
    /// Install agent plugins and configure integrations.
    Setup { target: SetupTarget },
    /// Output a terse status string for tmux statusline interpolation.
    Status,
}

/// The agents whose integration `setup` installs.
#[derive(Debug, Clone, Copy)]
pub enum SetupTarget {
    /// Install the amux status hook for Codex CLI.
    Codex,
    /// Install the amux status extension for Gemini CLI.
    Gemini,
    /// Install the amux status plugin for OpenCode.
    Opencode,
    /// Install the amux status extension for Pi.
    Pi,
}

/// The version that the line `index` of `content` announces after `prefix`.
pub open spec fn version_line(content: Seq<char>, index: int, prefix: Seq<char>) -> Option<Seq<char>> {
    let ls = lines(content);
    if 0 <= index < ls.len() && starts_with(ls[index], prefix) {
        Some(ls[index].skip(prefix.len() as int))
    } else {
        None
    }
}

/// What follows `prefix` on the line `index` of `content`, if that line begins with it.
pub fn version_after_prefix<'a>(content: &'a str, index: usize, prefix: &str) -> (r: Option<&'a str>)
    ensures
        match r {
            Some(v) => version_line(content@, index as int, prefix@) == Some(v@),
            None => version_line(content@, index as int, prefix@) is None,
        },
{
    let v = chars_of(content);
    let ls = line_ranges(&v);
    if index >= ls.len() {
        return None;
    }
    let (a, b) = ls[index];
    assert(lines(content@)[index as int] == v@.subrange(a as int, b as int));
    if !range_starts_with(&v, a, b, prefix) {
        return None;
    }
    let p = chars_of(prefix);
    let from = a + p.len();
    assert(v@.subrange(a as int, b as int).skip(p.len() as int) == v@.subrange(from as int, b as int));
    Some(content.substring_char(from, b))
}

/// The setup error with message `m`.
pub open spec fn setup_error(m: Seq<char>) -> crate::error::AmuxErrorView {
    crate::error::AmuxErrorView::Setup(m)
}

/// Whether an integration must be (re)installed: the bundled file must announce its
/// version, else `missing_version` is the error; an installed file that announces the
/// same version needs nothing.
pub open spec fn install_needed(
    bundled: Option<Seq<char>>,
    installed: Option<Option<Seq<char>>>,
) -> Option<bool> {
    match bundled {
        None => None,
        Some(b) => Some(
            match installed {
                Some(Some(i)) => i != b,
                _ => true,
            },
        ),
    }
}

/// Decide whether to write an integration file, from the versions that the bundled
/// file and the installed one (if it could be read) announce.
pub fn needs_install(
    bundled_version: Option<&str>,
    installed_version: Option<Option<&str>>,
    missing_version: &str,
) -> (r: Result<bool, AmuxError>)
    ensures
        match install_needed(
            match bundled_version {
                Some(b) => Some(b@),
                None => None,
            },
            match installed_version {
                Some(Some(i)) => Some(Some(i@)),
                Some(None) => Some(None),
                None => None,
            },
        ) {
            Some(n) => r == Ok::<bool, AmuxError>(n),
            None => r matches Err(e) && e@ == setup_error(missing_version@),
        },
{
    match bundled_version {
        None => Err(AmuxError::Setup(string_of(missing_version))),
        Some(b) => match installed_version {
            Some(Some(i)) => Ok(!crate::text::str_eq(i, b)),
            _ => Ok(true),
        },
    }
}

/// Setting up twice installs once: after a setup wrote the bundled file, the installed
/// file announces the bundled version, so the next setup finds nothing to write.
pub proof fn lemma_setup_again_writes_nothing(bundled: Seq<char>, index: int, prefix: Seq<char>)
    requires
        version_line(bundled, index, prefix) is Some,
    ensures
        install_needed(
            version_line(bundled, index, prefix),
            Some(version_line(bundled, index, prefix)),
        ) == Some(false),
{
}

/// The error of a setup that cannot find the home directory.
pub fn no_home_error() -> (e: AmuxError)
    ensures
        e@ == setup_error("could not determine home directory"@),
{
    AmuxError::Setup(string_of("could not determine home directory"))
}

} // verus!
