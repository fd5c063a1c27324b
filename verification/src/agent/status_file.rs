//! The shared per-pane status files that agent plugins write, and the rules by which
//! they are trusted, ignored or removed. Reading, deleting and the liveness probe
//! are done by the caller; the decisions are made here.
use vstd::prelude::*;

use crate::agent::AgentStatus;
use crate::paths::{home_dir, join_path, path_join};
use crate::text::{chars_of, push_str, str_eq, string_of};

verus! {

/// Status file written by agent plugins.
#[derive(Debug, PartialEq, Eq)]
pub struct StatusFile {
    pub provider: String,
    pub status: String,
    pub pid: u32,
    pub ts: u64,
}

pub struct StatusFileView {
    pub provider: Seq<char>,
    pub status: Seq<char>,
    pub pid: u32,
    pub ts: u64,
}

impl View for StatusFile {
    type V = StatusFileView;

    open spec fn view(&self) -> StatusFileView {
        StatusFileView {
            provider: self.provider@,
            status: self.status@,
            pid: self.pid,
            ts: self.ts,
        }
    }
}

impl Clone for StatusFile {
    fn clone(&self) -> (r: Self)
        ensures
            r == *self,
    {
        StatusFile {
            provider: self.provider.clone(),
            status: self.status.clone(),
            pid: self.pid,
            ts: self.ts,
        }
    }
}

/// Maximum age (in seconds) before a status file is considered stale unless its
/// recorded PID is still alive.
pub const STALE_THRESHOLD_SECS: u64 = 30;

/// The providers allowed to claim a shared pane status file.
pub open spec fn known_provider(provider: Seq<char>) -> bool {
    ||| provider == "amp"@
    ||| provider == "codex"@
    ||| provider == "gemini"@
    ||| provider == "opencode"@
    ||| provider == "pi"@
}

/// The status that a word of the plugins' shared vocabulary stands for.
pub open spec fn normalized(status: Seq<char>) -> Option<AgentStatus> {
    if status == "running"@ {
        Some(AgentStatus::Running)
    } else if status == "idle"@ {
        Some(AgentStatus::Idle)
    } else if status == "awaiting_input"@ {
        Some(AgentStatus::AwaitingInput)
    } else if status == "errored"@ {
        Some(AgentStatus::Errored)
    } else {
        None
    }
}

/// A file whose provider is known and whose status is in the shared vocabulary.
pub open spec fn valid_status_file(f: StatusFileView) -> bool {
    known_provider(f.provider) && normalized(f.status) is Some
}

/// More than `STALE_THRESHOLD_SECS` seconds passed from the file's timestamp to `now`.
pub open spec fn is_stale(f: StatusFileView, now: u64) -> bool {
    (if now >= f.ts {
        now - f.ts
    } else {
        0
    }) > STALE_THRESHOLD_SECS
}

/// Map the normalized plugin status vocabulary to an `AgentStatus`.
pub fn normalized_status(status: &str) -> (r: Option<AgentStatus>)
    ensures
        r == normalized(status@),
{
    if str_eq(status, "running") {
        Some(AgentStatus::Running)
    } else if str_eq(status, "idle") {
        Some(AgentStatus::Idle)
    } else if str_eq(status, "awaiting_input") {
        Some(AgentStatus::AwaitingInput)
    } else if str_eq(status, "errored") {
        Some(AgentStatus::Errored)
    } else {
        None
    }
}

/// Return whether a provider name is allowed in a status file.
pub fn is_known_provider(provider: &str) -> (r: bool)
    ensures
        r == known_provider(provider@),
{
    str_eq(provider, "amp") || str_eq(provider, "codex") || str_eq(provider, "gemini") || str_eq(
        provider,
        "opencode",
    ) || str_eq(provider, "pi")
}

/// The base directory of all status files: `$XDG_STATE_HOME/amux` when that variable
/// is set, else `<home>/.local/state/amux`, with `/tmp` standing for an unknown home.
pub open spec fn state_dir(xdg_state_home: Option<Seq<char>>, home: Option<Seq<char>>) -> Seq<
    char,
> {
    let base = match xdg_state_home {
        Some(x) => x,
        None => path_join(
            path_join(
                match home {
                    Some(h) => h,
                    None => "/tmp"@,
                },
                ".local"@,
            ),
            "state"@,
        ),
    };
    path_join(base, "amux"@)
}

/// Return the base directory for all agent status files (`$XDG_STATE_HOME/amux/`, or
/// `~/.local/state/amux/`), given the value of `XDG_STATE_HOME` if it is set; the home
/// directory is the one that the system reports.
pub fn status_base_dir(xdg_state_home: Option<&str>) -> (r: String)
    ensures
        exists|h: Option<Seq<char>>| r@ == #[trigger] state_dir(crate::text::opt_view(xdg_state_home), h),
{
    match xdg_state_home {
        Some(_) => status_base_dir_from(xdg_state_home, None),
        None => match home_dir() {
            Some(h) => status_base_dir_from(None, Some(h.as_str())),
            None => status_base_dir_from(None, None),
        },
    }
}

/// Return the base directory for all agent status files, given the value of
/// `XDG_STATE_HOME` and the home directory, where they are known.
pub fn status_base_dir_from(xdg_state_home: Option<&str>, home: Option<&str>) -> (r: String)
    ensures
        r@ == state_dir(
            match xdg_state_home {
                Some(x) => Some(x@),
                None => None,
            },
            match home {
                Some(h) => Some(h@),
                None => None,
            },
        ),
{
    let base = match xdg_state_home {
        Some(x) => string_of(x),
        None => {
            let h = match home {
                Some(h) => h,
                None => "/tmp",
            };
            let local = join_path(h, ".local");
            join_path(local.as_str(), "state")
        },
    };
    join_path(base.as_str(), "amux")
}

/// Return the shared status file path for a tmux pane, in the base directory that
/// `status_base_dir` finds from the value of `XDG_STATE_HOME`, if it is set.
pub fn status_file_path(xdg_state_home: Option<&str>, pane_id: &str) -> (r: String)
    ensures
        exists|h: Option<Seq<char>>| r@ == path_join(
            #[trigger] state_dir(crate::text::opt_view(xdg_state_home), h),
            pane_id@ + ".json"@,
        ),
{
    let base = status_base_dir(xdg_state_home);
    status_file_path_in(base.as_str(), pane_id)
}

/// Return the shared status file path for a tmux pane, below the given base directory.
pub fn status_file_path_in(base_dir: &str, pane_id: &str) -> (r: String)
    ensures
        r@ == path_join(base_dir@, pane_id@ + ".json"@),
{
    let mut name = string_of(pane_id);
    push_str(&mut name, ".json");
    join_path(base_dir, name.as_str())
}

/// What was found at a status file's path.
#[derive(Debug)]
pub enum StatusFileRead {
    /// The file could not be read.
    Missing,
    /// The file was read but holds no status file.
    Unparseable,
    /// The file holds this status file.
    Parsed(StatusFile),
}

/// What to make of a status file.
#[derive(Debug)]
pub enum StatusFileVerdict {
    /// There is no usable status: leave the file alone.
    Ignore,
    /// There is no usable status and the file is to be removed.
    Remove,
    /// The file is current and holds this status.
    Accept(StatusFile),
    /// The file is stale: it counts only if its process is still alive.
    CheckLiveness(StatusFile),
}

/// Decide what a pane's status file yields, given what was read at its path and the
/// current time in seconds since the epoch (if the clock could be read). Unparseable
/// files are removed; files with an unknown provider or status are ignored; a file
/// older than `STALE_THRESHOLD_SECS` counts only if its process is alive.
pub fn read_status_file(read: StatusFileRead, now: Option<u64>) -> (r: StatusFileVerdict)
    ensures
        match read {
            StatusFileRead::Missing => r is Ignore,
            StatusFileRead::Unparseable => r is Remove,
            StatusFileRead::Parsed(f) => if !valid_status_file(f@) {
                r is Ignore
            } else {
                match now {
                    None => r is Ignore,
                    Some(t) => if is_stale(f@, t) {
                        r == StatusFileVerdict::CheckLiveness(f)
                    } else {
                        r == StatusFileVerdict::Accept(f)
                    },
                }
            },
        },
{
    match read {
        StatusFileRead::Missing => StatusFileVerdict::Ignore,
        StatusFileRead::Unparseable => StatusFileVerdict::Remove,
        StatusFileRead::Parsed(f) => {
            if !is_known_provider(f.provider.as_str()) || normalized_status(f.status.as_str()).is_none() {
                return StatusFileVerdict::Ignore;
            }
            match now {
                None => StatusFileVerdict::Ignore,
                Some(t) => {
                    if t.saturating_sub(f.ts) > STALE_THRESHOLD_SECS {
                        StatusFileVerdict::CheckLiveness(f)
                    } else {
                        StatusFileVerdict::Accept(f)
                    }
                },
            }
        },
    }
}

/// Settle a stale status file once it is known whether its process is alive: a live
/// process keeps the file, a dead one has it removed.
pub fn settle_stale_status_file(file: StatusFile, pid_alive: bool) -> (r: StatusFileVerdict)
    ensures
        pid_alive ==> r == StatusFileVerdict::Accept(file),
        !pid_alive ==> r is Remove,
{
    if pid_alive {
        StatusFileVerdict::Accept(file)
    } else {
        StatusFileVerdict::Remove
    }
}

/// Whether a file name has the extension `json`, as `Path::extension` finds it: the
/// part after the last `.`, where that `.` does not begin the name.
pub open spec fn json_extension(name: Seq<char>) -> bool {
    exists|i: int|
        0 < i < name.len() && name[i] == '.' && name.skip(i + 1) == "json"@ && (forall|j: int|
            i < j < name.len() ==> #[trigger] name[j] != '.')
}

/// Return whether a directory entry's file name marks it as a status file.
pub fn has_json_extension(name: &str) -> (r: bool)
    ensures
        r == json_extension(name@),
{
    let v = chars_of(name);
    let n = v.len();
    let mut i = n;
    while i > 0 && v[i - 1] != '.'
        invariant
            v@ == name@,
            n == v.len(),
            0 <= i <= n,
            forall|j: int| i <= j < n ==> #[trigger] v@[j] != '.',
        decreases i,
    {
        i = i - 1;
    }
    if i <= 1 {
        return false;
    }
    let r = crate::text::range_eq(&v, i, n, "json");
    proof {
        assert(v@.skip(i as int) == v@.subrange(i as int, n as int));
        if r {
            assert(name@[i - 1] == '.');
            assert(name@.skip(i - 1 + 1) == "json"@);
        }
        if !r {
            assert forall|k: int|
                0 < k < name@.len() && name@[k] == '.' && (forall|j: int|
                    k < j < name@.len() ==> #[trigger] name@[j] != '.') implies name@.skip(k + 1)
                != "json"@ by {
                if k < i - 1 {
                    assert(name@[i - 1] == '.');
                } else if k > i - 1 {
                    assert(v@[k] != '.');
                }
            }
        }
    }
    r
}

/// What purging does with a status file.
#[derive(Debug)]
pub enum PurgeAction {
    /// Leave it.
    Keep,
    /// Remove it.
    Remove,
    /// Remove it unless the process with this pid is alive.
    RemoveIfDead(u32),
}

/// Decide whether purging removes a status file, given what was read from it: an
/// unreadable file stays, an unparseable one goes, one with an unknown provider or
/// status goes, and any other goes when its process is gone.
pub fn purge_decision(read: &StatusFileRead) -> (r: PurgeAction)
    ensures
        match read {
            StatusFileRead::Missing => r is Keep,
            StatusFileRead::Unparseable => r is Remove,
            StatusFileRead::Parsed(f) => if valid_status_file(f@) {
                r == PurgeAction::RemoveIfDead(f.pid)
            } else {
                r is Remove
            },
        },
{
    match read {
        StatusFileRead::Missing => PurgeAction::Keep,
        StatusFileRead::Unparseable => PurgeAction::Remove,
        StatusFileRead::Parsed(f) => {
            if !is_known_provider(f.provider.as_str()) || normalized_status(f.status.as_str()).is_none() {
                PurgeAction::Remove
            } else {
                PurgeAction::RemoveIfDead(f.pid)
            }
        },
    }
}

} // verus!
