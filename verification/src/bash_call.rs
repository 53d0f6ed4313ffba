//! The arguments of one Bash call: its timeout and the checks on the
//! working directory it asks for.
use vstd::prelude::*;
use vstd::string::*;

verus! {

/// Floor for a requested timeout in seconds; a zero timeout would fail at
/// once.
pub const BASH_TIMEOUT_MIN_SECS: u64 = 1;

/// Ceiling for a requested timeout in seconds, so that a runaway command
/// cannot hold the process for an unbounded time.
pub const BASH_TIMEOUT_MAX_SECS: u64 = 600;

/// Timeout of a call that names none, in seconds.
pub const BASH_TIMEOUT_DEFAULT_SECS: u64 = 60;

/// The timeout of a call: the requested seconds (one minute when none),
/// clamped to one second .. ten minutes.
pub open spec fn effective_timeout(requested: Option<u64>) -> u64 {
    let t = match requested {
        Some(t) => t,
        None => BASH_TIMEOUT_DEFAULT_SECS,
    };
    if t < BASH_TIMEOUT_MIN_SECS {
        BASH_TIMEOUT_MIN_SECS
    } else if t > BASH_TIMEOUT_MAX_SECS {
        BASH_TIMEOUT_MAX_SECS
    } else {
        t
    }
}

pub fn bash_timeout_secs(requested: Option<u64>) -> (r: u64)
    ensures
        r == effective_timeout(requested),
        BASH_TIMEOUT_MIN_SECS <= r <= BASH_TIMEOUT_MAX_SECS,
{
    let t = match requested {
        Some(t) => t,
        None => BASH_TIMEOUT_DEFAULT_SECS,
    };
    if t < BASH_TIMEOUT_MIN_SECS {
        BASH_TIMEOUT_MIN_SECS
    } else if t > BASH_TIMEOUT_MAX_SECS {
        BASH_TIMEOUT_MAX_SECS
    } else {
        t
    }
}

/// What was found out about a requested working directory, after it was
/// rooted at the invocation directory and canonicalized.
#[derive(Debug, Clone, Copy, PartialEq, Eq)]
pub enum CwdProbe {
    /// It is an existing directory.
    Directory {
        /// It lies inside the invocation workspace.
        inside_workspace: bool,
        /// The sandbox grants it as a place to start commands.
        selectable: bool,
    },
    /// It exists but is not a directory.
    NotDirectory,
}

/// The error for a working directory that is not a directory.
pub open spec fn not_directory_text(requested: Seq<char>) -> Seq<char> {
    "Invalid Bash working directory '"@ + requested + "': path is not a directory"@
}

/// The error for a working directory outside every grant.
pub open spec fn outside_grants_text(requested: Seq<char>, workspace: Seq<char>) -> Seq<char> {
    "Invalid Bash working directory '"@ + requested + "': path is outside the invocation workspace '"@ + workspace
        + "' and outside every granted directory. A cwd must be the invocation workspace, a directory granted with `--add-dir` or `[sandbox]` in settings, or a skill directory."@
}

/// Whether a call may start in the probed directory: it must be a
/// directory, and be inside the workspace, granted by the sandbox, or the
/// policy applies no sandbox at all.  Starting there grants nothing: the
/// sandbox still governs every access.
pub open spec fn cwd_verdict(probe: CwdProbe, no_sandbox: bool, requested: Seq<char>, workspace: Seq<char>) -> Result<(), Seq<char>> {
    match probe {
        CwdProbe::NotDirectory => Err(not_directory_text(requested)),
        CwdProbe::Directory { inside_workspace, selectable } => if no_sandbox || inside_workspace || selectable {
            Ok(())
        } else {
            Err(outside_grants_text(requested, workspace))
        },
    }
}

/// Decide on a requested working directory; `requested` and `workspace` are
/// the displayed forms of the request and of the canonical workspace.
pub fn check_bash_cwd(probe: CwdProbe, no_sandbox: bool, requested: &str, workspace: &str) -> (r: Result<(), String>)
    ensures
        match r {
            Ok(()) => cwd_verdict(probe, no_sandbox, requested@, workspace@) is Ok,
            Err(m) => cwd_verdict(probe, no_sandbox, requested@, workspace@) == Err::<(), Seq<char>>(m@),
        },
{
    match probe {
        CwdProbe::NotDirectory => {
            let mut m = <String as StringExecFns>::from_str("Invalid Bash working directory '");
            m.append(requested);
            m.append("': path is not a directory");
            Err(m)
        },
        CwdProbe::Directory { inside_workspace, selectable } => {
            if no_sandbox || inside_workspace || selectable {
                return Ok(());
            }
            let mut m = <String as StringExecFns>::from_str("Invalid Bash working directory '");
            m.append(requested);
            m.append("': path is outside the invocation workspace '");
            m.append(workspace);
            m.append(
                "' and outside every granted directory. A cwd must be the invocation workspace, a directory granted with `--add-dir` or `[sandbox]` in settings, or a skill directory.",
            );
            Err(m)
        },
    }
}

} // verus!
