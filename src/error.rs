use vstd::prelude::*;
use vstd::string::StringExecFns;

verus! {

/// Every failure that a session operation reports to its caller.
///
/// Variants that wrap an operating-system failure carry that failure's
/// description; `DuplicateName` and `UnknownId` carry the offending name or id.
#[derive(Debug)]
pub enum SessionError {
    /// The lock guarding the registry could not be taken.
    LockFailed,
    /// A live session already uses this name.
    DuplicateName(String),
    /// No live session has this id.
    UnknownId(String),
    /// A freshly drawn id is already held by a live session.
    IdCollision(String),
    /// The pseudo-terminal pair could not be allocated.
    OpenPty(String),
    /// The agent process could not be started.
    SpawnProcess(String),
    /// The output stream of the terminal could not be obtained.
    CloneReader(String),
    /// The input stream of the terminal could not be obtained.
    TakeWriter(String),
    /// Writing input to the session failed.
    Write(String),
    /// Flushing input to the session failed.
    Flush(String),
    /// The terminal refused the new geometry.
    Resize(String),
    /// The agent process could not be terminated.
    Kill(String),
}

/// The caller-visible text of an error.
pub open spec fn error_message(e: SessionError) -> Seq<char> {
    match e {
        SessionError::LockFailed => "failed to lock session map"@,
        SessionError::DuplicateName(n) => "agent name \""@ + n@ + "\" is already running"@,
        SessionError::UnknownId(id) => "unknown agent id "@ + id@,
        SessionError::IdCollision(id) => "agent id "@ + id@ + " is already in use"@,
        SessionError::OpenPty(c) => "failed to open PTY: "@ + c@,
        SessionError::SpawnProcess(c) => "failed to spawn pi: "@ + c@,
        SessionError::CloneReader(c) => "failed to clone PTY reader: "@ + c@,
        SessionError::TakeWriter(c) => "failed to open PTY writer: "@ + c@,
        SessionError::Write(c) => "write failed: "@ + c@,
        SessionError::Flush(c) => "flush failed: "@ + c@,
        SessionError::Resize(c) => "resize failed: "@ + c@,
        SessionError::Kill(c) => "kill failed: "@ + c@,
    }
}

fn prefixed(prefix: &str, detail: &String) -> (r: String)
    ensures
        r@ == prefix@ + detail@,
{
    String::from_str(prefix).concat(detail.as_str())
}

impl SessionError {
    /// The error as the text shown to the caller.
    pub fn message(&self) -> (r: String)
        ensures
            r@ == error_message(*self),
    {
        match self {
            SessionError::LockFailed => String::from_str("failed to lock session map"),
            SessionError::DuplicateName(n) => {
                prefixed("agent name \"", n).concat("\" is already running")
            },
            SessionError::UnknownId(id) => prefixed("unknown agent id ", id),
            SessionError::IdCollision(id) => prefixed("agent id ", id).concat(" is already in use"),
            SessionError::OpenPty(c) => prefixed("failed to open PTY: ", c),
            SessionError::SpawnProcess(c) => prefixed("failed to spawn pi: ", c),
            SessionError::CloneReader(c) => prefixed("failed to clone PTY reader: ", c),
            SessionError::TakeWriter(c) => prefixed("failed to open PTY writer: ", c),
            SessionError::Write(c) => prefixed("write failed: ", c),
            SessionError::Flush(c) => prefixed("flush failed: ", c),
            SessionError::Resize(c) => prefixed("resize failed: ", c),
            SessionError::Kill(c) => prefixed("kill failed: ", c),
        }
    }

    /// Whether this is the error for an id that names no live session.
    pub fn is_unknown_id(&self) -> (r: bool)
        ensures
            r == (*self is UnknownId),
    {
        match self {
            SessionError::UnknownId(_) => true,
            _ => false,
        }
    }

    /// Whether this is the error for a name already taken by a live session.
    pub fn is_duplicate_name(&self) -> (r: bool)
        ensures
            r == (*self is DuplicateName),
    {
        match self {
            SessionError::DuplicateName(_) => true,
            _ => false,
        }
    }
}

} // verus!
