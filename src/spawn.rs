use vstd::prelude::*;
use vstd::string::StringExecFns;

use crate::error::SessionError;
use crate::registry::{name_taken, SessionRegistry};

verus! {

/// Rows of a freshly opened terminal.
pub const DEFAULT_ROWS: u16 = 32;

/// Columns of a freshly opened terminal.
pub const DEFAULT_COLS: u16 = 120;

/// The geometry of a pseudo-terminal, in character cells; pixel sizes are
/// always left unset (zero).
pub struct TermSize {
    pub rows: u16,
    pub cols: u16,
}

impl TermSize {
    /// The geometry of a terminal as a session starts.
    pub fn initial() -> (r: TermSize)
        ensures
            r.rows == DEFAULT_ROWS,
            r.cols == DEFAULT_COLS,
    {
        TermSize { rows: DEFAULT_ROWS, cols: DEFAULT_COLS }
    }

    /// The geometry asked for by a resize, columns first as callers give it.
    pub fn resized(cols: u16, rows: u16) -> (r: TermSize)
        ensures
            r.rows == rows,
            r.cols == cols,
    {
        TermSize { rows, cols }
    }
}

/// Relies on uuid's `Uuid::new_v4` and its `Display`: a random version-4 id,
/// written as 36 characters, with hyphens at 8, 13, 18 and 23. `new_v4`
/// panics when the operating system's random source fails.
#[verifier::external_body]
fn new_session_id() -> (r: String)
    ensures
        r@.len() == 36,
        r@[8] == '-' && r@[13] == '-' && r@[18] == '-' && r@[23] == '-',
{
    uuid::Uuid::new_v4().to_string()
}

impl<H> SessionRegistry<H> {
    /// The checks that open a spawn: refuses a name that a live session holds,
    /// then draws a fresh id for the new session.
    ///
    /// The id is random; should it equal a live session's id the spawn is
    /// refused rather than handed an id already in use.
    pub fn begin_spawn(&self, name: &String) -> (r: Result<String, SessionError>)
        requires
            self.wf(),
        ensures
            name_taken(self@, name@) <==> r == Err::<String, SessionError>(
                SessionError::DuplicateName(*name),
            ),
            r matches Ok(id) ==> !self@.contains_key(id@) && id@.len() == 36,
            r matches Err(e) ==> e is DuplicateName || e is IdCollision,
            r matches Err(SessionError::IdCollision(id)) ==> self@.contains_key(id@),
    {
        self.check_name_free(name)?;
        let id = new_session_id();
        if self.contains_id(&id) {
            return Err(SessionError::IdCollision(id));
        }
        Ok(id)
    }
}

/// The name of the program that every session runs.
pub open spec fn agent_program() -> Seq<char> {
    "pi"@
}

/// How to start one agent: program, arguments and the environment values
/// that tell the agent who it is.
pub struct LaunchPlan {
    pub program: String,
    pub args: Vec<String>,
    pub env: Vec<(String, String)>,
}

/// The environment that identifies a session to its agent.
pub open spec fn launch_env(name: Seq<char>, role: Seq<char>, id: Seq<char>) -> Seq<
    (Seq<char>, Seq<char>),
> {
    seq![
        ("HIVE_NAME"@, name),
        ("HIVE_ROLE"@, role),
        ("HIVE_ID"@, id),
        ("HIVE_INTERACTIVE"@, "1"@),
    ]
}

/// The arguments of the agent program: the extension to load, if one exists.
pub open spec fn launch_args(extension: Option<Seq<char>>) -> Seq<Seq<char>> {
    match extension {
        Some(path) => seq!["-e"@, path],
        None => Seq::empty(),
    }
}

/// The characters of an optional path.
pub open spec fn path_view(p: Option<String>) -> Option<Seq<char>> {
    match p {
        Some(s) => Some(s@),
        None => None,
    }
}

fn pair(key: &str, value: &String) -> (r: (String, String))
    ensures
        r.0@ == key@,
        r.1@ == value@,
{
    (String::from_str(key), value.clone())
}

/// The launch of the agent for session `id`, named `name` with role `role`,
/// loading `extension` when the host has one.
pub fn launch_plan(name: &String, role: &String, id: &String, extension: Option<String>) -> (r:
    LaunchPlan)
    ensures
        r.program@ == agent_program(),
        r.args@.map_values(|a: String| a@) == launch_args(path_view(extension)),
        r.env@.map_values(|kv: (String, String)| (kv.0@, kv.1@)) == launch_env(
            name@,
            role@,
            id@,
        ),
{
    let mut args: Vec<String> = Vec::new();
    let ghost ext_view = path_view(extension);
    match extension {
        Some(path) => {
            args.push(String::from_str("-e"));
            args.push(path);
        },
        None => {},
    }
    let mut env: Vec<(String, String)> = Vec::new();
    env.push(pair("HIVE_NAME", name));
    env.push(pair("HIVE_ROLE", role));
    env.push(pair("HIVE_ID", id));
    let one = String::from_str("1");
    env.push(pair("HIVE_INTERACTIVE", &one));
    assert(args@.map_values(|a: String| a@) =~= launch_args(ext_view));
    assert(env@.map_values(|kv: (String, String)| (kv.0@, kv.1@)) =~= launch_env(
        name@,
        role@,
        id@,
    ));
    LaunchPlan { program: String::from_str("pi"), args, env }
}

} // verus!
