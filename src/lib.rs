//! Session registry and control logic for a host of interactive agents,
//! each running behind its own pseudo-terminal.
//!
//! The registry maps session ids to sessions and keeps names unique; spawning
//! draws a fresh id and registers the session; the output forwarder decides,
//! read by read, what to push to the session's consumers and closes the
//! session when its stream ends. Pseudo-terminals, processes and event
//! delivery stay with the caller, which hands this library plain values.

mod error;
mod forwarder;
mod laws;
mod registry;
mod spawn;

pub use error::{error_message, SessionError};
pub use forwarder::{
    concat_chunks, exited_event, lemma_output_in_order, AgentExitedEvent, ForwardStep,
    OutputForwarder, PtyOutputEvent, ReadOutcome, READ_CHUNK_SIZE,
};
pub use laws::{
    ids_fresh_when_drawn, lemma_distinct_names_all_spawn, lemma_duplicate_name_refused,
    lemma_killed_stays_gone, lemma_spawned_listed_once, lemma_unknown_id_no_effect, spawn_all,
    SpawnRequest,
};
pub use registry::{
    lists_exactly, name_taken, names_unique, spawn_model, AgentInfo, AgentModel, Session,
    SessionRegistry, SpawnResult,
};
pub use spawn::{
    agent_program, launch_args, launch_env, launch_plan, path_view, LaunchPlan, TermSize,
    DEFAULT_COLS, DEFAULT_ROWS,
};
