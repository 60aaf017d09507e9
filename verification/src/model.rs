//! The data that the reservation tools read and answer with.

use serde_json::Value;
use std::collections::HashMap;
use vstd::prelude::*;

verus! {

/// A point in time: microseconds since the epoch, and its ISO-8601 text.
#[derive(Debug, Clone)]
pub struct Timestamp {
    pub micros: i64,
    pub iso: String,
}

/// A project, as the database holds it.
#[derive(Debug, Clone)]
pub struct ProjectRow {
    pub id: Option<i64>,
    pub slug: String,
    pub human_key: String,
}

/// An agent, as the database holds it.
#[derive(Debug, Clone)]
pub struct AgentRow {
    pub id: Option<i64>,
    pub name: String,
}

/// A file reservation, as the database holds it.
#[derive(Debug, Clone)]
pub struct FileReservationRow {
    pub id: Option<i64>,
    pub project_id: i64,
    pub agent_id: i64,
    pub path_pattern: String,
    pub exclusive: i64,
    pub reason: String,
    pub created_ts: Timestamp,
    pub expires_ts: Timestamp,
    pub released_ts: Option<Timestamp>,
}

/// What the archive artifact of one reservation says.
#[derive(Debug, Clone)]
pub struct ArchiveReservationView {
    pub reservation_id: i64,
    pub agent_name: String,
    pub path_pattern: Option<String>,
    pub exclusive: Option<bool>,
    pub reason: String,
    pub released_ts: Option<i64>,
    pub expires_ts: Option<i64>,
}

/// A reservation that was granted.
#[derive(Debug, Clone)]
pub struct GrantedReservation {
    pub id: i64,
    pub path_pattern: String,
    pub exclusive: bool,
    pub reason: String,
    pub expires_ts: String,
}

/// A requested path, and who holds it.
#[derive(Debug, Clone)]
pub struct ReservationConflict {
    pub path: String,
    pub holders: Vec<ConflictHolder>,
}

/// The holder of a conflicting reservation.
#[derive(Debug, Clone)]
pub struct ConflictHolder {
    pub agent: String,
    pub path_pattern: String,
    pub exclusive: bool,
    pub expires_ts: String,
}

/// The holder of a conflicting reservation, before its name is known.
#[derive(Debug, Clone)]
pub struct PendingConflictHolder {
    pub agent_id: i64,
    pub path_pattern: String,
    pub exclusive: bool,
    pub expires_ts: String,
}

/// A requested path, and the ids of those who hold it.
#[derive(Debug, Clone)]
pub struct PendingReservationConflict {
    pub path: String,
    pub holders: Vec<PendingConflictHolder>,
}

/// The answer to a request for reservations.
#[derive(Debug, Clone)]
pub struct ReservationResponse {
    pub granted: Vec<GrantedReservation>,
    pub conflicts: Vec<ReservationConflict>,
}

/// The answer to an authoritative, side-effect-free conflict check.
#[derive(Debug, Clone)]
pub struct ReservationConflictCheckResponse {
    pub conflict_free: bool,
    pub conflicts: Vec<ReservationConflict>,
    pub clear_paths: Vec<String>,
    pub checked_paths: usize,
    pub total_conflicting_reservations: usize,
    pub output_truncated: bool,
    pub project: String,
    pub snapshot_ts: String,
    pub authoritative_source: String,
    pub read_only: bool,
}

/// The answer to a release.
#[derive(Debug, Clone)]
pub struct ReleaseResult {
    pub released: i32,
    pub released_at: String,
}

/// The answer to a renewal.
#[derive(Debug, Clone)]
pub struct RenewalResult {
    pub renewed: i32,
    pub file_reservations: Vec<RenewedReservation>,
}

/// A reservation that was renewed.
#[derive(Debug, Clone)]
pub struct RenewedReservation {
    pub id: i64,
    pub path_pattern: String,
    pub old_expires_ts: String,
    pub new_expires_ts: String,
}

/// The code of an error that a tool call answers with.
#[derive(Debug, Clone, Copy, PartialEq, Eq, Structural)]
pub enum McpErrorCode {
    InvalidParams,
    InternalError,
    /// The tool itself failed; the data says how.
    ToolExecutionError,
    /// Another code of the protocol.
    Other(i32),
}

/// An error that a tool call answers with.
#[derive(Debug, Clone)]
pub struct McpError {
    pub code: McpErrorCode,
    pub message: String,
    pub data: Option<Value>,
}

/// The kinds of database error that the tools tell apart.
#[derive(Debug, Clone, Copy, PartialEq, Eq, Structural)]
pub enum DbErrorKind {
    Pool,
    Sqlite,
    Schema,
    ResourceBusy,
    PoolExhausted,
    CircuitBreakerOpen,
    IntegrityCorruption,
    NotFound,
    Other,
}

/// A database error: its kind and text, how it is classified, and the error
/// that a tool call reports for it.
#[derive(Debug, Clone)]
pub struct DbFailure {
    pub kind: DbErrorKind,
    pub detail: String,
    pub class: String,
    pub blocks_edits: bool,
    pub safe_to_continue_read_only: bool,
    pub recommended_command: Option<String>,
    pub error: McpError,
}

/// How a database call ended. A call that was cut short carries the error that
/// a tool call reports for it.
#[derive(Debug, Clone)]
pub enum DbOutcome<T> {
    Done(T),
    Failed(DbFailure),
    Cancelled { reason: String, error: McpError },
    Panicked { message: String, error: McpError },
}

/// The name that an agent goes by: its canonical name, where the registry of
/// names knows one.
pub open spec fn name_or(canonical: Option<String>, name: String) -> String {
    match canonical {
        Some(known) => known,
        None => name,
    }
}

/// The name that an agent goes by.
pub fn canonical_name(canonical: Option<String>, name: String) -> (r: String)
    ensures
        r == name_or(canonical, name),
{
    match canonical {
        Some(known) => known,
        None => name,
    }
}

/// The names of the agents that have an id, by id. Of two agents with one id the
/// later counts.
pub open spec fn names_of(agents: Seq<AgentRow>) -> Map<i64, String>
    decreases agents.len(),
{
    if agents.len() == 0 {
        Map::empty()
    } else {
        let before = names_of(agents.drop_last());
        match agents.last().id {
            Some(id) => before.insert(id, agents.last().name),
            None => before,
        }
    }
}

/// The names of the agents that have an id, by id.
pub fn agent_names(agents: &Vec<AgentRow>) -> (r: HashMap<i64, String>)
    ensures
        r@ == names_of(agents@),
{
    broadcast use vstd::std_specs::hash::group_hash_axioms;

    let mut names: HashMap<i64, String> = HashMap::new();
    let mut i: usize = 0;
    while i < agents.len()
        invariant
            i <= agents.len(),
            names@ == names_of(agents@.take(i as int)),
        decreases agents.len() - i,
    {
        proof {
            assert(agents@.take(i + 1).drop_last() =~= agents@.take(i as int));
        }
        if let Some(id) = agents[i].id {
            names.insert(id, agents[i].name.clone());
        }
        i = i + 1;
    }
    proof {
        assert(agents@.take(agents.len() as int) =~= agents@);
    }
    names
}

/// The holder of a conflicting reservation, as plain values.
pub struct HolderView {
    pub agent: Seq<char>,
    pub path_pattern: Seq<char>,
    pub exclusive: bool,
    pub expires_ts: Seq<char>,
}

impl View for ConflictHolder {
    type V = HolderView;

    open spec fn view(&self) -> HolderView {
        HolderView {
            agent: self.agent@,
            path_pattern: self.path_pattern@,
            exclusive: self.exclusive,
            expires_ts: self.expires_ts@,
        }
    }
}

/// Holders as plain values.
pub open spec fn holder_views(holders: Seq<ConflictHolder>) -> Seq<HolderView> {
    holders.map_values(|holder: ConflictHolder| holder@)
}

/// A requested path and who holds it, as plain values.
pub struct ConflictView {
    pub path: Seq<char>,
    pub holders: Seq<HolderView>,
}

impl View for ReservationConflict {
    type V = ConflictView;

    open spec fn view(&self) -> ConflictView {
        ConflictView { path: self.path@, holders: holder_views(self.holders@) }
    }
}

/// Conflicts as plain values.
pub open spec fn conflict_views(conflicts: Seq<ReservationConflict>) -> Seq<ConflictView> {
    conflicts.map_values(|conflict: ReservationConflict| conflict@)
}

} // verus!
