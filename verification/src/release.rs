//! The release of reservations, and the replay of releases that could not reach
//! the database when they were asked for.

use crate::archive::{
    active_heals, active_record, dispatch_release_archive_write, heal_active, heal_released,
    heals_are_written, id_or_zero, is_release_heal, needs_active_heal, needs_release_heal,
    released_record, released_records, row_id, writes_any_records, writes_record, ArchiveWrite,
};
use crate::digest::content_hash;
use crate::errors::{
    db_error_supports_release_intent, is_database_error, is_tool_error, is_unavailable,
    legacy_tool_error, mcp_error_supports_release_intent, reason_tree, tool_error_names_its_type,
};
use crate::filter::{
    answers_filter, filter_root_message, first_invalid, is_normalized_filter, is_relative_run,
    normalize_filter_paths, pick_ids, picked_ids, relative_filter_paths, run_patterns, PathStop,
    RelativePaths,
};
use crate::intent::{
    append_release_intent, append_release_replay_record, appended_marker_is_read_back,
    appended_text, appended_text_is_line, entry_of_record, filter_twice, filtered_is_there,
    intent_record_is_read_back, is_intent, is_torn, log_entries, open_entries,
    open_releases_are_identified, optional_ids, optional_texts, queued_entries,
    read_queued_release_intents, replay_content, replay_record, replay_record_is_read_back,
    IntentView, LogEntry, QueuedReleaseIntent, ReleaseIntent,
};
use crate::json::{
    is_json_of, is_record, json_bool, json_encoding, json_int, json_object, json_string, json_text,
    json_tree, with, JsonTree,
};
use crate::machine::Machine;
use crate::model::{
    canonical_name, name_or, names_of, AgentRow, ArchiveReservationView, DbFailure, DbOutcome,
    FileReservationRow, McpError, ProjectRow, ReleaseResult,
};
use crate::patterns::{invalidity, PatternFacts};
use crate::text::{same_text, texts, utf8_len, with_line};
use serde_json::Value;
use std::collections::{BTreeMap, HashMap};
use vstd::prelude::*;

verus! {

/// A release that waits for its project.
#[derive(Debug, Clone)]
pub struct ReleaseRequest {
    pub project_key: String,
    pub agent_name: String,
    pub paths: Option<Vec<String>>,
    pub file_reservation_ids: Option<Vec<i64>>,
}

/// Takes a request to release reservations. `canonical` is the canonical form of
/// the agent's name, where there is one.
pub fn release_file_reservations(
    project_key: String,
    agent_name: String,
    canonical: Option<String>,
    paths: Option<Vec<String>>,
    file_reservation_ids: Option<Vec<i64>>,
) -> (r: ReleaseRequest)
    ensures
        r == (ReleaseRequest {
            project_key,
            agent_name: name_or(canonical, agent_name),
            paths,
            file_reservation_ids,
        }),
{
    ReleaseRequest {
        project_key,
        agent_name: canonical_name(canonical, agent_name),
        paths,
        file_reservation_ids,
    }
}

/// The steps of a release that need the database.
#[derive(Debug, Clone, Copy, PartialEq, Eq, Structural)]
pub enum ReleaseStage {
    GetDbPool,
    ResolveProject,
    ResolveAgent,
    ListUnreleased,
    Release,
}

/// The name of a step.
pub open spec fn stage_text(stage: ReleaseStage) -> Seq<char> {
    match stage {
        ReleaseStage::GetDbPool => "get_db_pool"@,
        ReleaseStage::ResolveProject => "resolve_project"@,
        ReleaseStage::ResolveAgent => "resolve_agent"@,
        ReleaseStage::ListUnreleased => "list_unreleased_file_reservations"@,
        ReleaseStage::Release => "release_reservations"@,
    }
}

/// The name of a step.
pub fn stage_name(stage: ReleaseStage) -> (r: &'static str)
    ensures
        r@ == stage_text(stage),
{
    match stage {
        ReleaseStage::GetDbPool => "get_db_pool",
        ReleaseStage::ResolveProject => "resolve_project",
        ReleaseStage::ResolveAgent => "resolve_agent",
        ReleaseStage::ListUnreleased => "list_unreleased_file_reservations",
        ReleaseStage::Release => "release_reservations",
    }
}

/// An error of a lookup, and its text.
#[derive(Debug, Clone)]
pub struct LookupError {
    pub error: McpError,
    pub detail: String,
}

/// What ended a release.
#[derive(Debug, Clone)]
pub enum ReleaseFailure {
    /// The project or the agent was not found, or could not be looked up.
    Lookup { stage: ReleaseStage, error: McpError, detail: String },
    /// The request itself is wrong.
    Refused(McpError),
    /// The database failed.
    Database { stage: ReleaseStage, failure: DbFailure },
    Cancelled { reason: String, error: McpError },
    Panicked { message: String, error: McpError },
}

/// A release that ended early.
#[derive(Debug, Clone)]
pub struct ReleaseFailed {
    pub request: ReleaseRequest,
    pub cause: ReleaseFailure,
}

/// A release that is to be queued: it ended at `stage`, for the reason `detail`.
#[derive(Debug, Clone)]
pub struct QueuedRelease {
    pub request: ReleaseRequest,
    pub stage: ReleaseStage,
    pub detail: String,
}

/// What the tool call does about a release that ended early.
#[derive(Debug, Clone)]
pub enum ReleaseStop {
    Queue(QueuedRelease),
    Fail(McpError),
}

/// What the tool call does about a release that ended early: it is queued where
/// the database could not be used, and fails otherwise.
pub open spec fn stop_of(failed: ReleaseFailed) -> ReleaseStop {
    match failed.cause {
        ReleaseFailure::Lookup { stage, error, detail } => if is_database_error(error) {
            ReleaseStop::Queue(QueuedRelease { request: failed.request, stage, detail })
        } else {
            ReleaseStop::Fail(error)
        },
        ReleaseFailure::Refused(error) => ReleaseStop::Fail(error),
        ReleaseFailure::Database { stage, failure } => if is_unavailable(failure.kind) {
            ReleaseStop::Queue(
                QueuedRelease { request: failed.request, stage, detail: failure.detail },
            )
        } else {
            ReleaseStop::Fail(failure.error)
        },
        ReleaseFailure::Cancelled { error, .. } => ReleaseStop::Fail(error),
        ReleaseFailure::Panicked { error, .. } => ReleaseStop::Fail(error),
    }
}

/// Why the replay of a queued release failed: a text, or an error whose text is
/// to be taken.
#[derive(Debug, Clone)]
pub enum ReplayDetail {
    Text(String),
    TextOf(McpError),
}

/// Why the replay of a queued release failed, and whether it is to be tried
/// again.
#[derive(Debug, Clone)]
pub struct ReplayFailure {
    pub detail: ReplayDetail,
    pub retryable: bool,
}

/// Whether `r` is what a replay makes of a release that ended early: it is tried
/// again where the database could not be used, or was cut short.
pub open spec fn is_replay_failure(r: ReplayFailure, cause: ReleaseFailure) -> bool {
    match cause {
        ReleaseFailure::Lookup { error, detail, .. } => {
            &&& r.detail == ReplayDetail::Text(detail)
            &&& r.retryable == is_database_error(error)
        },
        ReleaseFailure::Refused(error) => {
            &&& r.detail == ReplayDetail::TextOf(error)
            &&& r.retryable == is_database_error(error)
        },
        ReleaseFailure::Database { failure, .. } => {
            &&& r.detail == ReplayDetail::Text(failure.detail)
            &&& r.retryable == is_unavailable(failure.kind)
        },
        ReleaseFailure::Cancelled { reason, .. } => {
            &&& r.detail matches ReplayDetail::Text(text) && text@ == "cancelled: "@ + reason@
            &&& r.retryable
        },
        ReleaseFailure::Panicked { message, .. } => {
            &&& r.detail matches ReplayDetail::Text(text) && text@ == "panicked: "@ + message@
            &&& r.retryable
        },
    }
}

impl ReleaseFailed {
    /// What the tool call does about it.
    pub fn stop(self) -> (r: ReleaseStop)
        ensures
            r == stop_of(self),
    {
        match self.cause {
            ReleaseFailure::Lookup { stage, error, detail } => if mcp_error_supports_release_intent(
                &error,
            ) {
                ReleaseStop::Queue(QueuedRelease { request: self.request, stage, detail })
            } else {
                ReleaseStop::Fail(error)
            },
            ReleaseFailure::Refused(error) => ReleaseStop::Fail(error),
            ReleaseFailure::Database { stage, failure } => if db_error_supports_release_intent(
                &failure,
            ) {
                ReleaseStop::Queue(
                    QueuedRelease { request: self.request, stage, detail: failure.detail },
                )
            } else {
                ReleaseStop::Fail(failure.error)
            },
            ReleaseFailure::Cancelled { error, .. } => ReleaseStop::Fail(error),
            ReleaseFailure::Panicked { error, .. } => ReleaseStop::Fail(error),
        }
    }

    /// What a replay makes of it.
    pub fn replay(self) -> (r: ReplayFailure)
        ensures
            is_replay_failure(r, self.cause),
    {
        match self.cause {
            ReleaseFailure::Lookup { error, detail, .. } => {
                let retryable = mcp_error_supports_release_intent(&error);
                ReplayFailure { detail: ReplayDetail::Text(detail), retryable }
            },
            ReleaseFailure::Refused(error) => {
                let retryable = mcp_error_supports_release_intent(&error);
                ReplayFailure { detail: ReplayDetail::TextOf(error), retryable }
            },
            ReleaseFailure::Database { failure, .. } => {
                let retryable = db_error_supports_release_intent(&failure);
                ReplayFailure { detail: ReplayDetail::Text(failure.detail), retryable }
            },
            ReleaseFailure::Cancelled { reason, .. } => ReplayFailure {
                detail: ReplayDetail::Text("cancelled: ".to_owned().concat(reason.as_str())),
                retryable: true,
            },
            ReleaseFailure::Panicked { message, .. } => ReplayFailure {
                detail: ReplayDetail::Text("panicked: ".to_owned().concat(message.as_str())),
                retryable: true,
            },
        }
    }
}

/// What becomes of a database outcome that is not a success.
pub open spec fn failure_of<T>(out: DbOutcome<T>, stage: ReleaseStage) -> ReleaseFailure {
    match out {
        DbOutcome::Done(_) => arbitrary(),
        DbOutcome::Failed(failure) => ReleaseFailure::Database { stage, failure },
        DbOutcome::Cancelled { reason, error } => ReleaseFailure::Cancelled { reason, error },
        DbOutcome::Panicked { message, error } => ReleaseFailure::Panicked { message, error },
    }
}

fn outcome_or_failure<T>(out: DbOutcome<T>, stage: ReleaseStage) -> (r: Result<T, ReleaseFailure>)
    ensures
        match out {
            DbOutcome::Done(value) => r == Ok::<T, ReleaseFailure>(value),
            _ => r == Err::<T, ReleaseFailure>(failure_of(out, stage)),
        },
{
    match out {
        DbOutcome::Done(value) => Ok(value),
        DbOutcome::Failed(failure) => Err(ReleaseFailure::Database { stage, failure }),
        DbOutcome::Cancelled { reason, error } => Err(ReleaseFailure::Cancelled { reason, error }),
        DbOutcome::Panicked { message, error } => Err(ReleaseFailure::Panicked { message, error }),
    }
}

/// A release whose project is known. It waits for what the pattern engine says of
/// the paths of `run`.
#[derive(Debug, Clone)]
pub struct ReleasePaths {
    pub request: ReleaseRequest,
    pub project: ProjectRow,
    pub run: Option<RelativePaths>,
}

impl ReleaseRequest {
    /// The connection to the database could not be had: the release is queued.
    pub fn pool_unavailable(self, detail: String) -> (r: QueuedRelease)
        ensures
            r == (QueuedRelease { request: self, stage: ReleaseStage::GetDbPool, detail }),
    {
        QueuedRelease { request: self, stage: ReleaseStage::GetDbPool, detail }
    }

    /// Takes the project.
    pub fn with_project(self, found: Result<ProjectRow, LookupError>, machine: &Machine) -> (r: Result<
        ReleasePaths,
        ReleaseFailed,
    >)
        ensures
            match found {
                Ok(project) => r matches Ok(next) && {
                    &&& next.request == self
                    &&& next.project == project
                    &&& match (next.run, self.paths) {
                        (Some(run), Some(list)) => is_relative_run(
                            run,
                            project.human_key@,
                            list@,
                            *machine,
                        ),
                        (None, None) => true,
                        _ => false,
                    }
                },
                Err(lookup) => r == Err::<ReleasePaths, ReleaseFailed>(
                    ReleaseFailed {
                        request: self,
                        cause: ReleaseFailure::Lookup {
                            stage: ReleaseStage::ResolveProject,
                            error: lookup.error,
                            detail: lookup.detail,
                        },
                    },
                ),
            },
    {
        match found {
            Ok(project) => {
                let run = relative_filter_paths(project.human_key.as_str(), &self.paths, machine);
                Ok(ReleasePaths { request: self, project, run })
            },
            Err(lookup) => Err(
                ReleaseFailed {
                    request: self,
                    cause: ReleaseFailure::Lookup {
                        stage: ReleaseStage::ResolveProject,
                        error: lookup.error,
                        detail: lookup.detail,
                    },
                },
            ),
        }
    }
}

/// A release whose paths are usable. It waits for its agent.
#[derive(Debug, Clone)]
pub struct ReleaseAgent {
    pub request: ReleaseRequest,
    pub project: ProjectRow,
    pub paths: Option<Vec<String>>,
}

impl ReleasePaths {
    /// Takes what the pattern engine says of the paths, one by one.
    pub fn judge(self, facts: &Vec<PatternFacts>) -> (r: Result<ReleaseAgent, ReleaseFailed>)
        requires
            facts@.len() == run_patterns(self.run).len(),
        ensures
            match r {
                Ok(next) => {
                    &&& next.request == self.request
                    &&& next.project == self.project
                    &&& is_normalized_filter(Ok(next.paths), self.run, facts@)
                },
                Err(failed) => {
                    &&& failed.request == self.request
                    &&& failed.cause matches ReleaseFailure::Refused(error)
                    &&& is_normalized_filter(Err(error), self.run, facts@)
                },
            },
    {
        match normalize_filter_paths(self.run, facts) {
            Ok(paths) => Ok(ReleaseAgent { request: self.request, project: self.project, paths }),
            Err(error) => Err(
                ReleaseFailed { request: self.request, cause: ReleaseFailure::Refused(error) },
            ),
        }
    }
}

/// A release with filters. It waits for the reservations of the project that were
/// not released.
#[derive(Debug, Clone)]
pub struct ReleaseList {
    pub request: ReleaseRequest,
    pub project: ProjectRow,
    pub agent: AgentRow,
    pub paths: Option<Vec<String>>,
}

/// A release that waits for the database to release the agent's reservations with
/// these ids, or all of them.
#[derive(Debug, Clone)]
pub struct ReleaseCall {
    pub request: ReleaseRequest,
    pub project: ProjectRow,
    pub agent: AgentRow,
    pub ids: Option<Vec<i64>>,
}

/// What a release waits for next.
#[derive(Debug, Clone)]
pub enum ReleaseNext {
    List(ReleaseList),
    Release(ReleaseCall),
}

impl ReleaseAgent {
    /// Takes the agent. Without filters all its reservations are released.
    pub fn with_agent(self, found: Result<AgentRow, LookupError>) -> (r: Result<
        ReleaseNext,
        ReleaseFailed,
    >)
        ensures
            match found {
                Ok(agent) => r == Ok::<ReleaseNext, ReleaseFailed>(
                    if self.paths is Some || self.request.file_reservation_ids is Some {
                        ReleaseNext::List(
                            ReleaseList {
                                request: self.request,
                                project: self.project,
                                agent,
                                paths: self.paths,
                            },
                        )
                    } else {
                        ReleaseNext::Release(
                            ReleaseCall {
                                request: self.request,
                                project: self.project,
                                agent,
                                ids: None,
                            },
                        )
                    },
                ),
                Err(lookup) => r == Err::<ReleaseNext, ReleaseFailed>(
                    ReleaseFailed {
                        request: self.request,
                        cause: ReleaseFailure::Lookup {
                            stage: ReleaseStage::ResolveAgent,
                            error: lookup.error,
                            detail: lookup.detail,
                        },
                    },
                ),
            },
    {
        match found {
            Ok(agent) => {
                if self.paths.is_some() || self.request.file_reservation_ids.is_some() {
                    Ok(
                        ReleaseNext::List(
                            ReleaseList {
                                request: self.request,
                                project: self.project,
                                agent,
                                paths: self.paths,
                            },
                        ),
                    )
                } else {
                    Ok(
                        ReleaseNext::Release(
                            ReleaseCall {
                                request: self.request,
                                project: self.project,
                                agent,
                                ids: None,
                            },
                        ),
                    )
                }
            },
            Err(lookup) => Err(
                ReleaseFailed {
                    request: self.request,
                    cause: ReleaseFailure::Lookup {
                        stage: ReleaseStage::ResolveAgent,
                        error: lookup.error,
                        detail: lookup.detail,
                    },
                },
            ),
        }
    }
}

/// A release that waits for the pattern engine to say, of each of `rows` and each
/// of `paths`, whether their patterns overlap.
#[derive(Debug, Clone)]
pub struct ReleaseMatch {
    pub request: ReleaseRequest,
    pub project: ProjectRow,
    pub agent: AgentRow,
    pub paths: Option<Vec<String>>,
    pub rows: Vec<FileReservationRow>,
}

impl ReleaseList {
    /// Takes the reservations of the project that were not released.
    pub fn with_rows(self, out: DbOutcome<Vec<FileReservationRow>>) -> (r: Result<
        ReleaseMatch,
        ReleaseFailed,
    >)
        ensures
            match out {
                DbOutcome::Done(rows) => r == Ok::<ReleaseMatch, ReleaseFailed>(
                    ReleaseMatch {
                        request: self.request,
                        project: self.project,
                        agent: self.agent,
                        paths: self.paths,
                        rows,
                    },
                ),
                _ => r == Err::<ReleaseMatch, ReleaseFailed>(
                    ReleaseFailed {
                        request: self.request,
                        cause: failure_of(out, ReleaseStage::ListUnreleased),
                    },
                ),
            },
    {
        match outcome_or_failure(out, ReleaseStage::ListUnreleased) {
            Ok(rows) => Ok(
                ReleaseMatch {
                    request: self.request,
                    project: self.project,
                    agent: self.agent,
                    paths: self.paths,
                    rows,
                },
            ),
            Err(cause) => Err(ReleaseFailed { request: self.request, cause }),
        }
    }
}

impl ReleaseMatch {
    /// Picks what is released. `overlaps` says of each row and each filter path
    /// whether they overlap.
    pub fn pick(self, overlaps: &Vec<Vec<bool>>) -> (r: ReleaseCall)
        requires
            answers_filter(overlaps@, self.rows@, self.paths),
        ensures
            r.request == self.request,
            r.project == self.project,
            r.agent == self.agent,
            r.ids matches Some(ids) && ids@ == picked_ids(
                self.rows@,
                id_or_zero(self.agent.id),
                self.paths,
                self.request.file_reservation_ids,
                overlaps@,
            ),
    {
        let ids = pick_ids(
            &self.rows,
            row_id(self.agent.id),
            &self.paths,
            &self.request.file_reservation_ids,
            overlaps,
        );
        ReleaseCall {
            request: self.request,
            project: self.project,
            agent: self.agent,
            ids: Some(ids),
        }
    }
}

/// A release that was done: how many reservations it released, and the write to
/// the archive that is due.
#[derive(Debug, Clone)]
pub struct ReleaseDone {
    pub project: ProjectRow,
    pub released: usize,
    pub write: Option<ArchiveWrite>,
}

/// Whether `done` is the release of `rows`.
pub open spec fn is_release_of(
    done: ReleaseDone,
    project: ProjectRow,
    agent: AgentRow,
    rows: Seq<FileReservationRow>,
) -> bool {
    &&& done.project == project
    &&& done.released == rows.len()
    &&& writes_any_records(
        done.write,
        project.slug@,
        released_records(project.human_key@, agent.name@, rows),
        "reservation release archive write project="@ + project.slug@,
    )
}

impl ReleaseCall {
    /// Takes the rows that the database released.
    pub fn released(self, out: DbOutcome<Vec<FileReservationRow>>) -> (r: Result<
        ReleaseDone,
        ReleaseFailed,
    >)
        ensures
            match out {
                DbOutcome::Done(rows) => r matches Ok(done) && is_release_of(
                    done,
                    self.project,
                    self.agent,
                    rows@,
                ),
                _ => r == Err::<ReleaseDone, ReleaseFailed>(
                    ReleaseFailed {
                        request: self.request,
                        cause: failure_of(out, ReleaseStage::Release),
                    },
                ),
            },
    {
        match outcome_or_failure(out, ReleaseStage::Release) {
            Ok(rows) => {
                let write = dispatch_release_archive_write(&self.project, &self.agent, &rows);
                Ok(ReleaseDone { project: self.project, released: rows.len(), write })
            },
            Err(cause) => Err(ReleaseFailed { request: self.request, cause }),
        }
    }
}

/// `n`, or the largest number that an answer can hold.
pub open spec fn answer_count(n: int) -> int {
    if n <= i32::MAX {
        n
    } else {
        i32::MAX as int
    }
}

/// `n`, or the largest number that an answer can hold.
pub fn count_for_answer(n: usize) -> (r: i32)
    ensures
        r == answer_count(n as int),
{
    if n <= 2_147_483_647 {
        n as i32
    } else {
        i32::MAX
    }
}

impl QueuedRelease {
    /// The record that queues the release.
    pub fn intent(&self, created_ts: i64) -> (r: ReleaseIntent)
        ensures
            is_intent(
                r,
                self.request.project_key@,
                self.request.agent_name@,
                optional_texts(self.request.paths),
                optional_ids(self.request.file_reservation_ids),
                stage_text(self.stage),
                self.detail@,
                created_ts,
            ),
            r.content_sha256@.len() == 64,
    {
        append_release_intent(
            self.request.project_key.as_str(),
            self.request.agent_name.as_str(),
            &self.request.paths,
            &self.request.file_reservation_ids,
            stage_name(self.stage),
            self.detail.as_str(),
            created_ts,
        )
    }
}

/// What is answered to a release that was queued.
pub open spec fn queued_tree(intent: ReleaseIntent, path: Seq<char>, released_at: Seq<char>) -> JsonTree {
    JsonTree::Object(
        map![
            "released"@ => JsonTree::Int(0),
            "released_at"@ => JsonTree::Text(released_at),
            "status"@ => JsonTree::Text("queued"@),
            "queued"@ => JsonTree::Bool(true),
            "message"@ => JsonTree::Text("lease release queued because DB unavailable"@),
            "intent"@ => JsonTree::Object(
                map![
                    "id"@ => JsonTree::Text(intent.intent_id@),
                    "path"@ => JsonTree::Text(path),
                    "content_sha256"@ => JsonTree::Text(intent.content_sha256@),
                    "replay"@ => JsonTree::Text(
                        "automatic_on_next_successful_release_file_reservations_call"@,
                    ),
                ],
            ),
        ],
    )
}

/// The answer to a release that was queued. `appended` is the path of the log that
/// its record was appended to, or why that failed.
pub fn queued_release_intent_response(
    intent: &ReleaseIntent,
    appended: Result<String, String>,
    released_at: &str,
) -> (r: Result<String, McpError>)
    ensures
        match appended {
            Ok(path) => r matches Ok(text) && text@ == json_encoding(
                queued_tree(*intent, path@, released_at@),
            ),
            Err(reason) => r is Err && is_tool_error(
                r->Err_0,
                "RELEASE_INTENT_WRITE_FAILED"@,
                "Could not release reservations because the database is unavailable, and writing the local release-intent log also failed: "@
                    + reason@,
                false,
                JsonTree::Object(map!["error_detail"@ => JsonTree::Text(reason@)]),
            ),
        },
{
    match appended {
        Ok(path) => {
            let inner = with(json_object(), "id", json_text(intent.intent_id.as_str()));
            let inner = with(inner, "path", json_text(path.as_str()));
            let inner = with(inner, "content_sha256", json_text(intent.content_sha256.as_str()));
            let inner = with(
                inner,
                "replay",
                json_text("automatic_on_next_successful_release_file_reservations_call"),
            );
            let answer = with(json_object(), "released", json_int(0));
            let answer = with(answer, "released_at", json_text(released_at));
            let answer = with(answer, "status", json_text("queued"));
            let answer = with(answer, "queued", json_bool(true));
            let answer = with(
                answer,
                "message",
                json_text("lease release queued because DB unavailable"),
            );
            let answer = with(answer, "intent", inner);
            Ok(json_string(&answer))
        },
        Err(reason) => {
            let message =
                "Could not release reservations because the database is unavailable, and writing the local release-intent log also failed: ".to_owned().concat(
            reason.as_str());
            let data = with(json_object(), "error_detail", json_text(reason.as_str()));
            Err(legacy_tool_error("RELEASE_INTENT_WRITE_FAILED", message.as_str(), false, data))
        },
    }
}

/// The release that a queued one asks for; none where the record is of another
/// kind, which counts as done with nothing released.
pub fn replay_single_release_intent(intent: &QueuedReleaseIntent) -> (r: Option<ReleaseRequest>)
    ensures
        match r {
            Some(request) => {
                &&& intent.kind@ == "release_file_reservations_intent"@
                &&& request.project_key@ == intent.project_key@
                &&& request.agent_name@ == intent.agent_name@
                &&& optional_texts(request.paths) == optional_texts(intent.paths)
                &&& optional_ids(request.file_reservation_ids) == optional_ids(
                    intent.file_reservation_ids,
                )
            },
            None => intent.kind@ != "release_file_reservations_intent"@,
        },
{
    if !same_text(intent.kind.as_str(), "release_file_reservations_intent") {
        return None;
    }
    let paths = match &intent.paths {
        Some(list) => Some(copy_texts(list)),
        None => None,
    };
    let file_reservation_ids = match &intent.file_reservation_ids {
        Some(list) => Some(copy_ids(list)),
        None => None,
    };
    Some(
        ReleaseRequest {
            project_key: intent.project_key.clone(),
            agent_name: intent.agent_name.clone(),
            paths,
            file_reservation_ids,
        },
    )
}

fn copy_texts(list: &Vec<String>) -> (r: Vec<String>)
    ensures
        texts(r@) == texts(list@),
{
    let mut out: Vec<String> = Vec::new();
    let mut i: usize = 0;
    while i < list.len()
        invariant
            i <= list.len(),
            out.len() == i,
            forall|k: int| 0 <= k < i ==> (#[trigger] out@[k])@ == list@[k]@,
        decreases list.len() - i,
    {
        out.push(list[i].clone());
        i = i + 1;
    }
    proof {
        assert(texts(out@) =~= texts(list@));
    }
    out
}

fn copy_ids(list: &Vec<i64>) -> (r: Vec<i64>)
    ensures
        r@ == list@,
{
    let mut out: Vec<i64> = Vec::new();
    let mut i: usize = 0;
    while i < list.len()
        invariant
            i <= list.len(),
            out@ == list@.take(i as int),
        decreases list.len() - i,
    {
        out.push(list[i]);
        proof {
            assert(list@.take(i + 1) =~= list@.take(i as int).push(list@[i as int]));
        }
        i = i + 1;
    }
    proof {
        assert(list@.take(list.len() as int) =~= list@);
    }
    out
}

/// How the replay of a queued release ended: how many reservations it released,
/// or why it failed and whether it is to be tried again.
#[derive(Debug, Clone)]
pub enum ReplayEnd {
    Released(usize),
    Failed { detail: String, retryable: bool },
}

/// What the marker of a replay says: the status, the number of released
/// reservations, and the reason of a failure. A failure that is not to be tried
/// again abandons the release.
pub open spec fn marker_of(end: ReplayEnd) -> (Seq<char>, int, Option<Seq<char>>) {
    match end {
        ReplayEnd::Released(n) => ("replayed"@, n as int, None),
        ReplayEnd::Failed { detail, retryable } => (
            if retryable {
                "failed"@
            } else {
                "abandoned"@
            },
            0,
            Some(detail@),
        ),
    }
}

/// The marker that says how the replay of `intent` ended.
pub fn replay_marker(
    intent: &QueuedReleaseIntent,
    end: ReplayEnd,
    replayed_ts: i64,
) -> (r: Value)
    ensures
        json_tree(r) == replay_record(
            intent.intent_id@,
            intent.content_sha256@,
            marker_of(end).0,
            marker_of(end).1,
            marker_of(end).2,
            replayed_ts,
        ),
        content_hash(
            replay_content(
                intent.intent_id@,
                intent.content_sha256@,
                marker_of(end).0,
                marker_of(end).1,
                marker_of(end).2,
                replayed_ts,
            ),
        ).len() == 64,
{
    match end {
        ReplayEnd::Released(n) => append_release_replay_record(
            intent.intent_id.as_str(),
            intent.content_sha256.as_str(),
            "replayed",
            n as u64,
            &None,
            replayed_ts,
        ),
        ReplayEnd::Failed { detail, retryable } => {
            let status: &str = if retryable {
                "failed"
            } else {
                "abandoned"
            };
            append_release_replay_record(
                intent.intent_id.as_str(),
                intent.content_sha256.as_str(),
                status,
                0,
                &Some(detail),
                replayed_ts,
            )
        },
    }
}

/// The text of why a replay failed. `text` is the text of the error, where that is
/// what is wanted.
pub open spec fn detail_text(detail: ReplayDetail, text: String) -> String {
    match detail {
        ReplayDetail::Text(known) => known,
        ReplayDetail::TextOf(_) => text,
    }
}

impl ReplayFailure {
    /// How the replay ended. `text` is the text of the error that `detail` holds, if it
    /// holds one.
    pub fn end(self, text: String) -> (r: ReplayEnd)
        ensures
            r == (ReplayEnd::Failed {
                detail: detail_text(self.detail, text),
                retryable: self.retryable,
            }),
    {
        let detail = match self.detail {
            ReplayDetail::Text(known) => known,
            ReplayDetail::TextOf(_) => text,
        };
        ReplayEnd::Failed { detail, retryable: self.retryable }
    }
}

impl ReleaseDone {
    /// How the replay of a queued release ended that led here.
    pub fn end(&self) -> (r: ReplayEnd)
        ensures
            r == ReplayEnd::Released(self.released),
    {
        ReplayEnd::Released(self.released)
    }

    /// Takes the log of releases that could not reach the database, where there is one
    /// that can be read: now that the database is there, they are done. What this
    /// release did stays as it is.
    pub fn with_log(self, log: Option<&str>) -> (r: ReleaseReplay)
        ensures
            r.done == self,
            r.at == 0,
            match log {
                Some(text) => queued_entries(r.queue@) == open_entries(log_entries(text@)),
                None => r.queue@.len() == 0,
            },
    {
        let queue: Vec<QueuedReleaseIntent> = match log {
            Some(text) => read_queued_release_intents(text),
            None => Vec::new(),
        };
        ReleaseReplay { done: self, queue, at: 0 }
    }
}

/// A release that was done, and the queued releases that are replayed after it, of
/// which the first `at` were.
#[derive(Debug, Clone)]
pub struct ReleaseReplay {
    pub done: ReleaseDone,
    pub queue: Vec<QueuedReleaseIntent>,
    pub at: usize,
}

/// A replay that waits for a queued release to end.
#[derive(Debug, Clone)]
pub struct ReplayPending {
    pub replay: ReleaseReplay,
}

/// A queued release that is to be done now: `request` is run as any release is, and
/// `pending` waits for its end.
#[derive(Debug, Clone)]
pub struct ReplayRun {
    pub request: ReleaseRequest,
    pub pending: ReplayPending,
}

/// A queued release that ended. Its marker is to be appended to the log.
#[derive(Debug, Clone)]
pub struct ReplayMark {
    pub replay: ReleaseReplay,
    pub end: ReplayEnd,
}

/// The marker of a queued release, and the replay that goes on.
#[derive(Debug, Clone)]
pub struct ReplayMarked {
    pub marker: Value,
    pub replay: ReleaseReplay,
}

/// What a replay waits for next.
#[derive(Debug, Clone)]
pub enum ReplayNext {
    Run(ReplayRun),
    Mark(ReplayMark),
    /// The queue is done with.
    Reconcile(ReleaseReconcile),
}

/// Whether `request` is the release that `intent` asks for.
pub open spec fn is_request_of(request: ReleaseRequest, intent: IntentView) -> bool {
    &&& request.project_key@ == intent.project_key
    &&& request.agent_name@ == intent.agent_name
    &&& optional_texts(request.paths) == intent.paths
    &&& optional_ids(request.file_reservation_ids) == intent.file_reservation_ids
}

/// Whether `next` is what `replay` waits for: the next queued release is run, in
/// order, until there is none. A record of another kind is done with at once, with
/// nothing released.
pub open spec fn is_replay_step(next: ReplayNext, replay: ReleaseReplay) -> bool {
    if replay.at >= replay.queue@.len() {
        next == ReplayNext::Reconcile(ReleaseReconcile { done: replay.done })
    } else if replay.queue@[replay.at as int]@.kind == "release_file_reservations_intent"@ {
        next matches ReplayNext::Run(run) && {
            &&& run.pending == (ReplayPending { replay })
            &&& is_request_of(run.request, replay.queue@[replay.at as int]@)
        }
    } else {
        next == ReplayNext::Mark(ReplayMark { replay, end: ReplayEnd::Released(0) })
    }
}

impl ReleaseReplay {
    /// What the replay waits for next.
    pub fn next(self) -> (r: ReplayNext)
        ensures
            is_replay_step(r, self),
            r matches ReplayNext::Run(run) ==> run.pending.wf(),
            r matches ReplayNext::Mark(mark) ==> mark.wf(),
    {
        if self.at >= self.queue.len() {
            return ReplayNext::Reconcile(ReleaseReconcile { done: self.done });
        }
        match replay_single_release_intent(&self.queue[self.at]) {
            Some(request) => ReplayNext::Run(
                ReplayRun { request, pending: ReplayPending { replay: self } },
            ),
            None => ReplayNext::Mark(ReplayMark { replay: self, end: ReplayEnd::Released(0) }),
        }
    }
}

impl ReplayPending {
    /// Whether there is a queued release to wait for.
    pub open spec fn wf(self) -> bool {
        self.replay.at < self.replay.queue@.len()
    }

    /// Takes how the queued release ended.
    pub fn ended(self, end: ReplayEnd) -> (r: ReplayMark)
        requires
            self.wf(),
        ensures
            r == (ReplayMark { replay: self.replay, end }),
            r.wf(),
    {
        ReplayMark { replay: self.replay, end }
    }
}

impl ReplayMark {
    /// Whether there is a queued release that ended.
    pub open spec fn wf(self) -> bool {
        self.replay.at < self.replay.queue@.len()
    }

    /// The marker of the queued release that ended, and the replay of those after it.
    pub fn mark(self, replayed_ts: i64) -> (r: ReplayMarked)
        requires
            self.wf(),
        ensures
            is_written_marker(
                json_tree(r.marker),
                self.replay.queue@[self.replay.at as int]@,
                self.end,
                replayed_ts,
            ),
            r.replay == (ReleaseReplay { at: (self.replay.at + 1) as usize, ..self.replay }),
    {
        let marker = replay_marker(&self.replay.queue[self.replay.at], self.end, replayed_ts);
        assert(self.replay.queue@.len() == self.replay.queue.len());
        ReplayMarked {
            marker,
            replay: ReleaseReplay {
                done: self.replay.done,
                queue: self.replay.queue,
                at: self.replay.at + 1,
            },
        }
    }
}

/// A release whose replays are done with. Before it is answered, the archive is brought
/// up to the database: it waits for the active reservations of the project.
#[derive(Debug, Clone)]
pub struct ReleaseReconcile {
    pub done: ReleaseDone,
}

/// A release that waits for the agents of the project, and for what the artifacts of
/// the active reservations say.
#[derive(Debug, Clone)]
pub struct ReleaseHeal {
    pub done: ReleaseDone,
    pub active: Vec<FileReservationRow>,
}

/// A release that waits for the released reservations that have not expired, and for
/// what their artifacts say.
#[derive(Debug, Clone)]
pub struct ReleaseHealReleased {
    pub done: ReleaseDone,
    pub names: HashMap<i64, String>,
}

/// A release that is to be answered.
#[derive(Debug, Clone)]
pub struct ReleaseSettled {
    pub released: usize,
}

/// What a release waits for while the archive is brought up to the database.
#[derive(Debug, Clone)]
pub enum ReleaseHealNext {
    Agents(ReleaseHeal),
    Released(ReleaseHealReleased),
    Answer(ReleaseSettled),
}

/// What follows the reconciliation of the active reservations, and the write to the
/// archive that is due.
#[derive(Debug, Clone)]
pub struct ReleaseHealed {
    pub write: Option<ArchiveWrite>,
    pub next: ReleaseHealNext,
}

/// What follows the reconciliation of the released reservations, and the write to the
/// archive that is due.
#[derive(Debug, Clone)]
pub struct ReleaseReconciled {
    pub write: Option<ArchiveWrite>,
    pub settled: ReleaseSettled,
}

impl ReleaseReconcile {
    /// Takes the active reservations of the project. Where they could not be read, the
    /// release is answered without.
    pub fn with_active(self, out: DbOutcome<Vec<FileReservationRow>>) -> (r: ReleaseHealNext)
        ensures
            match out {
                DbOutcome::Done(active) => r == ReleaseHealNext::Agents(
                    ReleaseHeal { done: self.done, active },
                ),
                _ => r == ReleaseHealNext::Answer(
                    ReleaseSettled { released: self.done.released },
                ),
            },
    {
        match out {
            DbOutcome::Done(active) => ReleaseHealNext::Agents(
                ReleaseHeal { done: self.done, active },
            ),
            _ => ReleaseHealNext::Answer(ReleaseSettled { released: self.done.released }),
        }
    }
}

/// Whether `healed` is what follows the reconciliation of the active reservations of
/// `heal`: the write that brings their artifacts up to the database, and then the
/// released reservations. Where the agents could not be read, the release is answered
/// without.
pub open spec fn is_release_healed_step(
    healed: ReleaseHealed,
    heal: ReleaseHeal,
    agents: DbOutcome<Vec<AgentRow>>,
    present: Map<i64, ArchiveReservationView>,
) -> bool {
    let project = heal.done.project;
    match agents {
        DbOutcome::Done(list) => {
            &&& writes_any_records(
                healed.write,
                project.slug@,
                active_heals(project.human_key@, heal.active@, names_of(list@), present),
                "reservation archive reconcile-on-read project="@ + project.slug@,
            )
            &&& healed.next matches ReleaseHealNext::Released(next)
            &&& next.done == heal.done
            &&& next.names@ == names_of(list@)
        },
        _ => healed.write is None && healed.next == ReleaseHealNext::Answer(
            ReleaseSettled { released: heal.done.released },
        ),
    }
}

impl ReleaseHeal {
    /// Takes the agents of the project, and what the artifacts of the active
    /// reservations say.
    pub fn with_agents(
        self,
        agents: DbOutcome<Vec<AgentRow>>,
        present: &BTreeMap<i64, ArchiveReservationView>,
    ) -> (r: ReleaseHealed)
        ensures
            is_release_healed_step(r, self, agents, present@),
    {
        let heal = heal_active(&self.done.project, &self.active, &agents, present);
        let next = match heal.names {
            Some(names) => ReleaseHealNext::Released(
                ReleaseHealReleased { done: self.done, names },
            ),
            None => ReleaseHealNext::Answer(ReleaseSettled { released: self.done.released }),
        };
        ReleaseHealed { write: heal.write, next }
    }
}

impl ReleaseHealReleased {
    /// Takes the released reservations that have not expired, and what their artifacts
    /// say.
    pub fn with_released(
        self,
        out: DbOutcome<Vec<FileReservationRow>>,
        present: &BTreeMap<i64, ArchiveReservationView>,
    ) -> (r: ReleaseReconciled)
        ensures
            r.settled == (ReleaseSettled { released: self.done.released }),
            is_release_heal(r.write, self.done.project, self.names@, out, present@),
    {
        let write = heal_released(&self.done.project, &self.names, &out, present);
        ReleaseReconciled { write, settled: ReleaseSettled { released: self.done.released } }
    }
}

impl ReleaseSettled {
    /// The answer to the release: what it released itself, without what was replayed
    /// after it.
    pub fn answer(&self, released_at: String) -> (r: ReleaseResult)
        ensures
            r.released == answer_count(self.released as int),
            r.released_at == released_at,
    {
        ReleaseResult { released: count_for_answer(self.released), released_at }
    }
}

/// Whether a replay that ended like this is to be tried again.
pub open spec fn is_retryable(end: ReplayEnd) -> bool {
    end matches ReplayEnd::Failed { retryable, .. } && retryable
}

/// What the marker of a queued release says that ended like this.
pub open spec fn marker_tree(intent: IntentView, end: ReplayEnd, replayed_ts: i64) -> JsonTree {
    replay_record(
        intent.intent_id,
        intent.content_sha256,
        marker_of(end).0,
        marker_of(end).1,
        marker_of(end).2,
        replayed_ts,
    )
}

/// Whether `tree` is the marker of a queued release that ended like this, with the
/// hash of its content.
pub open spec fn is_written_marker(
    tree: JsonTree,
    intent: IntentView,
    end: ReplayEnd,
    replayed_ts: i64,
) -> bool {
    &&& tree == marker_tree(intent, end, replayed_ts)
    &&& 0 <= marker_of(end).1 <= u64::MAX
    &&& content_hash(
        replay_content(
            intent.intent_id,
            intent.content_sha256,
            marker_of(end).0,
            marker_of(end).1,
            marker_of(end).2,
            replayed_ts,
        ),
    ).len() == 64
}

/// The log after the first `n` of `markers` were appended to it, each on a line of its
/// own.
pub open spec fn with_markers(log: Seq<char>, markers: Seq<JsonTree>, n: int) -> Seq<char>
    decreases n,
{
    if n <= 0 {
        log
    } else {
        with_line(with_markers(log, markers, n - 1), json_encoding(markers[n - 1]))
    }
}

/// Whether one of the first `n` replays ended the work on the release of `entry`: it is
/// of the same id and content hash, and is not to be tried again.
pub open spec fn is_closed(
    entry: LogEntry,
    queue: Seq<QueuedReleaseIntent>,
    ends: Seq<ReplayEnd>,
    n: int,
) -> bool {
    entry matches LogEntry::Queued(intent) && exists|k: int|
        #![trigger queue[k]]
        0 <= k < n && queue[k]@.intent_id == intent.intent_id && queue[k]@.content_sha256
            == intent.content_sha256 && !is_retryable(ends[k])
}

proof fn markers_close_releases(
    log: Seq<char>,
    queue: Seq<QueuedReleaseIntent>,
    ends: Seq<ReplayEnd>,
    times: Seq<i64>,
    markers: Seq<JsonTree>,
    n: int,
)
    requires
        0 <= n <= queue.len(),
        queue.len() == ends.len() == times.len() == markers.len(),
        queued_entries(queue) == open_entries(log_entries(log)),
        forall|k: int|
            0 <= k < queue.len() ==> {
                &&& is_written_marker(#[trigger] markers[k], queue[k]@, ends[k], times[k])
                &&& is_json_of(json_encoding(markers[k]), markers[k])
            },
    ensures
        open_entries(log_entries(with_markers(log, markers, n))) == open_entries(
            log_entries(log),
        ).filter(|entry: LogEntry| !is_closed(entry, queue, ends, n)),
    decreases n,
{
    let asked = open_entries(log_entries(log));
    let now = |entry: LogEntry| !is_closed(entry, queue, ends, n);
    if n == 0 {
        keeps_all(asked, now);
    } else {
        markers_close_releases(log, queue, ends, times, markers, n - 1);
        let so_far = with_markers(log, markers, n - 1);
        let before = |entry: LogEntry| !is_closed(entry, queue, ends, n - 1);
        let intent = queue[n - 1]@;
        let end = ends[n - 1];
        let text = json_encoding(markers[n - 1]);
        let byte: Option<u8> = if so_far.len() > 0 && so_far.last() != '\n' {
            Some(0u8)
        } else {
            None
        };
        assert(queued_entries(queue)[n - 1] == LogEntry::Queued(intent));
        assert(asked[n - 1] == LogEntry::Queued(intent));
        assert(asked.contains(LogEntry::Queued(intent)));
        open_releases_are_identified(log, intent);
        assert(is_written_marker(markers[n - 1], intent, end, times[n - 1]));
        appended_text_is_line(so_far, byte, text);
        appended_marker_is_read_back(
            so_far,
            byte,
            text,
            intent.intent_id,
            intent.content_sha256,
            marker_of(end).0,
            marker_of(end).1 as u64,
            marker_of(end).2,
            times[n - 1],
        );
        statuses_differ();
        let other = |e: LogEntry|
            !(e matches LogEntry::Queued(i) && i.intent_id == intent.intent_id
                && i.content_sha256 == intent.content_sha256);
        if is_retryable(end) {
            assert forall|e: LogEntry| #[trigger] now(e) == before(e) by {
                if let LogEntry::Queued(i) = e {
                    if is_closed(e, queue, ends, n) {
                        let k = choose|k: int|
                            #![trigger queue[k]]
                            0 <= k < n && queue[k]@.intent_id == i.intent_id
                                && queue[k]@.content_sha256 == i.content_sha256 && !is_retryable(
                                ends[k],
                            );
                        assert(k < n - 1);
                        assert(is_closed(e, queue, ends, n - 1));
                    }
                }
            }
            assert(now =~= before);
        } else {
            assert forall|e: LogEntry| #[trigger] now(e) == (before(e) && other(e)) by {
                if let LogEntry::Queued(i) = e {
                    if is_closed(e, queue, ends, n) && !is_closed(e, queue, ends, n - 1) {
                        let k = choose|k: int|
                            #![trigger queue[k]]
                            0 <= k < n && queue[k]@.intent_id == i.intent_id
                                && queue[k]@.content_sha256 == i.content_sha256 && !is_retryable(
                                ends[k],
                            );
                        assert(k == n - 1);
                    }
                    if !other(e) {
                        assert(queue[n - 1]@.intent_id == i.intent_id);
                        assert(is_closed(e, queue, ends, n));
                    }
                }
            }
            filter_twice(asked, before, other, now);
        }
    }
}

proof fn keeps_all(entries: Seq<LogEntry>, keep: spec_fn(LogEntry) -> bool)
    requires
        forall|e: LogEntry| #[trigger] keep(e),
    ensures
        entries.filter(keep) == entries,
    decreases entries.len(),
{
    reveal(Seq::filter);
    if entries.len() > 0 {
        keeps_all(entries.drop_last(), keep);
        assert(keep(entries.last()));
        assert(entries.drop_last().push(entries.last()) =~= entries);
    }
}

proof fn keeps_none(entries: Seq<LogEntry>, keep: spec_fn(LogEntry) -> bool)
    requires
        forall|i: int| 0 <= i < entries.len() ==> !keep(#[trigger] entries[i]),
    ensures
        entries.filter(keep).len() == 0,
    decreases entries.len(),
{
    reveal(Seq::filter);
    if entries.len() > 0 {
        let head = entries.drop_last();
        assert(forall|i: int| 0 <= i < head.len() ==> #[trigger] head[i] == entries[i]);
        keeps_none(head, keep);
        assert(!keep(entries[entries.len() - 1]));
    }
}

proof fn statuses_differ()
    ensures
        "failed"@ != "replayed"@,
        "failed"@ != "abandoned"@,
{
    reveal_strlit("failed");
    reveal_strlit("replayed");
    reveal_strlit("abandoned");
    assert("failed"@.len() == 6);
    assert("replayed"@.len() == 8);
    assert("abandoned"@.len() == 9);
}

/// Whether no two of these releases are of one id and content hash.
pub open spec fn are_distinct(queue: Seq<QueuedReleaseIntent>) -> bool {
    forall|i: int, j: int|
        0 <= i < j < queue.len() ==> !((#[trigger] queue[i])@.intent_id == (
        #[trigger] queue[j])@.intent_id && queue[i]@.content_sha256 == queue[j]@.content_sha256)
}

/// A replay of the whole queue, with one marker for each release in order: after it the
/// log asks for those releases that no replay ended, in the order in which it did. These
/// are the ones whose replay is to be tried again, where no two are the same; and none
/// at all where no replay is. So a second replay does none of the others again.
pub proof fn replayed_queue_leaves_log(
    log: Seq<char>,
    queue: Seq<QueuedReleaseIntent>,
    ends: Seq<ReplayEnd>,
    times: Seq<i64>,
    markers: Seq<JsonTree>,
)
    requires
        queue.len() == ends.len() == times.len() == markers.len(),
        queued_entries(queue) == open_entries(log_entries(log)),
        forall|k: int|
            0 <= k < queue.len() ==> {
                &&& is_written_marker(#[trigger] markers[k], queue[k]@, ends[k], times[k])
                &&& is_json_of(json_encoding(markers[k]), markers[k])
            },
    ensures
        ({
            let n = queue.len() as int;
            let after = open_entries(log_entries(with_markers(log, markers, n)));
            &&& after == queued_entries(queue).filter(
                |entry: LogEntry| !is_closed(entry, queue, ends, n),
            )
            &&& are_distinct(queue) ==> forall|k: int|
                0 <= k < n ==> (is_retryable(#[trigger] ends[k]) <==> after.contains(
                    LogEntry::Queued(queue[k]@),
                ))
            &&& (forall|k: int| 0 <= k < n ==> !is_retryable(#[trigger] ends[k])) ==> after.len()
                == 0
        }),
{
    let n = queue.len() as int;
    let asked = queued_entries(queue);
    let keep = |entry: LogEntry| !is_closed(entry, queue, ends, n);
    let after = open_entries(log_entries(with_markers(log, markers, n)));
    markers_close_releases(log, queue, ends, times, markers, n);
    if are_distinct(queue) {
        assert forall|k: int| 0 <= k < n implies (is_retryable(#[trigger] ends[k])
            <==> after.contains(LogEntry::Queued(queue[k]@))) by {
            let entry = LogEntry::Queued(queue[k]@);
            assert(asked[k] == entry);
            if is_retryable(ends[k]) {
                if is_closed(entry, queue, ends, n) {
                    let j = choose|j: int|
                        #![trigger queue[j]]
                        0 <= j < n && queue[j]@.intent_id == queue[k]@.intent_id
                            && queue[j]@.content_sha256 == queue[k]@.content_sha256
                            && !is_retryable(ends[j]);
                    assert(j != k);
                    assert(j < k || k < j);
                }
                asked.lemma_filter_contains(keep, k);
            } else {
                assert(is_closed(entry, queue, ends, n));
                if after.contains(entry) {
                    filtered_is_there(asked, keep, entry);
                }
            }
        }
    }
    if forall|k: int| 0 <= k < n ==> !is_retryable(#[trigger] ends[k]) {
        assert forall|i: int| 0 <= i < asked.len() implies !keep(#[trigger] asked[i]) by {
            assert(asked[i] == LogEntry::Queued(queue[i]@));
            assert(!is_retryable(ends[i]));
            assert(is_closed(asked[i], queue, ends, n));
        }
        keeps_none(asked, keep);
    }
}

/// A release brings the archive up to the database before it is answered: it writes the
/// artifact of each active reservation with a known holder whose artifact is missing or
/// diverges, and of each released one whose artifact says that it is still held.
pub proof fn release_heals_archive(
    healed: ReleaseHealed,
    heal: ReleaseHeal,
    agents: Vec<AgentRow>,
    present: Map<i64, ArchiveReservationView>,
    write: Option<ArchiveWrite>,
    released: Vec<FileReservationRow>,
    released_present: Map<i64, ArchiveReservationView>,
)
    requires
        is_release_healed_step(healed, heal, DbOutcome::Done(agents), present),
        is_release_heal(
            write,
            heal.done.project,
            names_of(agents@),
            DbOutcome::Done(released),
            released_present,
        ),
    ensures
        forall|k: int|
            0 <= k < heal.active@.len() && needs_active_heal(
                #[trigger] heal.active@[k],
                names_of(agents@),
                present,
            ) ==> writes_record(
                healed.write,
                active_record(
                    heal.done.project.human_key@,
                    names_of(agents@)[heal.active@[k].agent_id]@,
                    heal.active@[k],
                ),
            ),
        forall|k: int|
            0 <= k < released@.len() && needs_release_heal(
                #[trigger] released@[k],
                names_of(agents@),
                released_present,
            ) ==> writes_record(
                write,
                released_record(
                    heal.done.project.human_key@,
                    names_of(agents@)[released@[k].agent_id]@,
                    released@[k],
                ),
            ),
{
    heals_are_written(
        healed.write,
        write,
        heal.done.project,
        heal.active@,
        names_of(agents@),
        present,
        released@,
        released_present,
    );
}

/// A release that is queued reads back from the log as the release that was asked
/// for.
pub proof fn queued_release_reads_back(queued: QueuedRelease, intent: ReleaseIntent, created_ts: i64)
    requires
        is_intent(
            intent,
            queued.request.project_key@,
            queued.request.agent_name@,
            optional_texts(queued.request.paths),
            optional_ids(queued.request.file_reservation_ids),
            stage_text(queued.stage),
            queued.detail@,
            created_ts,
        ),
        intent.content_sha256@.len() == 64,
    ensures
        is_record(json_tree(intent.record)),
        entry_of_record(json_tree(intent.record)) matches LogEntry::Queued(view) && {
            &&& view.kind == "release_file_reservations_intent"@
            &&& view.intent_id == intent.intent_id@
            &&& view.content_sha256 == intent.content_sha256@
            &&& view.project_key == queued.request.project_key@
            &&& view.agent_name == queued.request.agent_name@
            &&& view.paths == optional_texts(queued.request.paths)
            &&& view.file_reservation_ids == optional_ids(queued.request.file_reservation_ids)
        },
{
    intent_record_is_read_back(
        intent,
        queued.request.project_key@,
        queued.request.agent_name@,
        optional_texts(queued.request.paths),
        optional_ids(queued.request.file_reservation_ids),
        stage_text(queued.stage),
        queued.detail@,
        created_ts,
    );
}

/// A replay that released, or that is not to be tried again, ends the work on its
/// release; a replay that is to be tried again leaves it queued.
pub proof fn replay_ends_or_keeps_release(intent: IntentView, end: ReplayEnd, replayed_ts: i64)
    requires
        utf8_len(intent.intent_id) == 16,
        utf8_len(intent.content_sha256) == 64,
        intent.intent_id.is_prefix_of(intent.content_sha256),
        0 <= marker_of(end).1 <= u64::MAX,
        content_hash(
            replay_content(
                intent.intent_id,
                intent.content_sha256,
                marker_of(end).0,
                marker_of(end).1,
                marker_of(end).2,
                replayed_ts,
            ),
        ).len() == 64,
    ensures
        entry_of_record(
            replay_record(
                intent.intent_id,
                intent.content_sha256,
                marker_of(end).0,
                marker_of(end).1,
                marker_of(end).2,
                replayed_ts,
            ),
        ) == (if end matches ReplayEnd::Failed { retryable, .. } && retryable {
            LogEntry::Nothing
        } else {
            LogEntry::Done(intent.intent_id, intent.content_sha256)
        }),
{
    let marker = marker_of(end);
    replay_record_is_read_back(
        intent.intent_id,
        intent.content_sha256,
        marker.0,
        marker.1 as u64,
        marker.2,
        replayed_ts,
    );
    statuses_differ();
}

/// Once the marker of its replay is appended to the log, a release that was done or
/// abandoned is no longer asked for, and all others are as before; one that is to be
/// tried again is still asked for.
pub proof fn replayed_release_leaves_log(
    log: Seq<char>,
    last_byte: Option<u8>,
    text: Seq<char>,
    intent: IntentView,
    end: ReplayEnd,
    replayed_ts: i64,
)
    requires
        open_entries(log_entries(log)).contains(LogEntry::Queued(intent)),
        is_torn(last_byte) == (log.len() > 0 && log.last() != '\n'),
        0 <= marker_of(end).1 <= u64::MAX,
        content_hash(
            replay_content(
                intent.intent_id,
                intent.content_sha256,
                marker_of(end).0,
                marker_of(end).1,
                marker_of(end).2,
                replayed_ts,
            ),
        ).len() == 64,
        is_json_of(
            text,
            replay_record(
                intent.intent_id,
                intent.content_sha256,
                marker_of(end).0,
                marker_of(end).1,
                marker_of(end).2,
                replayed_ts,
            ),
        ),
    ensures
        ({
            let before = open_entries(log_entries(log));
            let after = open_entries(log_entries(log + appended_text(last_byte, text)));
            if end matches ReplayEnd::Failed { retryable, .. } && retryable {
                after == before
            } else {
                after == before.filter(
                    |e: LogEntry| !(e matches LogEntry::Queued(i) && i.intent_id
                        == intent.intent_id && i.content_sha256 == intent.content_sha256),
                )
            }
        }),
{
    let marker = marker_of(end);
    open_releases_are_identified(log, intent);
    appended_marker_is_read_back(
        log,
        last_byte,
        text,
        intent.intent_id,
        intent.content_sha256,
        marker.0,
        marker.1 as u64,
        marker.2,
        replayed_ts,
    );
    statuses_differ();
}

/// A request that is wrong is never queued, and its replay is never tried again.
pub proof fn refused_request_is_final(
    failed: ReleaseFailed,
    error: McpError,
    run: Option<RelativePaths>,
    facts: Seq<PatternFacts>,
    replayed: ReplayFailure,
)
    requires
        failed.cause == ReleaseFailure::Refused(error),
        is_normalized_filter(Err(error), run, facts),
        is_replay_failure(replayed, failed.cause),
    ensures
        stop_of(failed) == ReleaseStop::Fail(error),
        !replayed.retryable,
{
    reveal_strlit("INVALID_PATH");
    reveal_strlit("DATABASE_CORRUPTION");
    reveal_strlit("DATABASE_ERROR");
    reveal_strlit("DATABASE_POOL_EXHAUSTED");
    reveal_strlit("RESOURCE_BUSY");
    assert("INVALID_PATH"@.len() == 12);
    assert("DATABASE_CORRUPTION"@.len() == 19);
    assert("DATABASE_ERROR"@.len() == 14);
    assert("DATABASE_POOL_EXHAUSTED"@.len() == 23);
    assert("RESOURCE_BUSY"@.len() == 13);
    let paths = run->0;
    match first_invalid(paths.relatives@, facts) {
        Some(i) => tool_error_names_its_type(
            error,
            "INVALID_PATH"@,
            invalidity(paths.relatives@[i]@, facts[i])->0,
            true,
            reason_tree("invalid_pattern"@),
        ),
        None => if paths.stop == Some(PathStop::Outside) {
            tool_error_names_its_type(
                error,
                "INVALID_PATH"@,
                "Path is outside the project root. File reservations must be within the project directory."@,
                true,
                reason_tree("path_outside_project"@),
            );
        } else {
            tool_error_names_its_type(
                error,
                "INVALID_PATH"@,
                filter_root_message(),
                true,
                reason_tree("targets_project_root"@),
            );
        },
    }
}

} // verus!
