//! The release: what is queued, what fails, what is counted and what is replayed.

use crate::errors::is_database_error;
use crate::intent::IntentView;
use crate::json::{json_tree, JsonTree};
use crate::laws::archive::records_are_written;
use crate::laws::errors::{
    database_errors_are_told_by_type, unavailable_kinds, untyped_errors_are_no_database_errors,
};
use crate::laws::intent::marker_says_it_all;
use crate::model::{
    AgentRow, DbErrorKind, DbFailure, DbOutcome, FileReservationRow, McpError, ProjectRow,
};
use crate::release::{
    answer_count, detail_text, failure_of, is_release_of, is_replay_failure, is_replay_step,
    is_request_of, is_retryable, is_written_marker, marker_of, queued_tree, stage_text, stop_of,
    QueuedRelease, ReleaseDone, ReleaseFailed, ReleaseFailure, ReleaseReplay, ReleaseStage,
    ReleaseStop, ReplayDetail, ReplayEnd, ReplayFailure, ReplayNext,
};
use vstd::prelude::*;

verus! {

/// A release whose project or agent could not be looked up is queued, with its request,
/// its stage and the reason, just where the error is of one of four types of the
/// database; it fails with the error where it is of another type. A replay of it is to be
/// tried again in the same cases. The stage makes no difference.
pub proof fn failed_lookup_is_queued_by_its_type(
    failed: ReleaseFailed,
    replay: ReplayFailure,
    stage: ReleaseStage,
    error: McpError,
    detail: String,
    kind: Seq<char>,
)
    requires
        failed.cause == (ReleaseFailure::Lookup { stage, error, detail }),
        is_replay_failure(replay, failed.cause),
        error.data is Some,
        json_tree(error.data->0) is Object,
        json_tree(error.data->0)->Object_0.contains_key("error"@),
        json_tree(error.data->0)->Object_0["error"@] is Object,
        json_tree(error.data->0)->Object_0["error"@]->Object_0.contains_key("type"@),
        json_tree(error.data->0)->Object_0["error"@]->Object_0["type"@] == JsonTree::Text(kind),
    ensures
        kind == "DATABASE_CORRUPTION"@ || kind == "DATABASE_ERROR"@ || kind
            == "DATABASE_POOL_EXHAUSTED"@ || kind == "RESOURCE_BUSY"@ ==> {
            &&& stop_of(failed) == ReleaseStop::Queue(
                QueuedRelease { request: failed.request, stage, detail },
            )
            &&& replay.retryable
        },
        kind != "DATABASE_CORRUPTION"@ && kind != "DATABASE_ERROR"@ && kind
            != "DATABASE_POOL_EXHAUSTED"@ && kind != "RESOURCE_BUSY"@ ==> {
            &&& stop_of(failed) == ReleaseStop::Fail(error)
            &&& !replay.retryable
        },
        replay.detail == ReplayDetail::Text(detail),
{
    database_errors_are_told_by_type(error, kind);
}

/// A lookup that failed with an error without a type is not queued, and not tried again.
pub proof fn untyped_lookup_failure_is_final(
    failed: ReleaseFailed,
    replay: ReplayFailure,
    stage: ReleaseStage,
    error: McpError,
    detail: String,
)
    requires
        failed.cause == (ReleaseFailure::Lookup { stage, error, detail }),
        is_replay_failure(replay, failed.cause),
        error.data is None || json_tree(error.data->0) !is Object || !json_tree(
            error.data->0,
        )->Object_0.contains_key("error"@) || json_tree(error.data->0)->Object_0["error"@]
            !is Object || !json_tree(
            error.data->0,
        )->Object_0["error"@]->Object_0.contains_key("type"@) || json_tree(
            error.data->0,
        )->Object_0["error"@]->Object_0["type"@] !is Text,
    ensures
        stop_of(failed) == ReleaseStop::Fail(error),
        !replay.retryable,
        replay.detail == ReplayDetail::Text(detail),
{
    untyped_errors_are_no_database_errors(error);
}

/// A release that the database failed is queued, with its request, its stage and the
/// reason, unless something was not found or the failure is of none of the known kinds:
/// then it fails. A replay of it is to be tried again in the same cases.
pub proof fn database_failure_is_queued_by_its_kind(
    failed: ReleaseFailed,
    replay: ReplayFailure,
    stage: ReleaseStage,
    failure: DbFailure,
)
    requires
        failed.cause == (ReleaseFailure::Database { stage, failure }),
        is_replay_failure(replay, failed.cause),
    ensures
        failure.kind == DbErrorKind::NotFound || failure.kind == DbErrorKind::Other ==> {
            &&& stop_of(failed) == ReleaseStop::Fail(failure.error)
            &&& !replay.retryable
        },
        failure.kind != DbErrorKind::NotFound && failure.kind != DbErrorKind::Other ==> {
            &&& stop_of(failed) == ReleaseStop::Queue(
                QueuedRelease { request: failed.request, stage, detail: failure.detail },
            )
            &&& replay.retryable
        },
        replay.detail == ReplayDetail::Text(failure.detail),
{
    unavailable_kinds(failure.kind);
}

/// A release that was cut short or whose request is wrong fails with its error and is
/// never queued. A replay that was cut short is to be tried again.
pub proof fn cut_short_release_fails(failed: ReleaseFailed, replay: ReplayFailure)
    requires
        is_replay_failure(replay, failed.cause),
    ensures
        failed.cause matches ReleaseFailure::Cancelled { reason, error } ==> {
            &&& stop_of(failed) == ReleaseStop::Fail(error)
            &&& replay.retryable
            &&& replay.detail matches ReplayDetail::Text(text) && text@ == "cancelled: "@ + reason@
        },
        failed.cause matches ReleaseFailure::Panicked { message, error } ==> {
            &&& stop_of(failed) == ReleaseStop::Fail(error)
            &&& replay.retryable
            &&& replay.detail matches ReplayDetail::Text(text) && text@ == "panicked: "@ + message@
        },
        failed.cause matches ReleaseFailure::Refused(error) ==> {
            &&& stop_of(failed) == ReleaseStop::Fail(error)
            &&& replay.detail == ReplayDetail::TextOf(error)
            &&& replay.retryable <==> is_database_error(error)
        },
{
}

/// A database outcome that is no success ends a release with all that it carries.
pub proof fn outcome_ends_the_release<T>(out: DbOutcome<T>, stage: ReleaseStage)
    ensures
        out matches DbOutcome::Failed(failure) ==> failure_of(out, stage) == (
        ReleaseFailure::Database { stage, failure }),
        out matches DbOutcome::Cancelled { reason, error } ==> failure_of(out, stage) == (
        ReleaseFailure::Cancelled { reason, error }),
        out matches DbOutcome::Panicked { message, error } ==> failure_of(out, stage) == (
        ReleaseFailure::Panicked { message, error }),
{
}

/// The names of the steps.
pub proof fn steps_have_their_names()
    ensures
        stage_text(ReleaseStage::GetDbPool) == "get_db_pool"@,
        stage_text(ReleaseStage::ResolveProject) == "resolve_project"@,
        stage_text(ReleaseStage::ResolveAgent) == "resolve_agent"@,
        stage_text(ReleaseStage::ListUnreleased) == "list_unreleased_file_reservations"@,
        stage_text(ReleaseStage::Release) == "release_reservations"@,
{
}

/// A release counts every row that the database released, and writes the record of each
/// one, with the time of its release, in order; where there is none, nothing is written.
pub proof fn release_writes_what_it_counts(
    done: ReleaseDone,
    project: ProjectRow,
    agent: AgentRow,
    rows: Seq<FileReservationRow>,
)
    requires
        is_release_of(done, project, agent, rows),
    ensures
        done.released == rows.len(),
        done.project == project,
        done.write is Some <==> rows.len() > 0,
        done.write matches Some(write) ==> {
            &&& write.op is FileReservation
            &&& write.op->project_slug@ == project.slug@
            &&& write.op->reservations@.len() == rows.len()
            &&& forall|i: int|
                #![trigger write.op->reservations@[i]]
                #![trigger rows[i]]
                0 <= i < rows.len() ==> json_tree(write.op->reservations@[i])
                    == crate::archive::released_record(project.human_key@, agent.name@, rows[i])
            &&& write.context@ == "reservation release archive write project="@ + project.slug@
        },
{
    let records = crate::archive::released_records(project.human_key@, agent.name@, rows);
    assert(records.len() == rows.len());
    records_are_written(
        done.write,
        project.slug@,
        records,
        "reservation release archive write project="@ + project.slug@,
    );
    if let Some(write) = done.write {
        assert forall|i: int|
            #![trigger write.op->reservations@[i]]
            #![trigger rows[i]]
            0 <= i < rows.len() implies json_tree(write.op->reservations@[i])
            == crate::archive::released_record(project.human_key@, agent.name@, rows[i]) by {
            assert(json_tree(write.op->reservations@[i]) == records[i]);
        }
    }
}

/// An answer counts up to the most that its 32 bits can hold.
pub proof fn answers_count_up_to_their_limit(n: int)
    ensures
        n <= 2_147_483_647 ==> answer_count(n) == n,
        n > 2_147_483_647 ==> answer_count(n) == 2_147_483_647,
{
}

/// What is answered to a release that was queued: that nothing is released yet, and where
/// its record is.
pub proof fn queued_answer_says_it_all(
    intent: crate::intent::ReleaseIntent,
    path: Seq<char>,
    released_at: Seq<char>,
)
    ensures
        ({
            let answer = queued_tree(intent, path, released_at)->Object_0;
            let inner = answer["intent"@]->Object_0;
            &&& queued_tree(intent, path, released_at) is Object
            &&& answer.dom() == set![
                "released"@, "released_at"@, "status"@, "queued"@, "message"@, "intent"@,
            ]
            &&& answer["released"@] == JsonTree::Int(0)
            &&& answer["released_at"@] == JsonTree::Text(released_at)
            &&& answer["status"@] == JsonTree::Text("queued"@)
            &&& answer["queued"@] == JsonTree::Bool(true)
            &&& answer["message"@] == JsonTree::Text("lease release queued because DB unavailable"@)
            &&& answer["intent"@] is Object
            &&& inner.dom() == set!["id"@, "path"@, "content_sha256"@, "replay"@]
            &&& inner["id"@] == JsonTree::Text(intent.intent_id@)
            &&& inner["path"@] == JsonTree::Text(path)
            &&& inner["content_sha256"@] == JsonTree::Text(intent.content_sha256@)
            &&& inner["replay"@] == JsonTree::Text(
                "automatic_on_next_successful_release_file_reservations_call"@,
            )
        }),
{
    reveal_strlit("released");
    reveal_strlit("released_at");
    reveal_strlit("status");
    reveal_strlit("queued");
    reveal_strlit("message");
    reveal_strlit("intent");
    reveal_strlit("id");
    reveal_strlit("path");
    reveal_strlit("content_sha256");
    reveal_strlit("replay");
    assert("released"@.len() == 8);
    assert("released_at"@.len() == 11);
    assert("status"@[0] == 's');
    assert("queued"@[0] == 'q');
    assert("intent"@[0] == 'i');
    assert("status"@.len() == 6 && "queued"@.len() == 6 && "intent"@.len() == 6);
    assert("message"@.len() == 7);
    assert("id"@.len() == 2 && "path"@.len() == 4 && "content_sha256"@.len() == 14);
    assert("replay"@.len() == 6);
    let answer = queued_tree(intent, path, released_at)->Object_0;
    assert(answer.dom() =~= set![
        "released"@, "released_at"@, "status"@, "queued"@, "message"@, "intent"@,
    ]);
    assert(answer["intent"@]->Object_0.dom() =~= set![
        "id"@, "path"@, "content_sha256"@, "replay"@,
    ]);
}

/// The marker of a replay says how it ended: replayed with the number that it released,
/// or failed or abandoned with the reason, as it is to be tried again or not.
pub proof fn markers_say_how_it_ended(end: ReplayEnd)
    ensures
        end matches ReplayEnd::Released(n) ==> {
            &&& marker_of(end).0 == "replayed"@
            &&& marker_of(end).1 == n
            &&& marker_of(end).2 is None
            &&& !is_retryable(end)
        },
        end matches ReplayEnd::Failed { detail, retryable } ==> {
            &&& retryable ==> marker_of(end).0 == "failed"@
            &&& !retryable ==> marker_of(end).0 == "abandoned"@
            &&& marker_of(end).1 == 0
            &&& marker_of(end).2 == Some(detail@)
            &&& is_retryable(end) <==> retryable
        },
{
}

/// The marker of a queued release names it by its id and its hash, and says how its
/// replay ended, and when.
pub proof fn marker_is_of_its_release(
    tree: JsonTree,
    intent: IntentView,
    end: ReplayEnd,
    replayed_ts: i64,
)
    requires
        is_written_marker(tree, intent, end, replayed_ts),
    ensures
        tree is Object,
        tree->Object_0["kind"@] == JsonTree::Text("release_file_reservations_replay"@),
        tree->Object_0["intent_id"@] == JsonTree::Text(intent.intent_id),
        tree->Object_0["intent_content_sha256"@] == JsonTree::Text(intent.content_sha256),
        tree->Object_0["replayed_ts"@] == JsonTree::Int(replayed_ts as int),
        end matches ReplayEnd::Released(n) ==> {
            &&& tree->Object_0["status"@] == JsonTree::Text("replayed"@)
            &&& tree->Object_0["released"@] == JsonTree::Int(n as int)
            &&& tree->Object_0["error_detail"@] == JsonTree::Null
        },
        end matches ReplayEnd::Failed { detail, retryable } ==> {
            &&& retryable ==> tree->Object_0["status"@] == JsonTree::Text("failed"@)
            &&& !retryable ==> tree->Object_0["status"@] == JsonTree::Text("abandoned"@)
            &&& tree->Object_0["released"@] == JsonTree::Int(0)
            &&& tree->Object_0["error_detail"@] == JsonTree::Text(detail@)
        },
{
    markers_say_how_it_ended(end);
    marker_says_it_all(
        intent.intent_id,
        intent.content_sha256,
        marker_of(end).0,
        marker_of(end).1,
        marker_of(end).2,
        replayed_ts,
    );
}

/// The reason of a replay that failed is the one that is known, or the text of its error.
pub proof fn replay_reason_is_known_or_told(detail: ReplayDetail, text: String)
    ensures
        detail matches ReplayDetail::Text(known) ==> detail_text(detail, text) == known,
        detail is TextOf ==> detail_text(detail, text) == text,
{
}

/// A queued release is run as it was asked for: with its project, its agent, and its
/// paths and ids, one by one.
pub proof fn replayed_request_is_the_queued_one(
    request: crate::release::ReleaseRequest,
    intent: IntentView,
)
    requires
        is_request_of(request, intent),
    ensures
        request.project_key@ == intent.project_key,
        request.agent_name@ == intent.agent_name,
        request.paths is Some <==> intent.paths is Some,
        request.paths matches Some(list) ==> {
            &&& list@.len() == intent.paths->0.len()
            &&& forall|i: int|
                #![trigger list@[i]]
                0 <= i < list@.len() ==> list@[i]@ == intent.paths->0[i]
        },
        request.file_reservation_ids is Some <==> intent.file_reservation_ids is Some,
        request.file_reservation_ids matches Some(list) ==> list@
            == intent.file_reservation_ids->0,
{
    if let Some(list) = request.paths {
        assert(intent.paths->0 == crate::text::texts(list@));
    }
}

/// A replay takes the queue one by one: each release that is not done yet is run in its
/// turn, a record of another kind is marked with nothing released, and once all are done
/// the release itself goes on.
pub proof fn queue_is_replayed_in_turn(next: ReplayNext, replay: ReleaseReplay)
    requires
        is_replay_step(next, replay),
    ensures
        replay.at >= replay.queue@.len() ==> (next matches ReplayNext::Reconcile(waiting)
            && waiting.done == replay.done),
        replay.at < replay.queue@.len() ==> {
            let intent = replay.queue@[replay.at as int];
            &&& intent.kind@ == "release_file_reservations_intent"@ ==> (
            next matches ReplayNext::Run(run) && {
                &&& run.pending.replay == replay
                &&& run.request.project_key@ == intent.project_key@
                &&& run.request.agent_name@ == intent.agent_name@
                &&& run.request.paths is Some <==> intent.paths is Some
                &&& run.request.file_reservation_ids is Some
                    <==> intent.file_reservation_ids is Some
                &&& intent.file_reservation_ids matches Some(ids)
                    ==> run.request.file_reservation_ids->0@ == ids@
                &&& intent.paths matches Some(paths) ==> {
                    &&& run.request.paths->0@.len() == paths@.len()
                    &&& forall|i: int|
                        #![trigger paths@[i]]
                        0 <= i < paths@.len() ==> run.request.paths->0@[i]@ == paths@[i]@
                }
            })
            &&& intent.kind@ != "release_file_reservations_intent"@ ==> (
            next matches ReplayNext::Mark(mark) && mark.replay == replay && mark.end
                == ReplayEnd::Released(0))
        },
{
    if replay.at < replay.queue@.len() {
        let intent = replay.queue@[replay.at as int];
        if let ReplayNext::Run(run) = next {
            replayed_request_is_the_queued_one(run.request, intent@);
            if let Some(paths) = intent.paths {
                let texts = crate::text::texts(paths@);
                assert(intent@.paths == Some(texts));
                assert forall|i: int|
                    #![trigger paths@[i]]
                    0 <= i < paths@.len() implies run.request.paths->0@[i]@ == paths@[i]@ by {
                    assert(texts[i] == paths@[i]@);
                    let path = run.request.paths->0@[i];
                }
            }
        }
    }
}

} // verus!
