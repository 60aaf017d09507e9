//! What the steps of a call take and hand on, said of the functions themselves.

use crate::acquire::{
    AcquireAnswer, AcquireConflicts, AcquireGrant, AcquireHealReleased, AcquireMatch, AcquireNext,
    AcquireRecheck, AcquireRecheckMatch, AcquireReconciled,
};
use crate::archive::{
    dispatch_reservation_archive_write, needs_release_heal, DirectArchiveWrite, WriteOp,
};
use crate::conflict::{ConflictCheck, ConflictCheckCaller};
use crate::filter::{answers_filter, renewal_filter_matches};
use crate::force::{
    force_release_file_reservation, ForceActivity, ForceCall, ForceCase, ForceMail, ForceReadBack,
    ForceReleased, ForceRequest, HolderRow, MessageRow, PatternActivity,
};
use crate::intent::{QueuedReleaseIntent, ReleaseIntent};
use crate::json::{json_encoding, json_tree, JsonTree};
use crate::laws::acquire::{
    every_wanted_path_is_decided, granting, is_free, is_name_of, is_rising,
    naming_keeps_every_conflict, reported, withholding,
};
use crate::laws::archive::{only_releases_may_be_queued, released_artifacts_are_reconciled};
use crate::laws::errors::{outcome_carries_its_error, tool_error_says_it_all};
use crate::laws::failures::reported_error;
use crate::laws::filter::{
    filter_is_used_where_given, filters_pick_what_is_meant, is_meant, picks_just,
    release_is_told_by_its_time, remembered_expiries_are_those_of_what_is_meant,
};
use crate::laws::force::{
    any_recent_sign_protects, holder_is_named, holder_is_recent, is_id, is_recent,
    message_record_says_it_all,
};
use crate::laws::lookup::canonical_name_counts;
use crate::laws::paths::paths_are_placed_in_order;
use crate::laws::release::{
    answers_count_up_to_their_limit, outcome_ends_the_release, queued_answer_says_it_all,
    replay_reason_is_known_or_told,
};
use crate::laws::renew::{every_renewed_row_is_answered_for, extension_is_what_is_asked_for};
use crate::laws::request::{every_refused_path_is_reported, names_all, said};
use crate::machine::Machine;
use crate::model::{
    names_of, AgentRow, ArchiveReservationView, DbErrorKind, DbOutcome, FileReservationRow,
    McpError, ProjectRow, ReleaseResult, RenewalResult, Timestamp,
};
use crate::paths::relativized;
use crate::patterns::{invalidity, PatternFacts};
use crate::release::{
    queued_release_intent_response, release_file_reservations, replay_single_release_intent,
    LookupError, QueuedRelease, ReleaseAgent, ReleaseCall, ReleaseDone, ReleaseFailed,
    ReleaseFailure, ReleaseHealNext, ReleaseHealReleased, ReleaseList, ReleaseMatch, ReleaseNext,
    ReleasePaths, ReleaseReconcile, ReleaseReconciled, ReleaseRequest, ReleaseSettled, ReleaseStage,
    ReleaseStop, ReplayDetail, ReplayEnd, ReplayFailure, ReplayMark, ReplayMarked, ReplayPending,
};
use crate::renew::{
    renew_file_reservations, RenewAgent, RenewCall, RenewDone, RenewMatch, RenewPaths, RenewRequest,
};
use serde_json::Value;
use std::collections::BTreeMap;
use vstd::prelude::*;

verus! {

/// A request to release, to renew or to release by force keeps all that it says. The
/// holder of a reservation that is released by force is notified unless the request says
/// otherwise.
pub proof fn requests_keep_what_they_say(
    project_key: String,
    agent_name: String,
    canonical: Option<String>,
    paths: Option<Vec<String>>,
    ids: Option<Vec<i64>>,
    extend: Option<i64>,
    id: i64,
    note: Option<String>,
    notify: Option<bool>,
    release: ReleaseRequest,
    renew: RenewRequest,
    force: ForceRequest,
    name: String,
)
    requires
        canonical == Some(name) || canonical is None && name == agent_name,
    ensures
        call_ensures(
            release_file_reservations,
            (project_key, agent_name, canonical, paths, ids),
            release,
        ) ==> {
            &&& release.project_key == project_key
            &&& release.agent_name == name
            &&& release.paths == paths
            &&& release.file_reservation_ids == ids
        },
        call_ensures(
            renew_file_reservations,
            (project_key, agent_name, canonical, extend, paths, ids),
            renew,
        ) ==> {
            &&& renew.project_key == project_key
            &&& renew.agent_name == name
            &&& renew.paths == paths
            &&& renew.file_reservation_ids == ids
            &&& extend is None ==> renew.extend == 1800
            &&& extend matches Some(t) ==> {
                &&& 60 <= t <= 31_536_000 ==> renew.extend == t
                &&& t < 60 ==> renew.extend == 60
                &&& t > 31_536_000 ==> renew.extend == 31_536_000
            }
        },
        call_ensures(
            force_release_file_reservation,
            (project_key, agent_name, canonical, id, note, notify),
            force,
        ) ==> {
            &&& force.project_key == project_key
            &&& force.agent_name == name
            &&& force.file_reservation_id == id
            &&& force.note == note
            &&& notify is None ==> force.notify
            &&& notify matches Some(n) ==> force.notify == n
        },
{
    canonical_name_counts(canonical, agent_name);
    if let Some(t) = extend {
        extension_is_what_is_asked_for(t, t);
    }
    extension_is_what_is_asked_for(0, 0);
}

/// The filter of a row says that it is picked just where it is the agent's and not
/// released, its id is anywhere in the ids, if there are any, and one of the paths is its
/// pattern or overlaps it, if there are any.
pub proof fn row_is_picked_where_it_is_meant(
    row: FileReservationRow,
    me: i64,
    paths: Option<Vec<String>>,
    ids: Option<Vec<i64>>,
    overlaps: Vec<bool>,
    id: i64,
    r: bool,
)
    requires
        call_ensures(renewal_filter_matches, (&row, me, &paths, &ids, &overlaps), r),
        is_id(id, row.id),
    ensures
        r <==> {
            &&& row.agent_id == me
            &&& !(row.released_ts is Some && row.released_ts->0.micros > 0)
            &&& ids is Some ==> exists|n: int|
                0 <= n < ids->0@.len() && #[trigger] ids->0@[n] == id
            &&& paths is Some ==> exists|p: int|
                #![trigger paths->0@[p]]
                0 <= p < paths->0@.len() && (paths->0@[p]@ == row.path_pattern@ || overlaps@[p])
        },
{
    release_is_told_by_its_time(row, row.id);
    if ids is Some {
        let list = ids->0@;
        if list.contains(id) {
            let n = choose|n: int| 0 <= n < list.len() && list[n] == id;
            assert(ids->0@[n] == id);
        }
    }
}

/// A release picks every reservation that is meant, in order, and no other. The result
/// gives their positions.
pub proof fn release_picks_what_is_meant(
    matching: ReleaseMatch,
    overlaps: Vec<Vec<bool>>,
    me: i64,
    r: ReleaseCall,
) -> (at: Seq<int>)
    requires
        answers_filter(overlaps@, matching.rows@, matching.paths),
        call_ensures(ReleaseMatch::pick, (matching, &overlaps), r),
        is_id(me, matching.agent.id),
    ensures
        r.request == matching.request,
        r.project == matching.project,
        r.agent == matching.agent,
        r.ids is Some,
        picks_just(
            at,
            r.ids->0@,
            matching.rows@,
            me,
            matching.paths,
            matching.request.file_reservation_ids,
            overlaps@,
        ),
{
    filters_pick_what_is_meant(
        matching.rows@,
        me,
        matching.paths,
        matching.request.file_reservation_ids,
        overlaps@,
    )
}

/// A renewal names every reservation that is meant, each once, and no other, and
/// remembers when each of them expired, as the last row of it says.
pub proof fn renewal_picks_what_is_meant(
    matching: RenewMatch,
    overlaps: Vec<Vec<bool>>,
    me: i64,
    r: RenewCall,
)
    requires
        answers_filter(overlaps@, matching.rows@, matching.paths),
        call_ensures(RenewMatch::pick, (matching, &overlaps), r),
        is_id(me, matching.agent.id),
    ensures
        r.request == matching.request,
        r.project == matching.project,
        r.agent == matching.agent,
        r.ids@.no_duplicates(),
        forall|k: int|
            #![trigger matching.rows@[k]]
            0 <= k < matching.rows@.len() && is_meant(
                matching.rows@[k],
                me,
                matching.paths,
                matching.request.file_reservation_ids,
                overlaps@[k]@,
            ) ==> r.ids@.contains(matching.rows@[k].id->0),
        forall|id: i64| #[trigger]
            r.ids@.contains(id) ==> r.previous@.contains_key(id) && exists|k: int|
                0 <= k < matching.rows@.len() && #[trigger] is_meant(
                    matching.rows@[k],
                    me,
                    matching.paths,
                    matching.request.file_reservation_ids,
                    overlaps@[k]@,
                ) && matching.rows@[k].id == Some(id) && r.previous@[id]
                    == matching.rows@[k].expires_ts.micros && forall|q: int|
                    k < q < matching.rows@.len() && #[trigger] is_meant(
                        matching.rows@[q],
                        me,
                        matching.paths,
                        matching.request.file_reservation_ids,
                        overlaps@[q]@,
                    ) ==> matching.rows@[q].id != Some(id),
{
    let rows = matching.rows@;
    let paths = matching.paths;
    let ids = matching.request.file_reservation_ids;
    remembered_expiries_are_those_of_what_is_meant(rows, me, paths, ids, overlaps@);
    assert(crate::archive::id_or_zero(matching.agent.id) == me);
    assert forall|k: int|
        #![trigger rows[k]]
        0 <= k < rows.len() && is_meant(rows[k], me, paths, ids, overlaps@[k]@) implies
        r.ids@.contains(rows[k].id->0) by {
        assert(is_meant(rows[k], me, paths, ids, overlaps@[k]@));
        assert(r.previous@.contains_key(rows[k].id->0));
    }
    assert forall|id: i64| #[trigger] r.ids@.contains(id) implies r.previous@.contains_key(id) by {
    }
}

/// Without filters a release is of all that the agent holds; with one, the reservations
/// are read first. An agent that cannot be looked up ends it.
pub proof fn filters_have_the_reservations_read(
    waiting: ReleaseAgent,
    found: Result<AgentRow, LookupError>,
    r: Result<ReleaseNext, ReleaseFailed>,
)
    requires
        call_ensures(ReleaseAgent::with_agent, (waiting, found), r),
    ensures
        found matches Ok(agent) ==> {
            &&& r is Ok
            &&& waiting.paths is Some || waiting.request.file_reservation_ids is Some ==> {
                &&& r->Ok_0 matches ReleaseNext::List(next)
                &&& next.request == waiting.request
                &&& next.project == waiting.project
                &&& next.agent == agent
                &&& next.paths == waiting.paths
            }
            &&& waiting.paths is None && waiting.request.file_reservation_ids is None ==> {
                &&& r->Ok_0 matches ReleaseNext::Release(next)
                &&& next.request == waiting.request
                &&& next.project == waiting.project
                &&& next.agent == agent
                &&& next.ids is None
            }
        },
        found matches Err(lookup) ==> {
            &&& r is Err
            &&& r->Err_0.request == waiting.request
            &&& r->Err_0.cause == (ReleaseFailure::Lookup {
                stage: ReleaseStage::ResolveAgent,
                error: lookup.error,
                detail: lookup.detail,
            })
        },
{
}

/// The paths of a filter are placed below the project, one by one and in order; without
/// a filter there are none.
pub proof fn filter_paths_are_placed(
    release: ReleaseRequest,
    found: Result<ProjectRow, LookupError>,
    released: Result<ReleasePaths, ReleaseFailed>,
    renew: RenewRequest,
    project: ProjectRow,
    renewed: RenewPaths,
    machine: Machine,
)
    ensures
        call_ensures(ReleaseRequest::with_project, (release, found, &machine), released) ==> {
            &&& found matches Ok(known) ==> {
                &&& released is Ok
                &&& released->Ok_0.request == release
                &&& released->Ok_0.project == known
                &&& released->Ok_0.run is Some <==> release.paths is Some
                &&& released->Ok_0.run matches Some(run) ==> {
                    &&& run.stop is None ==> run.relatives@.len() == release.paths->0@.len()
                    &&& forall|k: int|
                        #![trigger run.relatives@[k]]
                        0 <= k < run.relatives@.len() ==> relativized(
                            known.human_key@,
                            release.paths->0@[k]@,
                            machine,
                        ) == Some(run.relatives@[k]@)
                }
            }
            &&& found matches Err(lookup) ==> {
                &&& released is Err
                &&& released->Err_0.request == release
                &&& released->Err_0.cause == (ReleaseFailure::Lookup {
                    stage: ReleaseStage::ResolveProject,
                    error: lookup.error,
                    detail: lookup.detail,
                })
            }
        },
        call_ensures(RenewRequest::with_project, (renew, project, &machine), renewed) ==> {
            &&& renewed.request == renew
            &&& renewed.project == project
            &&& renewed.run is Some <==> renew.paths is Some
            &&& renewed.run matches Some(run) ==> {
                &&& run.stop is None ==> run.relatives@.len() == renew.paths->0@.len()
                &&& forall|k: int|
                    #![trigger run.relatives@[k]]
                    0 <= k < run.relatives@.len() ==> relativized(
                        project.human_key@,
                        renew.paths->0@[k]@,
                        machine,
                    ) == Some(run.relatives@[k]@)
            }
        },
{
    if call_ensures(ReleaseRequest::with_project, (release, found, &machine), released) {
        if let Ok(known) = found {
            if let Some(run) = released->Ok_0.run {
                paths_are_placed_in_order(run, known.human_key@, release.paths->0@, machine);
            }
        }
    }
    if call_ensures(RenewRequest::with_project, (renew, project, &machine), renewed) {
        if let Some(run) = renewed.run {
            paths_are_placed_in_order(run, project.human_key@, renew.paths->0@, machine);
        }
    }
}

/// Whether a filter can be used: there is none, or every path of it lies below the
/// project and is valid.
pub open spec fn is_usable(
    run: Option<crate::filter::RelativePaths>,
    facts: Seq<PatternFacts>,
) -> bool {
    run matches Some(paths) ==> paths.stop is None && forall|k: int|
        0 <= k < paths.relatives@.len() ==> invalidity(
            (#[trigger] paths.relatives@[k])@,
            facts[k],
        ) is None
}

/// A release or a renewal goes on with its filter just where that can be used, and then
/// with all its paths.
pub proof fn usable_filters_are_kept(
    release: ReleasePaths,
    released: Result<ReleaseAgent, ReleaseFailed>,
    renew: RenewPaths,
    renewed: Result<RenewAgent, McpError>,
    facts: Vec<PatternFacts>,
)
    ensures
        call_ensures(ReleasePaths::judge, (release, &facts), released) ==> {
            &&& released is Ok <==> is_usable(release.run, facts@)
            &&& released matches Ok(next) ==> {
                &&& next.request == release.request
                &&& next.project == release.project
                &&& release.run is None ==> next.paths is None
                &&& release.run matches Some(run) ==> next.paths == Some(run.relatives)
            }
            &&& released matches Err(failed) ==> failed.request == release.request
                && failed.cause is Refused
        },
        call_ensures(RenewPaths::judge, (renew, &facts), renewed) ==> {
            &&& renewed is Ok <==> is_usable(renew.run, facts@)
            &&& renewed matches Ok(next) ==> {
                &&& next.request == renew.request
                &&& next.project == renew.project
                &&& renew.run is None ==> next.paths is None
                &&& renew.run matches Some(run) ==> next.paths == Some(run.relatives)
            }
        },
{
    if call_ensures(ReleasePaths::judge, (release, &facts), released) {
        match released {
            Ok(next) => filter_is_used_where_given(Ok(next.paths), release.run, facts@),
            Err(failed) => {
                if let ReleaseFailure::Refused(error) = failed.cause {
                    filter_is_used_where_given(Err(error), release.run, facts@);
                }
            },
        }
    }
    if call_ensures(RenewPaths::judge, (renew, &facts), renewed) {
        match renewed {
            Ok(next) => filter_is_used_where_given(Ok(next.paths), renew.run, facts@),
            Err(error) => filter_is_used_where_given(Err(error), renew.run, facts@),
        }
    }
}

/// A release and a renewal go on with all rows that were read, and end with the error of
/// the database where none could be.
pub proof fn rows_are_taken_as_read(
    listing: ReleaseList,
    released: Result<ReleaseMatch, ReleaseFailed>,
    waiting: RenewAgent,
    agent: AgentRow,
    renewed: Result<RenewMatch, McpError>,
    out: DbOutcome<Vec<FileReservationRow>>,
)
    ensures
        call_ensures(ReleaseList::with_rows, (listing, out), released) ==> {
            &&& out matches DbOutcome::Done(rows) ==> released == Ok::<
                ReleaseMatch,
                ReleaseFailed,
            >(
                ReleaseMatch {
                    request: listing.request,
                    project: listing.project,
                    agent: listing.agent,
                    paths: listing.paths,
                    rows,
                },
            )
            &&& out matches DbOutcome::Failed(failure) ==> released is Err
                && released->Err_0.request == listing.request && released->Err_0.cause == (
            ReleaseFailure::Database { stage: ReleaseStage::ListUnreleased, failure })
            &&& out !is Done ==> released is Err
        },
        call_ensures(RenewAgent::with_rows, (waiting, agent, out), renewed) ==> {
            &&& out matches DbOutcome::Done(rows) ==> renewed == Ok::<RenewMatch, McpError>(
                RenewMatch {
                    request: waiting.request,
                    project: waiting.project,
                    agent,
                    paths: waiting.paths,
                    rows,
                },
            )
            &&& out !is Done ==> (renewed matches Err(error) && Some(error) == reported_error(out))
        },
{
    outcome_carries_its_error(out);
    outcome_ends_the_release(out, ReleaseStage::ListUnreleased);
}

/// A release counts all rows that the database released, and ends with its error where
/// it failed.
pub proof fn released_rows_are_counted(
    call: ReleaseCall,
    out: DbOutcome<Vec<FileReservationRow>>,
    r: Result<ReleaseDone, ReleaseFailed>,
)
    requires
        call_ensures(ReleaseCall::released, (call, out), r),
    ensures
        out matches DbOutcome::Done(rows) ==> r is Ok && r->Ok_0.released == rows@.len()
            && r->Ok_0.project == call.project,
        out matches DbOutcome::Failed(failure) ==> r is Err && r->Err_0.request == call.request
            && r->Err_0.cause == (ReleaseFailure::Database {
            stage: ReleaseStage::Release,
            failure,
        }),
        out matches DbOutcome::Cancelled { reason, error } ==> r is Err && r->Err_0.request
            == call.request && r->Err_0.cause == (ReleaseFailure::Cancelled { reason, error }),
        out matches DbOutcome::Panicked { message, error } ==> r is Err && r->Err_0.request
            == call.request && r->Err_0.cause == (ReleaseFailure::Panicked { message, error }),
{
    outcome_ends_the_release(out, ReleaseStage::Release);
}

/// The answer to a release counts what it released itself.
pub proof fn release_answers_its_own_count(
    settled: ReleaseSettled,
    released_at: String,
    r: ReleaseResult,
)
    requires
        call_ensures(ReleaseSettled::answer, (&settled, released_at), r),
    ensures
        settled.released <= 0x7fff_ffff ==> r.released == settled.released,
        settled.released > 0x7fff_ffff ==> r.released == 0x7fff_ffff,
        r.released_at == released_at,
{
    answers_count_up_to_their_limit(settled.released as int);
}

/// A replay that ended is marked, and the next one is taken, with the release and the
/// queue as they are.
pub proof fn marked_replay_goes_on(mark: ReplayMark, replayed_ts: i64, r: ReplayMarked)
    requires
        mark.wf(),
        mark.replay.queue@.len() <= usize::MAX,
        call_ensures(ReplayMark::mark, (mark, replayed_ts), r),
    ensures
        r.replay.at == mark.replay.at + 1,
        r.replay.queue == mark.replay.queue,
        r.replay.done == mark.replay.done,
        json_tree(r.marker) is Object,
        json_tree(r.marker)->Object_0["intent_id"@] == JsonTree::Text(
            mark.replay.queue@[mark.replay.at as int].intent_id@,
        ),
        json_tree(r.marker)->Object_0["intent_content_sha256"@] == JsonTree::Text(
            mark.replay.queue@[mark.replay.at as int].content_sha256@,
        ),
        json_tree(r.marker)->Object_0["replayed_ts"@] == JsonTree::Int(replayed_ts as int),
        mark.end matches ReplayEnd::Released(n) ==> json_tree(r.marker)->Object_0["status"@]
            == JsonTree::Text("replayed"@) && json_tree(r.marker)->Object_0["released"@]
            == JsonTree::Int(n as int),
{
    crate::laws::release::marker_is_of_its_release(
        json_tree(r.marker),
        mark.replay.queue@[mark.replay.at as int]@,
        mark.end,
        replayed_ts,
    );
}

/// A release that ended early is queued as it was asked for, where and because the
/// database could not be used.
pub proof fn stopped_release_is_queued_or_fails(failed: ReleaseFailed, r: ReleaseStop)
    requires
        call_ensures(ReleaseFailed::stop, (failed,), r),
    ensures
        failed.cause matches ReleaseFailure::Lookup { stage, error, detail } ==> {
            let kind = json_tree(error.data->0)->Object_0["error"@]->Object_0["type"@];
            let typed = error.data is Some && json_tree(error.data->0) is Object && json_tree(
                error.data->0,
            )->Object_0.contains_key("error"@) && json_tree(error.data->0)->Object_0["error"@]
                is Object && json_tree(
                error.data->0,
            )->Object_0["error"@]->Object_0.contains_key("type"@);
            let unusable = typed && (kind == JsonTree::Text("DATABASE_CORRUPTION"@) || kind
                == JsonTree::Text("DATABASE_ERROR"@) || kind == JsonTree::Text(
                "DATABASE_POOL_EXHAUSTED"@,
            ) || kind == JsonTree::Text("RESOURCE_BUSY"@));
            &&& unusable ==> r == ReleaseStop::Queue(
                QueuedRelease { request: failed.request, stage, detail },
            )
            &&& !unusable ==> r == ReleaseStop::Fail(error)
        },
        failed.cause matches ReleaseFailure::Database { stage, failure } ==> {
            &&& failure.kind == DbErrorKind::NotFound || failure.kind == DbErrorKind::Other ==> r
                == ReleaseStop::Fail(failure.error)
            &&& failure.kind != DbErrorKind::NotFound && failure.kind != DbErrorKind::Other ==> r
                == ReleaseStop::Queue(
                QueuedRelease { request: failed.request, stage, detail: failure.detail },
            )
        },
        failed.cause matches ReleaseFailure::Refused(error) ==> r == ReleaseStop::Fail(error),
        failed.cause matches ReleaseFailure::Cancelled { error, .. } ==> r == ReleaseStop::Fail(
            error,
        ),
        failed.cause matches ReleaseFailure::Panicked { error, .. } ==> r == ReleaseStop::Fail(
            error,
        ),
{
    if let ReleaseFailure::Lookup { error, .. } = failed.cause {
        let kind = json_tree(error.data->0)->Object_0["error"@]->Object_0["type"@];
        if crate::errors::error_type(error) is Some {
            crate::laws::errors::database_errors_are_told_by_type(error, kind->Text_0);
        }
    }
    if let ReleaseFailure::Database { failure, .. } = failed.cause {
        crate::laws::errors::unavailable_kinds(failure.kind);
    }
}

/// A release is reconciled with all active reservations, and answered without where they
/// cannot be read.
pub proof fn reconciliation_never_undoes_the_release(
    waiting: ReleaseReconcile,
    out: DbOutcome<Vec<FileReservationRow>>,
    r: ReleaseHealNext,
)
    requires
        call_ensures(ReleaseReconcile::with_active, (waiting, out), r),
    ensures
        out matches DbOutcome::Done(active) ==> (r matches ReleaseHealNext::Agents(heal)
            && heal.done == waiting.done && heal.active == active),
        out !is Done ==> (r matches ReleaseHealNext::Answer(settled) && settled.released
            == waiting.done.released),
{
}

/// A renewal that the database failed ends with its error; else every row is answered
/// for.
pub proof fn renewed_rows_are_answered_for(
    call: RenewCall,
    out: DbOutcome<Vec<FileReservationRow>>,
    r: Result<RenewDone, McpError>,
)
    requires
        call_ensures(RenewCall::renewed, (call, out), r),
    ensures
        out matches DbOutcome::Done(rows) ==> {
            &&& r is Ok
            &&& r->Ok_0.rows == rows
            &&& r->Ok_0.old_expiries@.len() == rows@.len()
            &&& r->Ok_0.write is Some <==> rows@.len() > 0
            &&& forall|i: int|
                #![trigger r->Ok_0.old_expiries@[i]]
                0 <= i < rows@.len() && rows@[i].id is Some && call.previous@.contains_key(
                    rows@[i].id->0,
                ) ==> r->Ok_0.old_expiries@[i] == call.previous@[rows@[i].id->0]
        },
        out !is Done ==> (r matches Err(error) && Some(error) == reported_error(out)),
{
    outcome_carries_its_error(out);
    if let DbOutcome::Done(rows) = out {
        every_renewed_row_is_answered_for(r->Ok_0, call, rows);
    }
}

/// The answer to a renewal counts every row, and says of each its id, its pattern, and
/// when it expired and expires.
pub proof fn renewal_answers_every_row(done: RenewDone, old: Vec<String>, r: RenewalResult)
    requires
        old@.len() == done.rows@.len(),
        call_ensures(RenewDone::answer, (done, &old), r),
    ensures
        done.rows@.len() <= 0x7fff_ffff ==> r.renewed == done.rows@.len(),
        done.rows@.len() > 0x7fff_ffff ==> r.renewed == 0x7fff_ffff,
        r.file_reservations@.len() == done.rows@.len(),
        forall|i: int|
            #![trigger r.file_reservations@[i]]
            0 <= i < done.rows@.len() ==> {
                let renewed = r.file_reservations@[i];
                &&& is_id(renewed.id, done.rows@[i].id)
                &&& renewed.path_pattern@ == done.rows@[i].path_pattern@
                &&& renewed.old_expires_ts@ == old@[i]@
                &&& renewed.new_expires_ts@ == done.rows@[i].expires_ts.iso@
            },
{
    answers_count_up_to_their_limit(done.rows@.len() as int);
}

/// A holder that no longer exists is none; one that cannot be looked up ends the forced
/// release; and so does mail that cannot be.
pub proof fn holder_and_mail_are_taken_as_found(
    case: ForceCase,
    found: DbOutcome<HolderRow>,
    now: i64,
    held: Result<ForceMail, McpError>,
    waiting: ForceMail,
    out: DbOutcome<Option<Timestamp>>,
    mailed: Result<ForceActivity, McpError>,
)
    ensures
        call_ensures(ForceCase::with_holder, (case, found, now), held) ==> {
            let gone = found is Failed && found->Failed_0.kind == DbErrorKind::NotFound;
            &&& found matches DbOutcome::Done(holder) ==> held == Ok::<ForceMail, McpError>(
                ForceMail { case, holder: Some(holder), now },
            )
            &&& gone ==> held == Ok::<ForceMail, McpError>(ForceMail { case, holder: None, now })
            &&& found !is Done && !gone ==> (held matches Err(error) && Some(error)
                == reported_error(found))
        },
        call_ensures(ForceMail::with_mail, (waiting, out), mailed) ==> {
            &&& out matches DbOutcome::Done(mail) ==> mailed == Ok::<ForceActivity, McpError>(
                ForceActivity {
                    case: waiting.case,
                    holder: waiting.holder,
                    now: waiting.now,
                    mail,
                },
            )
            &&& out !is Done ==> (mailed matches Err(error) && Some(error) == reported_error(out))
        },
{
    outcome_carries_its_error(found);
    outcome_carries_its_error(out);
}

/// A forced release of a reservation that has not expired is refused where any one sign
/// of activity is recent, and goes on where none is.
pub proof fn recent_activity_refuses_the_forced_release(
    waiting: ForceActivity,
    activity: PatternActivity,
    r: Result<ForceCall, McpError>,
)
    requires
        call_ensures(ForceActivity::with_activity, (waiting, activity), r),
    ensures
        r is Err <==> {
            let grace = waiting.case.grace_seconds;
            &&& waiting.case.reservation.expires_ts.micros > waiting.now
            &&& {
                ||| holder_is_recent(waiting)
                ||| is_recent(waiting.mail, waiting.now, grace)
                ||| is_recent(activity.fs_activity, waiting.now, grace)
                ||| is_recent(activity.git_activity, waiting.now, grace)
            }
        },
{
    any_recent_sign_protects(r, waiting, activity);
}

/// A forced release that released nothing is a conflict, and one that released something
/// goes on with the count.
pub proof fn nothing_released_is_a_conflict(
    call: ForceCall,
    out: DbOutcome<u64>,
    r: Result<ForceReadBack, McpError>,
)
    requires
        call_ensures(ForceCall::released, (call, out), r),
    ensures
        out matches DbOutcome::Done(n) ==> {
            &&& n > 0 ==> r == Ok::<ForceReadBack, McpError>(ForceReadBack { call, released: n })
            &&& n == 0 ==> {
                &&& r is Err
                &&& said(r->Err_0)["type"@] == JsonTree::Text("CONFLICT"@)
                &&& said(r->Err_0)["recoverable"@] == JsonTree::Bool(true)
                &&& said(r->Err_0)["data"@]->Object_0["file_reservation_id"@] == JsonTree::Int(
                    call.case.request.file_reservation_id as int,
                )
            }
        },
        out !is Done ==> (r matches Err(error) && Some(error) == reported_error(out)),
{
    outcome_carries_its_error(out);
    if let DbOutcome::Done(n) = out {
        if n == 0 {
            tool_error_says_it_all(
                r->Err_0,
                "CONFLICT"@,
                "Reservation was renewed, released, or expired by another agent while heuristics were being calculated."@,
                true,
                crate::force::id_tree(call.case.request.file_reservation_id),
            );
        }
    }
}

/// Every wanted path is granted or withheld, as no reservation or one is in its way. The
/// result gives the positions of either.
pub proof fn every_path_is_decided(
    matching: AcquireMatch,
    overlaps: Vec<Vec<bool>>,
    me: i64,
    next: AcquireNext,
) -> (at: (Seq<int>, Seq<int>))
    requires
        call_ensures(AcquireMatch::decide, (matching, &overlaps), next),
        is_id(me, matching.agent.id),
    ensures
        at.0.len() == granting(next).len(),
        at.1.len() == withholding(next).len(),
        forall|i: int|
            #![trigger matching.wanted@[i]]
            #![trigger overlaps@[i]]
            0 <= i < matching.wanted@.len() ==> {
                let free = is_free(
                    matching.active@,
                    me,
                    matching.request.exclusive,
                    overlaps@[i]@,
                );
                &&& at.0.contains(i) <==> free
                &&& at.1.contains(i) <==> !free
            },
        forall|g: int|
            #![trigger at.0[g]]
            0 <= g < at.0.len() ==> 0 <= at.0[g] < matching.wanted@.len() && granting(next)[g]
                == matching.wanted@[at.0[g]]@,
        forall|j: int|
            #![trigger at.1[j]]
            0 <= j < at.1.len() ==> 0 <= at.1[j] < matching.wanted@.len() && withholding(
                next,
            )[j].path@ == matching.wanted@[at.1[j]]@,
{
    every_wanted_path_is_decided(next, matching, overlaps@, me)
}

/// Naming the holders keeps every conflict, with its path and all its holders in order.
pub proof fn every_conflict_is_named(
    waiting: AcquireConflicts,
    agents: Vec<AgentRow>,
    r: Result<AcquireNext, McpError>,
)
    requires
        call_ensures(AcquireConflicts::with_agents, (waiting, DbOutcome::Done(agents)), r),
    ensures
        r is Ok,
        reported(r->Ok_0).len() == waiting.pending@.len(),
        granting(r->Ok_0) == waiting.grant@,
        forall|i: int|
            #![trigger waiting.pending@[i]]
            0 <= i < waiting.pending@.len() ==> {
                &&& reported(r->Ok_0)[i].path@ == waiting.pending@[i].path@
                &&& reported(r->Ok_0)[i].holders@.len() == waiting.pending@[i].holders@.len()
            },
        forall|i: int, j: int|
            #![trigger waiting.pending@[i].holders@[j]]
            0 <= i < waiting.pending@.len() && 0 <= j < waiting.pending@[i].holders@.len()
                ==> is_name_of(
                reported(r->Ok_0)[i].holders@[j].agent@,
                agents@,
                waiting.pending@[i].holders@[j].agent_id,
            ),
{
    naming_keeps_every_conflict(r, waiting, agents);
    if waiting.grant@.len() == 0 {
        assert(granting(r->Ok_0) =~= waiting.grant@);
    }
}

/// A refused grant is looked at again against the reservations as they are then, with the
/// names of all agents; where either cannot be read, the request ends.
pub proof fn refused_grant_is_looked_at_again(
    waiting: AcquireGrant,
    out: DbOutcome<Vec<FileReservationRow>>,
    again: Result<AcquireRecheck, McpError>,
    recheck: AcquireRecheck,
    agents: DbOutcome<Vec<AgentRow>>,
    named: Result<AcquireRecheckMatch, McpError>,
)
    ensures
        call_ensures(AcquireGrant::reread, (waiting, out), again) ==> {
            &&& out matches DbOutcome::Done(active) ==> again == Ok::<AcquireRecheck, McpError>(
                AcquireRecheck { waiting, active },
            )
            &&& out !is Done ==> (again matches Err(error) && Some(error) == reported_error(out))
        },
        call_ensures(AcquireRecheck::with_agents, (recheck, agents), named) ==> {
            &&& agents matches DbOutcome::Done(list) ==> {
                &&& named is Ok
                &&& named->Ok_0.waiting == recheck.waiting
                &&& named->Ok_0.active == recheck.active
                &&& named->Ok_0.names@ == names_of(list@)
            }
            &&& agents !is Done ==> (named matches Err(error) && Some(error) == reported_error(
                agents,
            ))
        },
{
    outcome_carries_its_error(out);
    outcome_carries_its_error(agents);
}

/// After the database refused a grant nothing is granted; the conflicts that were known
/// stay, and after them come those of every path of the grant that a reservation now is
/// in the way of. The result gives the positions of those paths.
pub proof fn refused_grant_is_reported(
    matching: AcquireRecheckMatch,
    overlaps: Vec<Vec<bool>>,
    me: i64,
    r: AcquireAnswer,
) -> (at: Seq<int>)
    requires
        call_ensures(AcquireRecheckMatch::answer, (matching, &overlaps), r),
        is_id(me, matching.waiting.agent.id),
    ensures
        r.response.granted@.len() == 0,
        r.write is None,
        is_rising(at),
        r.response.conflicts@.len() == matching.waiting.conflicts@.len() + at.len(),
        forall|i: int|
            #![trigger matching.waiting.conflicts@[i]]
            0 <= i < matching.waiting.conflicts@.len() ==> r.response.conflicts@[i]@
                == matching.waiting.conflicts@[i]@,
        forall|j: int|
            #![trigger at[j]]
            0 <= j < at.len() ==> {
                let conflict = r.response.conflicts@[matching.waiting.conflicts@.len() + j]@;
                &&& 0 <= at[j] < matching.waiting.grant@.len()
                &&& conflict.path == matching.waiting.grant@[at[j]]
                &&& names_all(
                    conflict.holders,
                    matching.active@,
                    matching.names@,
                    me,
                    matching.waiting.request.exclusive,
                    overlaps@[at[j]]@,
                )
            },
        forall|i: int|
            #![trigger overlaps@[i]]
            0 <= i < matching.waiting.grant@.len() ==> (at.contains(i) <==> !is_free(
                matching.active@,
                me,
                matching.waiting.request.exclusive,
                overlaps@[i]@,
            )),
{
    let waiting = matching.waiting;
    let n = waiting.grant@.len() as int;
    let known = crate::model::conflict_views(waiting.conflicts@);
    let fresh = crate::acquire::fresh_conflicts(
        waiting.grant@,
        matching.active@,
        matching.names@,
        me,
        waiting.request.exclusive,
        overlaps@,
        n,
    );
    let all = crate::model::conflict_views(r.response.conflicts@);
    assert(crate::archive::id_or_zero(waiting.agent.id) == me);
    assert(all == known + fresh);
    assert(all.len() == r.response.conflicts@.len() && known.len() == waiting.conflicts@.len());
    assert(crate::archive::active_records(
        waiting.project.human_key@,
        waiting.agent.name@,
        Seq::empty(),
    ).len() == 0);
    let at = every_refused_path_is_reported(
        waiting.grant@,
        matching.active@,
        matching.names@,
        me,
        waiting.request.exclusive,
        overlaps@,
        n,
    );
    assert forall|i: int|
        #![trigger waiting.conflicts@[i]]
        0 <= i < waiting.conflicts@.len() implies r.response.conflicts@[i]@
        == waiting.conflicts@[i]@ by {
        assert(all[i] == known[i]);
        assert(all[i] == r.response.conflicts@[i]@);
        assert(known[i] == waiting.conflicts@[i]@);
    }
    assert forall|j: int|
        #![trigger at[j]]
        0 <= j < at.len() implies r.response.conflicts@[waiting.conflicts@.len() + j]@
        == fresh[j] by {
        assert(all[known.len() + j] == fresh[j]);
        assert(all[known.len() + j] == r.response.conflicts@[known.len() + j]@);
    }
    at
}

/// A check in the name of an agent is made by its canonical name, where there is one; an
/// anonymous one stays anonymous.
pub proof fn caller_goes_by_its_canonical_name(
    check: ConflictCheck,
    canonical: Option<String>,
    r: ConflictCheck,
)
    requires
        call_ensures(ConflictCheck::named, (check, canonical), r),
    ensures
        r.project_key == check.project_key,
        r.paths == check.paths,
        check.caller is Anonymous ==> r.caller is Anonymous,
        check.caller matches ConflictCheckCaller::Named(name) ==> {
            &&& canonical matches Some(known) ==> r.caller == ConflictCheckCaller::Named(known)
            &&& canonical is None ==> r.caller == ConflictCheckCaller::Named(name)
        },
{
    if let ConflictCheckCaller::Named(name) = check.caller {
        canonical_name_counts(canonical, name);
    }
}

/// A write that failed is queued, as it is, just where it has records and each of them is
/// that of a released reservation; no other write is.
pub proof fn only_failed_releases_are_queued(
    op: WriteOp,
    written: DirectArchiveWrite,
    r: Option<WriteOp>,
)
    requires
        call_ensures(dispatch_reservation_archive_write, (op, &written), r),
    ensures
        r matches Some(queued) ==> queued == op && written is Failed && op is FileReservation,
        written !is Failed ==> r is None,
        op is Other ==> r is None,
        op matches WriteOp::FileReservation { reservations, .. } ==> {
            &&& reservations@.len() == 0 ==> r is None
            &&& reservations@.len() > 0 && written is Failed ==> (r is Some <==> forall|i: int|
                0 <= i < reservations@.len() ==> {
                    let record = json_tree(#[trigger] reservations@[i]);
                    &&& record is Object
                    &&& record->Object_0.contains_key("released_ts"@)
                    &&& record->Object_0["released_ts"@] != JsonTree::Null
                })
        },
{
    only_releases_may_be_queued(op);
}

/// A release that could not even reach the database is queued as it was asked for.
pub proof fn unreachable_database_queues_the_release(
    request: ReleaseRequest,
    detail: String,
    r: QueuedRelease,
)
    requires
        call_ensures(ReleaseRequest::pool_unavailable, (request, detail), r),
    ensures
        r.request == request,
        r.stage == ReleaseStage::GetDbPool,
        r.detail == detail,
{
}

/// A replay ends as its release did: with what that released, or with why it failed.
pub proof fn replay_ends_as_its_release_did(
    pending: ReplayPending,
    end: ReplayEnd,
    mark: ReplayMark,
    done: ReleaseDone,
    released: ReplayEnd,
    failure: ReplayFailure,
    text: String,
    failed: ReplayEnd,
)
    ensures
        call_ensures(ReplayPending::ended, (pending, end), mark) ==> mark.replay == pending.replay
            && mark.end == end,
        call_ensures(ReleaseDone::end, (&done,), released) ==> released == ReplayEnd::Released(
            done.released,
        ),
        call_ensures(ReplayFailure::end, (failure, text), failed) ==> {
            &&& failed is Failed
            &&& failed->retryable == failure.retryable
            &&& failure.detail matches ReplayDetail::Text(known) ==> failed->detail == known
            &&& failure.detail is TextOf ==> failed->detail == text
        },
{
    replay_reason_is_known_or_told(failure.detail, text);
}

/// A queued release is asked for again as it was; a record of another kind asks for
/// nothing.
pub proof fn queued_release_is_asked_for_again(
    intent: QueuedReleaseIntent,
    r: Option<ReleaseRequest>,
)
    requires
        call_ensures(replay_single_release_intent, (&intent,), r),
    ensures
        r is Some <==> intent.kind@ == "release_file_reservations_intent"@,
        r matches Some(request) ==> {
            &&& request.project_key@ == intent.project_key@
            &&& request.agent_name@ == intent.agent_name@
            &&& request.paths is Some <==> intent.paths is Some
            &&& request.paths matches Some(list) ==> {
                &&& list@.len() == intent.paths->0@.len()
                &&& forall|i: int|
                    #![trigger list@[i]]
                    0 <= i < list@.len() ==> list@[i]@ == intent.paths->0@[i]@
            }
            &&& request.file_reservation_ids is Some <==> intent.file_reservation_ids is Some
            &&& request.file_reservation_ids matches Some(list) ==> list@
                == intent.file_reservation_ids->0@
        },
{
    if let Some(request) = r {
        if let Some(list) = request.paths {
            let texts = crate::text::texts(list@);
            let asked = crate::text::texts(intent.paths->0@);
            assert(texts == asked);
            assert(texts.len() == list@.len() && asked.len() == intent.paths->0@.len());
            assert forall|i: int|
                #![trigger list@[i]]
                0 <= i < list@.len() implies list@[i]@ == intent.paths->0@[i]@ by {
                assert(texts[i] == list@[i]@);
                assert(asked[i] == intent.paths->0@[i]@);
            }
        }
    }
}

/// A release that was queued is answered with where its record is; one whose record could
/// not be written fails for good, with the reason.
pub proof fn queued_release_is_answered(
    intent: ReleaseIntent,
    appended: Result<String, String>,
    released_at: &str,
    r: Result<String, McpError>,
)
    requires
        call_ensures(queued_release_intent_response, (&intent, appended, released_at), r),
    ensures
        r is Ok <==> appended is Ok,
        r matches Ok(text) ==> exists|tree: JsonTree|
            {
                &&& text@ == #[trigger] json_encoding(tree)
                &&& tree is Object
                &&& tree->Object_0["queued"@] == JsonTree::Bool(true)
                &&& tree->Object_0["released"@] == JsonTree::Int(0)
                &&& tree->Object_0["released_at"@] == JsonTree::Text(released_at@)
                &&& tree->Object_0["intent"@]->Object_0["id"@] == JsonTree::Text(
                    intent.intent_id@,
                )
                &&& tree->Object_0["intent"@]->Object_0["path"@] == JsonTree::Text(
                    appended->Ok_0@,
                )
                &&& tree->Object_0["intent"@]->Object_0["content_sha256"@] == JsonTree::Text(
                    intent.content_sha256@,
                )
            },
        r matches Err(error) ==> {
            &&& said(error)["type"@] == JsonTree::Text("RELEASE_INTENT_WRITE_FAILED"@)
            &&& said(error)["recoverable"@] == JsonTree::Bool(false)
            &&& said(error)["data"@]->Object_0["error_detail"@] == JsonTree::Text(
                appended->Err_0@,
            )
        },
{
    match r {
        Ok(text) => {
            let path = appended->Ok_0@;
            queued_answer_says_it_all(intent, path, released_at@);
            assert(text@ == json_encoding(
                crate::release::queued_tree(intent, path, released_at@),
            ));
        },
        Err(error) => {
            let reason = appended->Err_0@;
            tool_error_says_it_all(
                error,
                "RELEASE_INTENT_WRITE_FAILED"@,
                "Could not release reservations because the database is unavailable, and writing the local release-intent log also failed: "@
                    + reason,
                false,
                JsonTree::Object(map!["error_detail"@ => JsonTree::Text(reason)]),
            );
        },
    }
}

/// The reconciliation of the released reservations changes neither a request nor what a
/// release released; it writes just the artifacts that say that theirs is still held.
pub proof fn reconciliation_writes_released_artifacts(
    request: AcquireHealReleased,
    requested: AcquireReconciled,
    release: ReleaseHealReleased,
    released: ReleaseReconciled,
    out: DbOutcome<Vec<FileReservationRow>>,
    present: BTreeMap<i64, ArchiveReservationView>,
)
    ensures
        call_ensures(AcquireHealReleased::with_released, (request, out, &present), requested) ==> {
            &&& requested.matching == request.matching
            &&& out !is Done ==> requested.write is None
            &&& out matches DbOutcome::Done(rows) ==> (requested.write is Some <==> exists|k: int|
                0 <= k < rows@.len() && needs_release_heal(
                    #[trigger] rows@[k],
                    request.names@,
                    present@,
                ))
        },
        call_ensures(ReleaseHealReleased::with_released, (release, out, &present), released) ==> {
            &&& released.settled.released == release.done.released
            &&& out !is Done ==> released.write is None
            &&& out matches DbOutcome::Done(rows) ==> (released.write is Some <==> exists|k: int|
                0 <= k < rows@.len() && needs_release_heal(
                    #[trigger] rows@[k],
                    release.names@,
                    present@,
                ))
        },
{
    if call_ensures(AcquireHealReleased::with_released, (request, out, &present), requested) {
        released_artifacts_are_reconciled(
            requested.write,
            request.matching.project,
            request.names@,
            out,
            present@,
        );
    }
    if call_ensures(ReleaseHealReleased::with_released, (release, out, &present), released) {
        released_artifacts_are_reconciled(
            released.write,
            release.done.project,
            release.names@,
            out,
            present@,
        );
    }
}

/// The message about a forced release goes from the one who asked to the holder alone.
pub proof fn message_goes_to_the_holder(
    done: ForceReleased,
    message: MessageRow,
    record: Value,
    recipient: String,
)
    requires
        call_ensures(ForceReleased::message_record, (&done, &message), record),
        call_ensures(ForceReleased::recipient, (&done,), recipient),
    ensures
        done.call.holder matches Some(holder) ==> recipient@ == holder.name@,
        json_tree(record) is Object,
        json_tree(record)->Object_0["from"@] == JsonTree::Text(done.call.case.request.agent_name@),
        json_tree(record)->Object_0["to"@] is List,
        json_tree(record)->Object_0["to"@]->List_0.len() == 1,
        json_tree(record)->Object_0["to"@]->List_0[0] == JsonTree::Text(recipient@),
        json_tree(record)->Object_0["subject"@] == JsonTree::Text(message.subject@),
{
    holder_is_named(done.call);
    message_record_says_it_all(done, message);
}

} // verus!
