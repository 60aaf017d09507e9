//! What a call decides, said of its functions: when it goes on, when it is refused, and
//! what it answers with.

use crate::acquire::{
    file_reservation_paths, AcquireAgent, AcquireCreated, AcquireGrant, AcquireHeal, AcquireHealed,
    AcquirePaths, AcquireRequest,
};
use crate::archive::{active_archive_artifact_diverges, reservation_op_is_terminal_release, WriteOp};
use crate::conflict::{
    answers_match, check_file_reservation_conflicts, resolve_conflict_check_caller, total_bytes,
    validate_conflict_check_paths, ConflictCheck, ConflictCheckCaller, ConflictMatch, ConflictScan,
    ReservationConflictSnapshot,
};
use crate::force::{ForceNext, ForceReadBack, ForceReleased, ForceRequest, MessageRow};
use crate::guard::{
    guard_is_installed, install_precommit_guard, normalize_repo_path, uninstall_precommit_guard,
    GuardFiles, GuardInstall, GuardRepo,
};
use crate::intent::{read_queued_release_intents, QueuedReleaseIntent, ReleaseIntent};
use crate::json::{json_encoding, json_tree, JsonTree};
use crate::laws::acquire::is_rising;
use crate::laws::archive::{
    active_artifacts_are_reconciled, divergence_is_a_different_value, heals_active,
    only_releases_may_be_queued,
};
use crate::laws::conflict::{
    asks_anonymously, asks_by_name, caller_is_who_is_named, check_goes_on_where_all_is_known,
    distinct_texts_come_first, every_path_is_answered_for, how_many, is_checkable, is_checked,
    is_first, is_matchable, is_usable_name, only_the_caller_is_left_out, paths_are_judged_in_order,
    request_is_checked_in_order, splits, whole_snapshot_is_checked,
};
use crate::laws::force::{
    forced_answer_says_it_all, holder_is_notified, notified_means_created, release_is_recorded,
    reservation_is_found_in_its_project,
};
use crate::laws::guard::{
    guard_answers_say_it_all, guard_is_told_by_plugin_or_hook, repository_is_at_its_path,
};
use crate::laws::intent::{
    every_line_counts, every_open_release_is_asked_for, is_still_open, queued_record_says_it_all,
    read_releases_are_faithful,
};
use crate::laws::release::queue_is_replayed_in_turn;
use crate::laws::request::{
    creation_is_answered, every_created_row_is_granted, every_path_is_wanted_once, objection,
    paths_are_all_wanted, paths_are_weighed_in_order, request_keeps_what_it_says,
};
use crate::machine::{absolute_on, joined_on, Machine};
use crate::model::{
    names_of, AgentRow, ArchiveReservationView, DbErrorKind, DbOutcome, FileReservationRow,
    McpError, McpErrorCode, ProjectRow, ReservationConflictCheckResponse,
};
use crate::paths::expanded;
use crate::patterns::{invalidity, PatternFacts};
use crate::release::{QueuedRelease, ReleaseDone, ReleaseReplay, ReplayNext};
use crate::text::{occurs_in, texts, trimmed};
use std::collections::BTreeMap;
use vstd::prelude::*;

verus! {

/// A request for reservations is taken just where it names a path, with every path of
/// it; it asks for exclusive ones unless it says otherwise.
pub proof fn request_is_taken_with_its_paths(
    project_key: String,
    agent_name: String,
    canonical: Option<String>,
    paths: Vec<String>,
    ttl: Option<i64>,
    exclusive: Option<bool>,
    reason: Option<String>,
    r: Result<AcquireRequest, McpError>,
)
    requires
        call_ensures(
            file_reservation_paths,
            (project_key, agent_name, canonical, paths, ttl, exclusive, reason),
            r,
        ),
    ensures
        r is Ok <==> paths@.len() > 0,
        r matches Ok(request) ==> {
            &&& request.paths == paths
            &&& request.project_key == project_key
            &&& canonical matches Some(known) ==> request.agent_name == known
            &&& canonical is None ==> request.agent_name == agent_name
            &&& exclusive is None ==> request.exclusive
            &&& exclusive matches Some(e) ==> request.exclusive == e
            &&& 60 <= request.ttl <= 31_536_000
        },
{
    request_keeps_what_it_says(
        r,
        project_key,
        agent_name,
        canonical,
        paths,
        ttl,
        exclusive,
        reason,
    );
    crate::acquire::lease_is_bounded(ttl);
}

/// A request goes on with its project just where it has at most 200 paths and nothing is
/// said against any of them; and with its paths just where every one lies below the
/// project and is valid.
pub proof fn request_goes_on_with_good_paths(
    request: AcquireRequest,
    project: ProjectRow,
    facts: Vec<PatternFacts>,
    machine: Machine,
    placed: Result<AcquirePaths, McpError>,
    paths: AcquirePaths,
    relative: Vec<PatternFacts>,
    judged: Result<AcquireAgent, McpError>,
)
    ensures
        call_ensures(AcquireRequest::for_project, (request, project, &facts, &machine), placed)
            ==> (placed is Ok <==> request.paths@.len() <= 200 && forall|k: int|
            0 <= k < request.paths@.len() ==> objection(
                #[trigger] request.paths@[k],
                facts@[k],
                machine,
            ) is None),
        call_ensures(AcquirePaths::judge, (paths, &relative), judged) ==> {
            &&& judged is Ok <==> paths.run.stop is None && forall|k: int|
                0 <= k < paths.run.relatives@.len() ==> invalidity(
                    (#[trigger] paths.run.relatives@[k])@,
                    relative@[k],
                ) is None
            &&& judged matches Ok(next) ==> next.wanted == paths.run.relatives
        },
{
    if call_ensures(AcquireRequest::for_project, (request, project, &facts, &machine), placed) {
        let at = paths_are_weighed_in_order(placed, request, project, facts@, machine);
        if at < request.paths@.len() {
            assert(objection(request.paths@[at], facts@[at], machine) is Some);
        }
    }
    if call_ensures(AcquirePaths::judge, (paths, &relative), judged) {
        paths_are_all_wanted(judged, paths, relative@);
    }
}

/// A request is matched against all active reservations, with every path that it wants
/// once, where it comes first. The result gives the positions of those paths.
pub proof fn request_is_matched_against_all(
    waiting: AcquireAgent,
    agent: AgentRow,
    active: Vec<FileReservationRow>,
    r: Result<AcquireHeal, McpError>,
) -> (at: Seq<int>)
    requires
        call_ensures(AcquireAgent::with_active, (waiting, agent, DbOutcome::Done(active)), r),
    ensures
        r is Ok,
        r->Ok_0.matching.active == active,
        r->Ok_0.matching.agent == agent,
        r->Ok_0.matching.request == waiting.request,
        at.len() == r->Ok_0.matching.wanted@.len(),
        is_rising(at),
        forall|i: int|
            #![trigger at[i]]
            0 <= i < at.len() ==> 0 <= at[i] < waiting.wanted@.len()
                && r->Ok_0.matching.wanted@[i]@ == waiting.wanted@[at[i]]@,
        forall|k: int|
            0 <= k < waiting.wanted@.len() ==> (at.contains(k) <==> #[trigger] is_first(
                texts(waiting.wanted@),
                k,
            )),
{
    every_path_is_wanted_once(r, waiting, agent, active)
}

/// Before a request goes on, the artifacts of the active reservations that need it are
/// written, and no other.
pub proof fn request_heals_what_needs_it(
    heal: AcquireHeal,
    agents: Vec<AgentRow>,
    present: BTreeMap<i64, ArchiveReservationView>,
    r: AcquireHealed,
)
    requires
        call_ensures(AcquireHeal::with_agents, (heal, DbOutcome::Done(agents), &present), r),
    ensures
        heals_active(
            r.write,
            heal.matching.project,
            heal.matching.active@,
            names_of(agents@),
            present@,
        ),
{
    active_artifacts_are_reconciled(
        r,
        heal.matching,
        arbitrary(),
        arbitrary(),
        DbOutcome::Done(agents),
        present@,
    );
}

/// Every row that the database created is granted, as it is and in order, beside the
/// conflicts that were known; only a busy database has the request looked at again.
pub proof fn created_rows_are_granted(
    waiting: AcquireGrant,
    out: DbOutcome<Vec<FileReservationRow>>,
    r: Result<AcquireCreated, McpError>,
)
    requires
        call_ensures(AcquireGrant::created, (waiting, out), r),
    ensures
        out matches DbOutcome::Done(rows) ==> {
            &&& r is Ok
            &&& r->Ok_0 is Answer
            &&& ({
                let response = r->Ok_0->Answer_0.response;
                &&& response.conflicts@ == waiting.conflicts@
                &&& response.granted@.len() == rows@.len()
                &&& forall|i: int|
                    #![trigger response.granted@[i]]
                    0 <= i < rows@.len() ==> {
                        &&& response.granted@[i].path_pattern@ == rows@[i].path_pattern@
                        &&& response.granted@[i].exclusive == (rows@[i].exclusive != 0)
                        &&& response.granted@[i].expires_ts@ == rows@[i].expires_ts.iso@
                    }
            })
        },
        r is Ok && r->Ok_0 is Recheck <==> out is Failed && out->Failed_0.kind
            == DbErrorKind::ResourceBusy,
        r is Ok && r->Ok_0 is Recheck ==> r->Ok_0->Recheck_0 == waiting,
{
    creation_is_answered(r, waiting, out);
    if let DbOutcome::Done(rows) = out {
        every_created_row_is_granted(
            r->Ok_0->Answer_0,
            waiting.project,
            waiting.agent,
            rows@,
            waiting.conflicts@,
        );
    }
}

/// Whether a check takes `paths`: from 1 to 200 of them, each with at most 4096 bytes and
/// no NUL, and at most 65536 bytes together.
pub open spec fn are_checkable(paths: Seq<String>) -> bool {
    &&& 0 < paths.len() <= 200
    &&& forall|k: int| 0 <= k < paths.len() ==> is_checkable((#[trigger] paths[k])@)
    &&& total_bytes(paths) <= 65_536
}

/// A conflict check is made just where its paths can be checked, its project has a key
/// and its caller is named, or anonymous in so many words.
pub proof fn check_is_made_where_all_is_given(
    project_key: &str,
    agent_name: Option<String>,
    paths: Vec<String>,
    caller_mode: Option<String>,
    valid: Result<(), McpError>,
    caller: Result<ConflictCheckCaller, McpError>,
    r: Result<ConflictCheck, McpError>,
)
    ensures
        call_ensures(validate_conflict_check_paths, (&paths,), valid) ==> (valid is Ok
            <==> are_checkable(paths@)),
        call_ensures(resolve_conflict_check_caller, (&agent_name, &caller_mode, &paths), caller)
            ==> (caller is Ok <==> asks_anonymously(caller_mode) && agent_name is None
            || asks_by_name(caller_mode) && agent_name is Some && is_usable_name(
            trimmed(agent_name->0@),
        )),
        call_ensures(
            check_file_reservation_conflicts,
            (project_key, &agent_name, paths, &caller_mode),
            r,
        ) ==> {
            &&& r is Ok <==> {
                &&& are_checkable(paths@)
                &&& trimmed(project_key@).len() > 0 && is_checkable(trimmed(project_key@))
                &&& asks_anonymously(caller_mode) && agent_name is None || asks_by_name(
                    caller_mode,
                ) && agent_name is Some && is_usable_name(trimmed(agent_name->0@))
            }
            &&& r matches Ok(check) ==> {
                &&& check.paths == paths
                &&& check.project_key@ == trimmed(project_key@)
                &&& check.caller is Anonymous <==> agent_name is None
            }
        },
{
    if call_ensures(validate_conflict_check_paths, (&paths,), valid) {
        paths_judged(valid, paths@);
    }
    if call_ensures(resolve_conflict_check_caller, (&agent_name, &caller_mode, &paths), caller) {
        caller_is_who_is_named(caller, agent_name, caller_mode, paths@);
    }
    if call_ensures(
        check_file_reservation_conflicts,
        (project_key, &agent_name, paths, &caller_mode),
        r,
    ) {
        request_is_checked_in_order(r, project_key@, agent_name, paths, caller_mode);
        if crate::conflict::is_paths_verdict(Ok(()), paths@) {
            paths_judged(Ok(()), paths@);
        } else {
            if let Err(error) = r {
                paths_judged(Err(error), paths@);
            }
        }
        reveal_strlit("named");
        reveal_strlit("anonymous");
        assert("named"@.len() == 5 && "anonymous"@.len() == 9);
    }
}

proof fn paths_judged(valid: Result<(), McpError>, paths: Seq<String>)
    requires
        crate::conflict::is_paths_verdict(valid, paths),
    ensures
        valid is Ok <==> are_checkable(paths),
{
    let at = paths_are_judged_in_order(valid, paths);
    if at < paths.len() {
        assert(!is_checkable(paths[at]@));
    }
}

/// A check goes on with a snapshot just where that is whole; and then just where every
/// path of it lies below the project and can be matched, and so can the reservations of
/// all but the caller.
pub proof fn check_goes_on_with_what_can_be_told(
    check: ConflictCheck,
    snapshot: ReservationConflictSnapshot,
    machine: Machine,
    read: Result<ConflictScan, McpError>,
    scan: ConflictScan,
    facts: Vec<PatternFacts>,
    held: Vec<PatternFacts>,
    screened: Result<ConflictMatch, McpError>,
)
    ensures
        call_ensures(
            ConflictCheck::read_snapshot,
            (check, DbOutcome::Done(snapshot), &machine),
            read,
        ) ==> {
            &&& read is Ok <==> !snapshot.overflow
            &&& read matches Ok(next) ==> next.snapshot == snapshot && next.paths == check.paths
        },
        call_ensures(ConflictScan::screen, (scan, &facts, &held), screened) ==> {
            &&& screened is Ok <==> {
                &&& scan.run.stop is None
                &&& forall|k: int|
                    0 <= k < scan.run.relatives@.len() ==> is_matchable(
                        (#[trigger] scan.run.relatives@[k])@,
                        facts@[k],
                    )
                &&& forall|k: int|
                    0 <= k < scan.snapshot.reservations@.len() ==> is_checked(
                        #[trigger] scan.snapshot.reservations@[k],
                        held@[k],
                        scan.snapshot.caller_agent_id,
                    )
            }
        },
{
    if call_ensures(
        ConflictCheck::read_snapshot,
        (check, DbOutcome::Done(snapshot), &machine),
        read,
    ) {
        whole_snapshot_is_checked(read, check, snapshot, machine);
    }
    if call_ensures(ConflictScan::screen, (scan, &facts, &held), screened) {
        let at = check_goes_on_where_all_is_known(screened, scan, facts@, held@);
        if at.0 < scan.run.relatives@.len() {
            assert(!is_matchable(scan.run.relatives@[at.0]@, facts@[at.0]));
        }
        if at.1 < scan.snapshot.reservations@.len() {
            assert(!is_checked(
                scan.snapshot.reservations@[at.1],
                held@[at.1],
                scan.snapshot.caller_agent_id,
            ));
        }
    }
}

/// What a check goes on with are the distinct paths, and the reservations of all but the
/// caller, in order. The result gives the positions of either.
pub proof fn check_leaves_out_only_the_caller(
    scan: ConflictScan,
    facts: Vec<PatternFacts>,
    held: Vec<PatternFacts>,
    matching: ConflictMatch,
) -> (at: (Seq<int>, Seq<int>))
    requires
        call_ensures(
            ConflictScan::screen,
            (scan, &facts, &held),
            Ok::<ConflictMatch, McpError>(matching),
        ),
    ensures
        at.0.len() == matching.paths@.len(),
        is_rising(at.0),
        forall|i: int|
            #![trigger at.0[i]]
            0 <= i < at.0.len() ==> 0 <= at.0[i] < scan.run.relatives@.len()
                && matching.paths@[i]@ == scan.run.relatives@[at.0[i]]@,
        forall|k: int|
            0 <= k < scan.run.relatives@.len() ==> (at.0.contains(k) <==> #[trigger] is_first(
                texts(scan.run.relatives@),
                k,
            )),
        at.1.len() == matching.holders@.len(),
        is_rising(at.1),
        forall|i: int|
            #![trigger at.1[i]]
            0 <= i < at.1.len() ==> 0 <= at.1[i] < scan.snapshot.reservations@.len()
                && matching.holders@[i] == scan.snapshot.reservations@[at.1[i]],
        forall|k: int|
            #![trigger scan.snapshot.reservations@[k]]
            0 <= k < scan.snapshot.reservations@.len() ==> (at.1.contains(k)
                <==> scan.snapshot.caller_agent_id is None || scan.snapshot.caller_agent_id->0
                != scan.snapshot.reservations@[k].agent_id),
{
    let both = check_goes_on_where_all_is_known(
        Ok::<ConflictMatch, McpError>(matching),
        scan,
        facts@,
        held@,
    );
    let list = texts(scan.run.relatives@);
    let first = distinct_texts_come_first(list);
    let other = only_the_caller_is_left_out(
        scan.snapshot.reservations@,
        scan.snapshot.caller_agent_id,
    );
    assert(texts(matching.paths@).len() == matching.paths@.len());
    assert forall|i: int|
        #![trigger first[i]]
        0 <= i < first.len() implies 0 <= first[i] < scan.run.relatives@.len()
        && matching.paths@[i]@ == scan.run.relatives@[first[i]]@ by {
        assert(texts(matching.paths@)[i] == matching.paths@[i]@);
        assert(list[first[i]] == scan.run.relatives@[first[i]]@);
    }
    (first, other)
}

/// Every path of a check is answered for: it is clear just where no reservation overlaps
/// it, and else in conflict. The result gives the positions of either.
pub proof fn check_answers_for_every_path(
    matching: ConflictMatch,
    overlaps: Vec<Vec<bool>>,
    r: ReservationConflictCheckResponse,
) -> (at: (Seq<int>, Seq<int>))
    requires
        answers_match(overlaps@, matching.paths@, matching.holders@),
        matching.holders@.len() <= usize::MAX,
        call_ensures(ConflictMatch::answer, (matching, &overlaps), r),
    ensures
        splits(
            at,
            r.conflicts@,
            texts(r.clear_paths@),
            matching.paths@,
            overlaps@,
            matching.paths@.len() as int,
        ),
        r.conflict_free <==> forall|i: int|
            0 <= i < matching.paths@.len() ==> how_many((#[trigger] overlaps@[i])@) == 0,
        r.checked_paths == matching.paths@.len(),
        r.read_only,
{
    let at = every_path_is_answered_for(r, matching, overlaps@);
    let n = matching.paths@.len() as int;
    if r.conflicts@.len() > 0 {
        let i = at.0[0];
        assert(0 <= i < n && how_many(overlaps@[i]@) > 0);
    } else {
        assert forall|i: int| 0 <= i < n implies how_many((#[trigger] overlaps@[i])@) == 0 by {
            assert(at.0.contains(i) || at.1.contains(i));
            let j = choose|j: int| 0 <= j < at.1.len() && at.1[j] == i;
            assert(how_many(overlaps@[at.1[j]]@) == 0);
        }
    }
    at
}

/// A forced release goes on just with a reservation of the project that was not released
/// before.
pub proof fn forced_release_needs_an_open_reservation(
    request: ForceRequest,
    project: ProjectRow,
    actor: AgentRow,
    rows: Vec<FileReservationRow>,
    inactivity: u64,
    grace: u64,
    r: Result<ForceNext, McpError>,
)
    requires
        call_ensures(
            ForceRequest::with_reservation,
            (request, project, actor, DbOutcome::Done(rows), inactivity, grace),
            r,
        ),
    ensures
        ({
            let last = rows@[rows@.len() - 1];
            let found = rows@.len() > 0 && (project.id == Some(last.project_id) || project.id
                is None && last.project_id == 0);
            &&& r is Ok <==> found
            &&& r is Ok && r->Ok_0 is FindHolder <==> found && last.released_ts is None
            &&& r is Ok && r->Ok_0 is FindHolder ==> r->Ok_0->FindHolder_0.reservation == last
                && r->Ok_0->FindHolder_0.request == request
        }),
{
    reservation_is_found_in_its_project(
        r,
        request,
        project,
        actor,
        DbOutcome::Done(rows),
        inactivity,
        grace,
    );
}

/// A forced release is done just where the row with its id says when it was released; it
/// then has one record to write, and a message just where the holder is to be told. The
/// result is the position of the row.
pub proof fn forced_release_is_read_back(
    waiting: ForceReadBack,
    rows: Vec<FileReservationRow>,
    r: Result<ForceReleased, McpError>,
) -> (at: int)
    requires
        call_ensures(ForceReadBack::read_back, (waiting, DbOutcome::Done(rows)), r),
    ensures
        0 <= at <= rows@.len(),
        forall|k: int|
            0 <= k < at ==> (#[trigger] rows@[k]).id != Some(
                waiting.call.case.request.file_reservation_id,
            ),
        r is Ok <==> at < rows@.len() && rows@[at].released_ts is Some,
        r matches Ok(done) ==> {
            &&& Some(done.released_ts) == rows@[at].released_ts
            &&& done.released == waiting.released
            &&& done.call == waiting.call
            &&& done.write is Some
            &&& done.notification is Some <==> waiting.call.case.request.notify
                && waiting.call.holder is Some && waiting.call.holder->0.name@
                != waiting.call.case.request.agent_name@
        },
{
    let at = release_is_recorded(r, waiting, rows);
    if let Ok(done) = r {
        holder_is_notified(done.notification, waiting.call);
    }
    at
}

/// The answer to a forced release is the JSON of all that is known of it, and says that
/// the holder was notified just where a message was due and created.
pub proof fn forced_release_answers_all(
    done: ForceReleased,
    created: Option<DbOutcome<MessageRow>>,
    notified: bool,
    r: String,
)
    requires
        call_ensures(ForceReleased::notified, (&done, &created), notified),
        call_ensures(ForceReleased::answer, (&done, &created), r),
    ensures
        notified <==> done.notification is Some && created is Some && created->0 is Done,
        exists|tree: JsonTree|
            {
                &&& r@ == #[trigger] json_encoding(tree)
                &&& tree is Object
                &&& tree->Object_0["released"@] == JsonTree::Int(done.released as int)
                &&& tree->Object_0["released_at"@] == JsonTree::Text(done.released_ts.iso@)
                &&& tree->Object_0["reservation"@]->Object_0["notified"@] == JsonTree::Bool(
                    notified,
                )
                &&& tree->Object_0["reservation"@]->Object_0["id"@] == JsonTree::Int(
                    done.call.case.request.file_reservation_id as int,
                )
            },
{
    notified_means_created(done, created);
    forced_answer_says_it_all(done, notified);
    assert(r@ == json_encoding(crate::force::forced_tree(done, notified)));
}

/// What is read from a log are the releases in it that no marker ends, in order, line by
/// line. The result gives their lines.
pub proof fn log_is_read_line_by_line(log: &str, r: Vec<QueuedReleaseIntent>) -> (at: Seq<int>)
    requires
        call_ensures(read_queued_release_intents, (log,), r),
    ensures
        at.len() == r@.len(),
        is_rising(at),
        forall|i: int|
            #![trigger at[i]]
            0 <= i < at.len() ==> {
                let entries = crate::intent::log_entries(log@);
                &&& 0 <= at[i] < entries.len()
                &&& entries[at[i]] is Queued
                &&& entries[at[i]]->Queued_0.intent_id == r@[i].intent_id@
                &&& entries[at[i]]->Queued_0.project_key == r@[i].project_key@
                &&& entries[at[i]]->Queued_0.agent_name == r@[i].agent_name@
            },
        forall|k: int|
            0 <= k < crate::intent::log_entries(log@).len() ==> (at.contains(k)
                <==> #[trigger] is_still_open(crate::intent::log_entries(log@), k)),
{
    let entries = crate::intent::log_entries(log@);
    every_line_counts(log@);
    read_releases_are_faithful(r@);
    let at = every_open_release_is_asked_for(entries);
    assert forall|i: int|
        #![trigger at[i]]
        0 <= i < at.len() implies {
        &&& 0 <= at[i] < entries.len()
        &&& entries[at[i]] is Queued
        &&& entries[at[i]]->Queued_0.intent_id == r@[i].intent_id@
        &&& entries[at[i]]->Queued_0.project_key == r@[i].project_key@
        &&& entries[at[i]]->Queued_0.agent_name == r@[i].agent_name@
    } by {
        assert(crate::intent::open_entries(entries)[i] == entries[at[i]]);
        assert(crate::intent::queued_entries(r@)[i] == entries[at[i]]);
    }
    at
}

/// The record of a queued release says who asked for it, where it ended and why.
pub proof fn queued_release_is_recorded(queued: QueuedRelease, created_ts: i64, r: ReleaseIntent)
    requires
        call_ensures(QueuedRelease::intent, (&queued, created_ts), r),
    ensures
        ({
            let record = json_tree(r.record)->Object_0;
            &&& record["project_key"@] == JsonTree::Text(queued.request.project_key@)
            &&& record["agent_name"@] == JsonTree::Text(queued.request.agent_name@)
            &&& record["created_ts"@] == JsonTree::Int(created_ts as int)
            &&& record["content_sha256"@] == JsonTree::Text(r.content_sha256@)
            &&& record["intent_id"@] == JsonTree::Text(r.intent_id@)
            &&& record["failure"@]->Object_0["error_detail"@] == JsonTree::Text(queued.detail@)
            &&& queued.request.paths is None ==> record["paths"@] == JsonTree::Null
            &&& queued.request.file_reservation_ids is None
                ==> record["file_reservation_ids"@] == JsonTree::Null
        }),
{
    queued_record_says_it_all(
        r,
        queued.request.project_key@,
        queued.request.agent_name@,
        crate::intent::optional_texts(queued.request.paths),
        crate::intent::optional_ids(queued.request.file_reservation_ids),
        crate::release::stage_text(queued.stage),
        queued.detail@,
        created_ts,
    );
}

/// A release that was done replays all that a log still asks for, from the start; without
/// a log, nothing. It then takes one after the other.
pub proof fn log_is_replayed_from_the_start(
    done: ReleaseDone,
    log: &str,
    r: ReleaseReplay,
    none: ReleaseReplay,
    next: ReplayNext,
)
    ensures
        call_ensures(ReleaseDone::with_log, (done, Some(log)), r) ==> {
            &&& r.done == done
            &&& r.at == 0
            &&& r.queue@.len() == crate::intent::open_entries(
                crate::intent::log_entries(log@),
            ).len()
        },
        call_ensures(ReleaseDone::with_log, (done, None), none) ==> none.done == done
            && none.at == 0 && none.queue@.len() == 0,
        call_ensures(ReleaseReplay::next, (r,), next) ==> {
            &&& next is Reconcile <==> r.at >= r.queue@.len()
            &&& next is Run <==> r.at < r.queue@.len() && r.queue@[r.at as int].kind@
                == "release_file_reservations_intent"@
        },
{
    if call_ensures(ReleaseDone::with_log, (done, Some(log)), r) {
        read_releases_are_faithful(r.queue@);
    }
    if call_ensures(ReleaseReplay::next, (r,), next) {
        queue_is_replayed_in_turn(next, r);
    }
}

/// A write may be repeated just where each of its records is that of a released
/// reservation; and an artifact diverges just where a value of it is another one.
pub proof fn archive_is_told_apart(
    op: WriteOp,
    terminal: bool,
    view: ArchiveReservationView,
    row: FileReservationRow,
    agent: &str,
    other: bool,
)
    ensures
        call_ensures(reservation_op_is_terminal_release, (&op,), terminal) ==> (terminal <==> {
            &&& op matches WriteOp::FileReservation { reservations, .. }
            &&& reservations@.len() > 0
            &&& forall|i: int|
                0 <= i < reservations@.len() ==> {
                    let record = json_tree(#[trigger] reservations@[i]);
                    &&& record is Object
                    &&& record->Object_0.contains_key("released_ts"@)
                    &&& record->Object_0["released_ts"@] != JsonTree::Null
                }
        }),
        call_ensures(active_archive_artifact_diverges, (&view, &row, agent), other) ==> (other
            <==> {
            ||| trimmed(view.agent_name@) != trimmed(agent@)
            ||| view.path_pattern is Some && trimmed(view.path_pattern->0@) != trimmed(
                row.path_pattern@,
            )
            ||| view.exclusive is Some && view.exclusive->0 != (row.exclusive != 0)
            ||| view.expires_ts is Some && view.expires_ts->0 != row.expires_ts.micros
            ||| (view.released_ts is Some && view.released_ts->0 > 0) != (row.released_ts is Some
                && row.released_ts->0.micros > 0)
        }),
{
    only_releases_may_be_queued(op);
    divergence_is_a_different_value(view, row, agent@);
}

/// The guard is installed in the repository that a request names, where guards are on
/// and its path is absolute; where they are off, nothing is installed. It counts as
/// installed where its plugin is there or the hook has its name.
pub proof fn guard_is_installed_where_asked(
    enabled: bool,
    input: &str,
    machine: Machine,
    path: Result<String, McpError>,
    r: Result<GuardInstall, McpError>,
    files: Option<GuardFiles>,
    installed: bool,
)
    ensures
        call_ensures(normalize_repo_path, (input, &machine), path) ==> {
            &&& path is Ok <==> expanded(input@, machine).len() > 0 && absolute_on(
                expanded(input@, machine),
                machine,
            )
            &&& path matches Ok(taken) ==> taken@ == expanded(input@, machine)
        },
        call_ensures(install_precommit_guard, (enabled, input, &machine), r) ==> {
            &&& !enabled <==> r is Ok && r->Ok_0 is Answer
            &&& r is Ok && r->Ok_0 is Install <==> enabled && expanded(input@, machine).len() > 0
                && absolute_on(expanded(input@, machine), machine)
            &&& r is Ok && r->Ok_0 is Install ==> r->Ok_0->Install_0.path@ == expanded(
                input@,
                machine,
            )
        },
        call_ensures(guard_is_installed, (&files,), installed) ==> (installed <==> files is Some
            && (files->0.plugin_exists || files->0.hook_text is Some && occurs_in(
            "mcp-agent-mail"@,
            files->0.hook_text->0@,
        ))),
{
    if call_ensures(normalize_repo_path, (input, &machine), path) {
        repository_is_at_its_path(path, input@, machine);
    }
    if call_ensures(install_precommit_guard, (enabled, input, &machine), r) {
        match r {
            Ok(GuardInstall::Install(repo)) => {
                repository_is_at_its_path(Ok(repo.path), input@, machine);
            },
            Ok(GuardInstall::Answer(_)) => {},
            Err(error) => {
                repository_is_at_its_path(Err(error), input@, machine);
            },
        }
    }
    if let Some(found) = files {
        guard_is_told_by_plugin_or_hook(found);
    }
}

/// A repository that is not there, or where the guard could not be installed or removed,
/// ends the call with the reason.
pub proof fn guard_ends_with_the_reason(
    repo: GuardRepo,
    exists: bool,
    found: Result<GuardRepo, McpError>,
    result: Result<(), String>,
    installed: Result<GuardRepo, McpError>,
    was_installed: bool,
    removed: Result<String, McpError>,
)
    ensures
        call_ensures(GuardRepo::found, (repo, exists), found) ==> {
            &&& found is Ok <==> exists
            &&& found matches Ok(next) ==> next == repo
            &&& found matches Err(error) ==> error.code == McpErrorCode::InvalidParams
                && error.message@ == "Repository path does not exist: "@ + repo.path@
        },
        call_ensures(GuardRepo::installed, (repo, result), installed) ==> {
            &&& installed is Ok <==> result is Ok
            &&& installed matches Ok(next) ==> next == repo
            &&& installed matches Err(error) ==> error.code == McpErrorCode::InternalError
                && error.message@ == "Failed to install guard: "@ + result->Err_0@
        },
        call_ensures(GuardRepo::answer_uninstall, (&repo, was_installed, result), removed) ==> {
            &&& removed is Ok <==> result is Ok
            &&& removed matches Ok(text) ==> exists|tree: JsonTree|
                text@ == #[trigger] json_encoding(tree) && tree is Object
                    && tree->Object_0["removed"@] == JsonTree::Bool(was_installed)
            &&& removed matches Err(error) ==> error.code == McpErrorCode::InternalError
                && error.message@ == "Failed to uninstall guard: "@ + result->Err_0@
        },
{
    if let Ok(text) = removed {
        let tree = crate::guard::removed_tree(was_installed);
        assert(json_encoding(tree) == json_encoding(tree));
        assert(tree->Object_0["removed"@] == JsonTree::Bool(was_installed));
    }
}

/// An installation is answered with where the hook is; the removal takes the repository
/// that a request names.
pub proof fn guard_answers_where_the_hook_is(
    repo: GuardRepo,
    hooks: Result<String, String>,
    machine: Machine,
    r: Result<String, McpError>,
    input: &str,
    removal: Result<GuardRepo, McpError>,
)
    ensures
        call_ensures(GuardRepo::answer_install, (&repo, hooks, &machine), r) ==> {
            &&& r is Ok <==> hooks is Ok
            &&& r matches Ok(text) ==> exists|tree: JsonTree|
                text@ == #[trigger] json_encoding(tree) && tree is Object
                    && tree->Object_0["hook"@] == JsonTree::Text(
                    joined_on(hooks->Ok_0@, "pre-commit"@, machine),
                )
            &&& r matches Err(error) ==> error.code == McpErrorCode::InternalError
                && error.message@ == "Failed to resolve hooks dir: "@ + hooks->Err_0@
        },
        call_ensures(uninstall_precommit_guard, (input, &machine), removal) ==> {
            &&& removal is Ok <==> expanded(input@, machine).len() > 0 && absolute_on(
                expanded(input@, machine),
                machine,
            )
            &&& removal matches Ok(found) ==> found.path@ == expanded(input@, machine)
        },
{
    if let Ok(dir) = hooks {
        let path = joined_on(dir@, "pre-commit"@, machine);
        let tree = crate::guard::hook_tree(path);
        assert(json_encoding(tree) == json_encoding(tree));
        guard_answers_say_it_all(path, true);
    }
    if call_ensures(uninstall_precommit_guard, (input, &machine), removal) {
        match removal {
            Ok(found) => repository_is_at_its_path(Ok(found.path), input@, machine),
            Err(error) => repository_is_at_its_path(Err(error), input@, machine),
        }
    }
}

} // verus!
