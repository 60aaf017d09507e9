//! The request for reservations, step by step: what it refuses, what it grants, and what
//! it reports after the database refused a grant.

use crate::acquire::{
    fresh_conflicts, holder_before, holder_placed, is_active_verdict, is_answer, is_created_step,
    is_named_step, is_plan_step, is_project_verdict, is_request_verdict, is_wanted_verdict,
    lease_seconds, named_blocking, named_blocking_is_complete, named_holder, pending_of,
    AcquireAgent, AcquireAnswer, AcquireCreated, AcquireGrant, AcquireHeal, AcquireMatch,
    AcquireNext, AcquirePaths, AcquireRequest,
};
use crate::archive::active_records;
use crate::errors::reason_tree;
use crate::filter::{is_relative_run, PathStop};
use crate::json::{json_tree, JsonTree};
use crate::laws::acquire::{
    every_wanted_path_is_decided, granting, is_free, is_in_the_way, is_name_of, is_rising,
    lists_just, naming_keeps_every_conflict, reported, withholding,
};
use crate::laws::archive::{
    records_are_of_all_rows, records_are_written, records_say_it_all, tells_reservation,
};
use crate::laws::conflict::{distinct_texts_come_first, is_first};
use crate::laws::errors::{error_data_says_it_all, lists_are_faithful, tool_error_says_it_all};
use crate::laws::filter::paths_are_used_where_all_can_be;
use crate::machine::{absolute_on, Machine};
use crate::model::{
    AgentRow, ConflictHolder, DbErrorKind, DbOutcome, FileReservationRow, HolderView, McpError,
    McpErrorCode, PendingConflictHolder, PendingReservationConflict, ProjectRow,
    ReservationConflict,
};
use crate::patterns::{invalidity, suspicion, PatternFacts};
use crate::text::{decimal, text_before, texts};
use vstd::prelude::*;

verus! {

/// A lease is what is asked for where that is from a minute to a year, the nearer bound
/// where it is not, and an hour where nothing is asked for. Who asks for more gets no
/// less.
pub proof fn lease_is_what_is_asked_for(asked: i64, more: i64)
    ensures
        60 <= asked <= 31_536_000 ==> lease_seconds(Some(asked)) == asked,
        asked <= 60 ==> lease_seconds(Some(asked)) == 60,
        asked >= 31_536_000 ==> lease_seconds(Some(asked)) == 31_536_000,
        lease_seconds(None) == 3600,
        asked <= more ==> lease_seconds(Some(asked)) <= lease_seconds(Some(more)),
{
}

/// The inner members of the data of a tool error.
pub open spec fn said(error: McpError) -> Map<Seq<char>, JsonTree> {
    json_tree(error.data->0)->Object_0["error"@]->Object_0
}

/// A request is taken just where it has a path, with all that it says; what it leaves
/// out is exclusive, without a reason.
pub proof fn request_keeps_what_it_says(
    r: Result<AcquireRequest, McpError>,
    project_key: String,
    agent_name: String,
    canonical: Option<String>,
    paths: Vec<String>,
    ttl_seconds: Option<i64>,
    exclusive: Option<bool>,
    reason: Option<String>,
)
    requires
        is_request_verdict(
            r,
            project_key,
            agent_name,
            canonical,
            paths,
            ttl_seconds,
            exclusive,
            reason,
        ),
    ensures
        r is Ok <==> paths@.len() > 0,
        r matches Ok(request) ==> {
            &&& request.project_key == project_key
            &&& canonical matches Some(known) ==> request.agent_name == known
            &&& canonical is None ==> request.agent_name == agent_name
            &&& request.paths == paths
            &&& ttl_seconds is None ==> request.ttl == 3600
            &&& ttl_seconds matches Some(t) ==> (60 <= t <= 31_536_000 ==> request.ttl == t)
            &&& exclusive matches Some(e) ==> request.exclusive == e
            &&& exclusive is None ==> request.exclusive
            &&& reason matches Some(text) ==> request.reason == text
            &&& reason is None ==> request.reason@.len() == 0
        },
        r matches Err(error) ==> {
            &&& error.code == McpErrorCode::ToolExecutionError
            &&& error.data is Some
            &&& said(error)["type"@] == JsonTree::Text("EMPTY_PATHS"@)
            &&& said(error)["recoverable"@] == JsonTree::Bool(true)
            &&& said(error)["data"@]->Object_0["provided"@] is List
            &&& said(error)["data"@]->Object_0["provided"@]->List_0.len() == 0
        },
{
    if let Err(error) = r {
        tool_error_says_it_all(
            error,
            "EMPTY_PATHS"@,
            "paths list cannot be empty. Provide at least one file path or glob pattern to reserve (e.g., ['src/api/*.py', 'config/settings.yaml'])."@,
            true,
            crate::acquire::provided_tree(paths@),
        );
        lists_are_faithful(texts(paths@), Seq::empty(), Seq::empty(), paths@);
    }
}

/// What is said against a path as it is written, if anything is.
pub open spec fn objection(
    path: String,
    facts: PatternFacts,
    machine: Machine,
) -> Option<Seq<char>> {
    suspicion(path@, facts.normalized@, absolute_on(path@, machine))
}

proof fn first_objection(
    paths: Seq<String>,
    facts: Seq<PatternFacts>,
    machine: Machine,
) -> (at: int)
    ensures
        0 <= at <= paths.len(),
        forall|k: int|
            0 <= k < at ==> objection(#[trigger] paths[k], facts[k], machine) is None,
        at < paths.len() ==> objection(paths[at], facts[at], machine) is Some
            && crate::acquire::first_suspicion(paths, facts, machine) == objection(
            paths[at],
            facts[at],
            machine,
        ),
        at == paths.len() ==> crate::acquire::first_suspicion(paths, facts, machine) is None,
    decreases paths.len(),
{
    if paths.len() == 0 {
        0
    } else {
        let head = paths.drop_last();
        let last = paths.len() - 1;
        let before = first_objection(head, facts, machine);
        assert forall|k: int| 0 <= k < before implies objection(
            #[trigger] paths[k],
            facts[k],
            machine,
        ) is None by {
            assert(head[k] == paths[k]);
        }
        if before < head.len() {
            before
        } else if objection(paths[last], facts[last], machine) is None {
            paths.len() as int
        } else {
            last
        }
    }
}

/// A request goes on with its project just where it has at most 200 paths and nothing is
/// said against any of them; else the error says how many there are, or what is said
/// against the first. The result is its position.
pub proof fn paths_are_weighed_in_order(
    r: Result<AcquirePaths, McpError>,
    request: AcquireRequest,
    project: ProjectRow,
    facts: Seq<PatternFacts>,
    machine: Machine,
) -> (at: int)
    requires
        is_project_verdict(r, request, project, facts, machine),
    ensures
        0 <= at <= request.paths@.len(),
        forall|k: int|
            0 <= k < at ==> objection(#[trigger] request.paths@[k], facts[k], machine) is None,
        at < request.paths@.len() ==> objection(request.paths@[at], facts[at], machine) is Some,
        r is Ok <==> request.paths@.len() <= 200 && at == request.paths@.len(),
        r matches Ok(next) ==> next.request == request && next.project == project
            && is_relative_run(next.run, project.human_key@, request.paths@, machine),
        r matches Err(error) ==> {
            &&& error.code == McpErrorCode::ToolExecutionError
            &&& error.data is Some
            &&& request.paths@.len() > 200 ==> {
                &&& said(error)["type"@] == JsonTree::Text("TOO_MANY_PATHS"@)
                &&& said(error)["recoverable"@] == JsonTree::Bool(true)
                &&& said(error)["data"@]->Object_0["count"@] == JsonTree::Int(
                    request.paths@.len() as int,
                )
                &&& said(error)["data"@]->Object_0["max"@] == JsonTree::Int(200)
                &&& error.message@ == "Maximum 200 paths per reservation call, got "@ + decimal(
                    request.paths@.len() as int,
                )
            }
            &&& request.paths@.len() <= 200 ==> {
                &&& said(error)["type"@] == JsonTree::Text("SUSPICIOUS_PATTERN"@)
                &&& said(error)["recoverable"@] == JsonTree::Bool(true)
                &&& said(error)["data"@]->Object_0["reason"@] == JsonTree::Text(
                    "suspicious_pattern"@,
                )
                &&& Some(error.message@) == objection(request.paths@[at], facts[at], machine)
            }
        },
{
    let at = first_objection(request.paths@, facts, machine);
    let n = request.paths@.len() as int;
    if let Err(error) = r {
        if n > 200 {
            tool_error_says_it_all(
                error,
                "TOO_MANY_PATHS"@,
                "Maximum 200 paths per reservation call, got "@ + decimal(n),
                true,
                crate::acquire::too_many_tree(n),
            );
            reveal_strlit("count");
            reveal_strlit("max");
            assert("count"@.len() == 5 && "max"@.len() == 3);
        } else {
            tool_error_says_it_all(
                error,
                "SUSPICIOUS_PATTERN"@,
                objection(request.paths@[at], facts[at], machine)->0,
                true,
                reason_tree("suspicious_pattern"@),
            );
            error_data_says_it_all("suspicious_pattern"@, Seq::empty());
        }
    }
    at
}

/// A request goes on with all its paths just where every one lies below the project and
/// is valid.
pub proof fn paths_are_all_wanted(
    r: Result<AcquireAgent, McpError>,
    paths: AcquirePaths,
    facts: Seq<PatternFacts>,
)
    requires
        is_wanted_verdict(r, paths, facts),
    ensures
        r is Ok <==> paths.run.stop is None && forall|k: int|
            0 <= k < paths.run.relatives@.len() ==> invalidity(
                (#[trigger] paths.run.relatives@[k])@,
                facts[k],
            ) is None,
        r matches Ok(next) ==> next.wanted == paths.run.relatives && next.request
            == paths.request && next.project == paths.project,
        r matches Err(error) ==> {
            &&& error.code == McpErrorCode::ToolExecutionError
            &&& error.data is Some
            &&& said(error)["type"@] == JsonTree::Text("INVALID_PATH"@)
            &&& paths.run.stop == Some(PathStop::ProjectRoot) && (forall|k: int|
                0 <= k < paths.run.relatives@.len() ==> invalidity(
                    (#[trigger] paths.run.relatives@[k])@,
                    facts[k],
                ) is None) ==> error.message@
                == "Cannot reserve the project root directory itself. Please use more specific patterns."@
        },
{
    let message = crate::acquire::reserve_root_message();
    match r {
        Ok(next) => paths_are_used_where_all_can_be(Ok(next.wanted), paths.run, facts, message),
        Err(error) => {
            let e = Err::<Vec<String>, McpError>(error);
            paths_are_used_where_all_can_be(e, paths.run, facts, message);
            let at = first_bad(paths.run.relatives@, facts);
            if at < paths.run.relatives@.len() {
                tool_error_says_it_all(
                    error,
                    "INVALID_PATH"@,
                    invalidity(paths.run.relatives@[at]@, facts[at])->0,
                    true,
                    JsonTree::Object(map!["reason"@ => JsonTree::Text("invalid_pattern"@)]),
                );
            } else if paths.run.stop == Some(PathStop::Outside) {
                tool_error_says_it_all(
                    error,
                    "INVALID_PATH"@,
                    "Path is outside the project root. File reservations must be within the project directory."@,
                    true,
                    JsonTree::Object(map!["reason"@ => JsonTree::Text("path_outside_project"@)]),
                );
            } else {
                tool_error_says_it_all(
                    error,
                    "INVALID_PATH"@,
                    message,
                    true,
                    JsonTree::Object(map!["reason"@ => JsonTree::Text("targets_project_root"@)]),
                );
            }
        },
    }
}

proof fn first_bad(patterns: Seq<String>, facts: Seq<PatternFacts>) -> (at: int)
    ensures
        0 <= at <= patterns.len(),
        forall|k: int| 0 <= k < at ==> invalidity((#[trigger] patterns[k])@, facts[k]) is None,
        at < patterns.len() ==> invalidity(patterns[at]@, facts[at]) is Some,
    decreases patterns.len(),
{
    if patterns.len() == 0 {
        0
    } else {
        let head = patterns.drop_last();
        let last = patterns.len() - 1;
        let before = first_bad(head, facts);
        assert forall|k: int| 0 <= k < before implies invalidity(
            (#[trigger] patterns[k])@,
            facts[k],
        ) is None by {
            assert(head[k] == patterns[k]);
        }
        if before < head.len() {
            before
        } else if invalidity(patterns[last]@, facts[last]) is None {
            patterns.len() as int
        } else {
            last
        }
    }
}

/// A request is matched against all active reservations, with every path that it wants
/// once, where it comes first. The result gives the positions of those paths.
pub proof fn every_path_is_wanted_once(
    r: Result<AcquireHeal, McpError>,
    waiting: AcquireAgent,
    agent: AgentRow,
    active: Vec<FileReservationRow>,
) -> (at: Seq<int>)
    requires
        is_active_verdict(r, waiting, agent, DbOutcome::Done(active)),
    ensures
        r is Ok,
        r->Ok_0.matching.request == waiting.request,
        r->Ok_0.matching.project == waiting.project,
        r->Ok_0.matching.agent == agent,
        r->Ok_0.matching.active == active,
        at.len() == r->Ok_0.matching.wanted@.len(),
        is_rising(at),
        forall|i: int|
            #![trigger at[i]]
            0 <= i < at.len() ==> 0 <= at[i] < waiting.wanted@.len()
                && r->Ok_0.matching.wanted@[i]@ == waiting.wanted@[at[i]]@,
        forall|k: int|
            0 <= k < waiting.wanted@.len() ==> (at.contains(k) <==> #[trigger] is_first(
                texts(waiting.wanted@),
                k,
            )),
{
    let list = texts(waiting.wanted@);
    let wanted = r->Ok_0.matching.wanted@;
    let at = distinct_texts_come_first(list);
    assert(texts(wanted).len() == wanted.len());
    assert forall|i: int|
        #![trigger at[i]]
        0 <= i < at.len() implies 0 <= at[i] < waiting.wanted@.len() && wanted[i]@
        == waiting.wanted@[at[i]]@ by {
        assert(texts(wanted)[i] == wanted[i]@);
        assert(list[at[i]] == waiting.wanted@[at[i]]@);
    }
    at
}

/// An answer grants every row that the database created, in order and as it is, and
/// writes all their records with the agent as their holder.
pub proof fn every_created_row_is_granted(
    answer: AcquireAnswer,
    project: ProjectRow,
    agent: AgentRow,
    rows: Seq<FileReservationRow>,
    conflicts: Seq<ReservationConflict>,
)
    requires
        is_answer(answer, project, agent, rows, conflicts),
    ensures
        answer.response.conflicts@ == conflicts,
        answer.response.granted@.len() == rows.len(),
        forall|i: int|
            #![trigger answer.response.granted@[i]]
            #![trigger rows[i]]
            0 <= i < rows.len() ==> {
                let granted = answer.response.granted@[i];
                &&& rows[i].id matches Some(id) ==> granted.id == id
                &&& rows[i].id is None ==> granted.id == 0
                &&& granted.path_pattern@ == rows[i].path_pattern@
                &&& granted.exclusive == (rows[i].exclusive != 0)
                &&& granted.reason@ == rows[i].reason@
                &&& granted.expires_ts@ == rows[i].expires_ts.iso@
            },
        answer.write is Some <==> rows.len() > 0,
        answer.write matches Some(write) ==> {
            &&& write.context@ == "reservation archive write project="@ + project.slug@
            &&& write.op is FileReservation
            &&& write.op->project_slug@ == project.slug@
            &&& write.op->reservations@.len() == rows.len()
            &&& forall|i: int|
                #![trigger write.op->reservations@[i]]
                0 <= i < rows.len() ==> {
                    let record = json_tree(write.op->reservations@[i]);
                    record is Object && tells_reservation(
                        record->Object_0,
                        project.human_key@,
                        agent.name@,
                        rows[i],
                    )
                }
        },
{
    let key = project.human_key@;
    let name = agent.name@;
    let records = active_records(key, name, rows);
    records_are_of_all_rows(key, name, rows);
    records_are_written(
        answer.write,
        project.slug@,
        records,
        "reservation archive write project="@ + project.slug@,
    );
    assert forall|i: int|
        #![trigger answer.response.granted@[i]]
        #![trigger rows[i]]
        0 <= i < rows.len() implies crate::acquire::is_granted(
        answer.response.granted@[i],
        rows[i],
    ) by {
        let granted = answer.response.granted@[i];
    }
    if let Some(write) = answer.write {
        assert forall|i: int|
            #![trigger write.op->reservations@[i]]
            0 <= i < rows.len() implies {
            let record = json_tree(write.op->reservations@[i]);
            record is Object && tells_reservation(record->Object_0, key, name, rows[i])
        } by {
            assert(records[i] == json_tree(write.op->reservations@[i]));
            records_say_it_all(key, name, rows[i]);
        }
    }
}

/// Reservations that were created are granted, beside the conflicts that were known; a
/// busy database has the request looked at again, unchanged; and every other failure
/// ends it.
pub proof fn creation_is_answered(
    r: Result<AcquireCreated, McpError>,
    waiting: AcquireGrant,
    out: DbOutcome<Vec<FileReservationRow>>,
)
    requires
        is_created_step(r, waiting, out),
    ensures
        out matches DbOutcome::Done(rows) ==> (r matches Ok(AcquireCreated::Answer(answer))
            && is_answer(
            answer,
            waiting.project,
            waiting.agent,
            rows@,
            waiting.conflicts@,
        )),
        out matches DbOutcome::Failed(failure) ==> {
            &&& failure.kind == DbErrorKind::ResourceBusy ==> r == Ok::<AcquireCreated, McpError>(
                AcquireCreated::Recheck(waiting),
            )
            &&& failure.kind != DbErrorKind::ResourceBusy ==> r is Err && r->Err_0.code
                == failure.error.code && r->Err_0.message == failure.error.message
        },
        out matches DbOutcome::Cancelled { error, .. } ==> r == Err::<AcquireCreated, McpError>(
            error,
        ),
        out matches DbOutcome::Panicked { error, .. } ==> r == Err::<AcquireCreated, McpError>(
            error,
        ),
{
    if out !is Done && r is Err {
        crate::laws::errors::acquire_outcome_follows_the_database::<Vec<FileReservationRow>>(
            Err(r->Err_0),
            out,
            waiting.request.paths@,
            "file_reservation_paths"@,
        );
    }
}

/// Whether `at` are the positions of the reservations that `holders` lists with their
/// names: those that overlap the path and are in the way, each once.
pub open spec fn names_just(
    at: Seq<int>,
    holders: Seq<HolderView>,
    active: Seq<FileReservationRow>,
    names: Map<i64, String>,
    me: i64,
    exclusive: bool,
    row: Seq<bool>,
) -> bool {
    &&& at.len() == holders.len()
    &&& at.no_duplicates()
    &&& forall|h: int|
        #![trigger at[h]]
        #![trigger holders[h]]
        0 <= h < at.len() ==> {
            &&& 0 <= at[h] < row.len()
            &&& row[at[h]]
            &&& is_in_the_way(active[at[h]], me, exclusive)
            &&& is_reported(holders[h], active[at[h]], names)
        }
    &&& forall|k: int|
        0 <= k < row.len() && #[trigger] row[k] && is_in_the_way(active[k], me, exclusive)
            ==> at.contains(k)
}

/// Whether holders are listed by name, and then by pattern.
pub open spec fn are_sorted_by_name(holders: Seq<HolderView>) -> bool {
    forall|i: int, j: int|
        #![trigger holders[i], holders[j]]
        0 <= i < j < holders.len() ==> {
            &&& !text_before(holders[j].agent, holders[i].agent)
            &&& holders[i].agent == holders[j].agent ==> !text_before(
                holders[j].path_pattern,
                holders[i].path_pattern,
            )
        }
}

proof fn holder_is_inserted(list: Seq<HolderView>, item: HolderView) -> (n: int)
    ensures
        0 <= n <= list.len(),
        holder_placed(list, item) == list.insert(n, item),
    decreases list.len(),
{
    let out = holder_placed(list, item);
    if list.len() > 0 && !holder_before(item, list[0]) {
        let n = holder_is_inserted(list.drop_first(), item);
        assert(out =~= list.insert(n + 1, item));
        n + 1
    } else {
        assert(out =~= list.insert(0, item));
        0
    }
}

proof fn position_is_inserted(before: Seq<int>, n: int, k: int)
    requires
        before.no_duplicates(),
        forall|i: int| 0 <= i < before.len() ==> #[trigger] before[i] < k,
        0 <= n <= before.len(),
    ensures
        before.insert(n, k).no_duplicates(),
        before.insert(n, k).contains(k),
        forall|x: int| before.contains(x) ==> #[trigger] before.insert(n, k).contains(x),
{
    let at = before.insert(n, k);
    assert(at[n] == k);
    assert forall|i: int, j: int|
        0 <= i < at.len() && 0 <= j < at.len() && i != j implies at[i] != at[j] by {
        let a = if i < n { i } else { i - 1 };
        let b = if j < n { j } else { j - 1 };
        if i != n {
            assert(at[i] == before[a]);
        }
        if j != n {
            assert(at[j] == before[b]);
        }
    }
    assert forall|x: int| before.contains(x) implies #[trigger] at.contains(x) by {
        let h = choose|h: int| 0 <= h < before.len() && before[h] == x;
        if h < n {
            assert(at[h] == x);
        } else {
            assert(at[h + 1] == x);
        }
    }
}

/// Whether `view` is how the holder of the reservation `held` is reported.
pub open spec fn is_reported(
    view: HolderView,
    held: FileReservationRow,
    names: Map<i64, String>,
) -> bool {
    &&& names.contains_key(held.agent_id) ==> view.agent == names[held.agent_id]@
    &&& !names.contains_key(held.agent_id) ==> view.agent == "agent_"@ + decimal(
        held.agent_id as int,
    )
    &&& view.path_pattern == held.path_pattern@
    &&& view.exclusive == (held.exclusive != 0)
    &&& view.expires_ts == held.expires_ts.iso@
}

proof fn named_positions(
    active: Seq<FileReservationRow>,
    names: Map<i64, String>,
    me: i64,
    exclusive: bool,
    row: Seq<bool>,
) -> (at: Seq<int>)
    ensures
        names_just(
            at,
            named_blocking(active, names, me, exclusive, row),
            active,
            names,
            me,
            exclusive,
            row,
        ),
    decreases row.len(),
{
    let holders = named_blocking(active, names, me, exclusive, row);
    if row.len() == 0 {
        Seq::empty()
    } else {
        let head = row.drop_last();
        let k = row.len() - 1;
        let before = named_positions(active, names, me, exclusive, head);
        let list = named_blocking(active, names, me, exclusive, head);
        if row[k] && is_in_the_way(active[k], me, exclusive) {
            let item = named_holder(names, pending_of(active[k]));
            let n = holder_is_inserted(list, item);
            let at = before.insert(n, k);
            assert(is_reported(item, active[k], names));
            assert(holders == list.insert(n, item));
            position_is_inserted(before, n, k);
            assert forall|h: int|
                #![trigger at[h]]
                #![trigger holders[h]]
                0 <= h < at.len() implies {
                &&& 0 <= at[h] < row.len()
                &&& row[at[h]]
                &&& is_in_the_way(active[at[h]], me, exclusive)
                &&& is_reported(holders[h], active[at[h]], names)
            } by {
                if h < n {
                    assert(at[h] == before[h] && holders[h] == list[h]);
                    assert(head[before[h]]);
                } else if h > n {
                    assert(at[h] == before[h - 1] && holders[h] == list[h - 1]);
                    assert(head[before[h - 1]]);
                }
            }
            assert forall|q: int|
                0 <= q < row.len() && #[trigger] row[q] && is_in_the_way(
                    active[q],
                    me,
                    exclusive,
                ) implies at.contains(q) by {
                if q < k {
                    assert(head[q]);
                    assert(before.contains(q));
                }
            }
            at
        } else {
            assert forall|q: int|
                0 <= q < row.len() && #[trigger] row[q] && is_in_the_way(
                    active[q],
                    me,
                    exclusive,
                ) implies before.contains(q) by {
                assert(head[q]);
            }
            assert forall|h: int| #![trigger before[h]] 0 <= h < before.len() implies row[before[h]]
                by {
                assert(head[before[h]]);
            }
            before
        }
    }
}

/// The holders that are reported for a path after the database refused it are those of
/// all reservations in its way, each once, by name and then by pattern. The result gives
/// their positions.
pub proof fn every_holder_in_the_way_is_named(
    active: Seq<FileReservationRow>,
    names: Map<i64, String>,
    me: i64,
    exclusive: bool,
    row: Seq<bool>,
) -> (at: Seq<int>)
    ensures
        names_just(
            at,
            named_blocking(active, names, me, exclusive, row),
            active,
            names,
            me,
            exclusive,
            row,
        ),
        are_sorted_by_name(named_blocking(active, names, me, exclusive, row)),
{
    let holders = named_blocking(active, names, me, exclusive, row);
    named_blocking_is_complete(active, names, me, exclusive, row);
    assert forall|i: int, j: int|
        #![trigger holders[i], holders[j]]
        0 <= i < j < holders.len() implies {
        &&& !text_before(holders[j].agent, holders[i].agent)
        &&& holders[i].agent == holders[j].agent ==> !text_before(
            holders[j].path_pattern,
            holders[i].path_pattern,
        )
    } by {
        assert(!holder_before(holders[j], holders[i]));
    }
    named_positions(active, names, me, exclusive, row)
}

/// Whether `holders` are those of all reservations in the way of a path, each once, by
/// name and then by pattern.
pub open spec fn names_all(
    holders: Seq<HolderView>,
    active: Seq<FileReservationRow>,
    names: Map<i64, String>,
    me: i64,
    exclusive: bool,
    row: Seq<bool>,
) -> bool {
    &&& are_sorted_by_name(holders)
    &&& exists|at: Seq<int>| names_just(at, holders, active, names, me, exclusive, row)
}

proof fn refused_path_names_all(
    active: Seq<FileReservationRow>,
    names: Map<i64, String>,
    me: i64,
    exclusive: bool,
    row: Seq<bool>,
)
    ensures
        names_all(
            named_blocking(active, names, me, exclusive, row),
            active,
            names,
            me,
            exclusive,
            row,
        ),
        named_blocking(active, names, me, exclusive, row).len() == 0 <==> is_free(
            active,
            me,
            exclusive,
            row,
        ),
{
    let holders = named_blocking(active, names, me, exclusive, row);
    let ks = every_holder_in_the_way_is_named(active, names, me, exclusive, row);
    if holders.len() > 0 {
        assert(row[ks[0]] && is_in_the_way(active[ks[0]], me, exclusive));
    } else {
        assert forall|k: int| 0 <= k < row.len() && #[trigger] row[k] implies !is_in_the_way(
            active[k],
            me,
            exclusive,
        ) by {
            if is_in_the_way(active[k], me, exclusive) {
                assert(ks.contains(k));
            }
        }
    }
}

proof fn pushed_position(before: Seq<int>, n: int, i: int)
    requires
        forall|j: int| 0 <= j < before.len() ==> #[trigger] before[j] < n,
    ensures
        before.push(n).contains(i) <==> before.contains(i) || i == n,
        !before.contains(n),
{
    let at = before.push(n);
    assert(at[before.len() as int] == n);
    if before.contains(i) {
        let j = choose|j: int| 0 <= j < before.len() && before[j] == i;
        assert(at[j] == i);
    }
    if at.contains(i) && i != n {
        let j = choose|j: int| 0 <= j < at.len() && at[j] == i;
        assert(before[j] == i);
    }
    if before.contains(n) {
        let j = choose|j: int| 0 <= j < before.len() && before[j] == n;
        assert(before[j] < n);
    }
}

/// After the database refused a grant, every path of it that a reservation now is in the
/// way of is reported, in order, with all its holders, and no other. The result gives
/// their positions.
pub proof fn every_refused_path_is_reported(
    grant: Seq<Seq<char>>,
    active: Seq<FileReservationRow>,
    names: Map<i64, String>,
    me: i64,
    exclusive: bool,
    overlaps: Seq<Vec<bool>>,
    n: int,
) -> (at: Seq<int>)
    requires
        0 <= n <= grant.len(),
    ensures
        at.len() == fresh_conflicts(grant, active, names, me, exclusive, overlaps, n).len(),
        is_rising(at),
        forall|j: int|
            #![trigger at[j]]
            0 <= j < at.len() ==> {
                let view = fresh_conflicts(grant, active, names, me, exclusive, overlaps, n)[j];
                &&& 0 <= at[j] < n
                &&& view.path == grant[at[j]]
                &&& names_all(view.holders, active, names, me, exclusive, overlaps[at[j]]@)
            },
        forall|i: int|
            #![trigger overlaps[i]]
            0 <= i < n ==> (at.contains(i) <==> !is_free(active, me, exclusive, overlaps[i]@)),
    decreases n,
{
    if n == 0 {
        Seq::empty()
    } else {
        let before = every_refused_path_is_reported(
            grant,
            active,
            names,
            me,
            exclusive,
            overlaps,
            n - 1,
        );
        let row = overlaps[n - 1]@;
        refused_path_names_all(active, names, me, exclusive, row);
        let at = if is_free(active, me, exclusive, row) {
            before
        } else {
            before.push(n - 1)
        };
        assert forall|i: int|
            #![trigger overlaps[i]]
            0 <= i < n implies (at.contains(i) <==> !is_free(
            active,
            me,
            exclusive,
            overlaps[i]@,
        )) by {
            pushed_position(before, n - 1, i);
        }
        at
    }
}

/// Every path that a request wants is granted or in the answer, in the order in which it
/// is wanted: it is reported just where a reservation of another agent is in its way,
/// with every one of those and the name of its agent. The result gives the positions of
/// the paths that are granted, and of those that are reported.
pub proof fn every_path_is_granted_or_reported(
    matched: AcquireNext,
    matching: AcquireMatch,
    overlaps: Seq<Vec<bool>>,
    me: i64,
    agents: Vec<AgentRow>,
    r: Result<AcquireNext, McpError>,
) -> (at: (Seq<int>, Seq<int>))
    requires
        is_plan_step(matched, matching, overlaps),
        matching.agent.id == Some(me) || matching.agent.id is None && me == 0,
        matched is NameHolders,
        is_named_step(r, matched->NameHolders_0, DbOutcome::Done(agents)),
    ensures
        r is Ok,
        at.0.len() == granting(r->Ok_0).len(),
        at.1.len() == reported(r->Ok_0).len(),
        is_rising(at.0),
        is_rising(at.1),
        forall|i: int|
            #![trigger matching.wanted@[i]]
            #![trigger overlaps[i]]
            0 <= i < matching.wanted@.len() ==> {
                let free = is_free(
                    matching.active@,
                    me,
                    matching.request.exclusive,
                    overlaps[i]@,
                );
                &&& at.0.contains(i) <==> free
                &&& at.1.contains(i) <==> !free
            },
        forall|g: int|
            #![trigger at.0[g]]
            0 <= g < at.0.len() ==> {
                &&& 0 <= at.0[g] < matching.wanted@.len()
                &&& granting(r->Ok_0)[g] == matching.wanted@[at.0[g]]@
            },
        forall|j: int|
            #![trigger at.1[j]]
            0 <= j < at.1.len() ==> {
                &&& 0 <= at.1[j] < matching.wanted@.len()
                &&& reported(r->Ok_0)[j].path@ == matching.wanted@[at.1[j]]@
                &&& exists|ks: Seq<int>|
                    reports_just(
                        ks,
                        reported(r->Ok_0)[j],
                        matching.active@,
                        agents@,
                        me,
                        matching.request.exclusive,
                        overlaps[at.1[j]]@,
                    )
            },
{
    let waiting = matched->NameHolders_0;
    let at = every_wanted_path_is_decided(matched, matching, overlaps, me);
    naming_keeps_every_conflict(r, waiting, agents);
    assert forall|j: int|
        #![trigger at.1[j]]
        0 <= j < at.1.len() implies {
        &&& 0 <= at.1[j] < matching.wanted@.len()
        &&& reported(r->Ok_0)[j].path@ == matching.wanted@[at.1[j]]@
        &&& exists|ks: Seq<int>|
            reports_just(
                ks,
                reported(r->Ok_0)[j],
                matching.active@,
                agents@,
                me,
                matching.request.exclusive,
                overlaps[at.1[j]]@,
            )
    } by {
        let pending = withholding(matched)[j];
        assert(pending == waiting.pending@[j]);
        let row = overlaps[at.1[j]]@;
        let exclusive = matching.request.exclusive;
        let conflict = reported(r->Ok_0)[j];
        let ks = choose|ks: Seq<int>|
            lists_just(ks, pending.holders@, matching.active@, me, exclusive, row);
        assert forall|h: int|
            #![trigger pending.holders@[h]]
            #![trigger conflict.holders@[h]]
            0 <= h < pending.holders@.len() implies is_named(
            conflict.holders@[h],
            pending.holders@[h],
            agents@,
        ) by {
            assert(waiting.pending@[j].holders@[h] == pending.holders@[h]);
        }
        named_holders_report(
            ks,
            pending,
            conflict,
            matching.active@,
            agents@,
            me,
            exclusive,
            row,
        );
    }
    at
}

/// Whether `named` is `holder` with the name of its agent.
pub open spec fn is_named(
    named: ConflictHolder,
    holder: PendingConflictHolder,
    agents: Seq<AgentRow>,
) -> bool {
    &&& is_name_of(named.agent@, agents, holder.agent_id)
    &&& named.path_pattern@ == holder.path_pattern@
    &&& named.exclusive == holder.exclusive
    &&& named.expires_ts@ == holder.expires_ts@
}

proof fn named_holders_report(
    ks: Seq<int>,
    pending: PendingReservationConflict,
    conflict: ReservationConflict,
    active: Seq<FileReservationRow>,
    agents: Seq<AgentRow>,
    me: i64,
    exclusive: bool,
    row: Seq<bool>,
)
    requires
        lists_just(ks, pending.holders@, active, me, exclusive, row),
        conflict.holders@.len() == pending.holders@.len(),
        forall|h: int|
            #![trigger pending.holders@[h]]
            #![trigger conflict.holders@[h]]
            0 <= h < pending.holders@.len() ==> is_named(
                conflict.holders@[h],
                pending.holders@[h],
                agents,
            ),
    ensures
        reports_just(ks, conflict, active, agents, me, exclusive, row),
{
    assert forall|h: int|
        #![trigger ks[h]]
        #![trigger conflict.holders@[h]]
        0 <= h < ks.len() implies {
        let held = active[ks[h]];
        &&& 0 <= ks[h] < row.len()
        &&& row[ks[h]]
        &&& is_in_the_way(held, me, exclusive)
        &&& is_name_of(conflict.holders@[h].agent@, agents, held.agent_id)
        &&& conflict.holders@[h].path_pattern@ == held.path_pattern@
        &&& conflict.holders@[h].exclusive == (held.exclusive != 0)
        &&& conflict.holders@[h].expires_ts@ == held.expires_ts.iso@
    } by {
        assert(is_named(conflict.holders@[h], pending.holders@[h], agents));
    }
}

/// Whether `at` are the positions of the reservations that `conflict` reports: those that
/// overlap its path and are in the way, each once and with the name of its agent.
pub open spec fn reports_just(
    at: Seq<int>,
    conflict: ReservationConflict,
    active: Seq<FileReservationRow>,
    agents: Seq<AgentRow>,
    me: i64,
    exclusive: bool,
    row: Seq<bool>,
) -> bool {
    &&& at.len() == conflict.holders@.len()
    &&& at.no_duplicates()
    &&& forall|h: int|
        #![trigger at[h]]
        #![trigger conflict.holders@[h]]
        0 <= h < at.len() ==> {
            let held = active[at[h]];
            &&& 0 <= at[h] < row.len()
            &&& row[at[h]]
            &&& is_in_the_way(held, me, exclusive)
            &&& is_name_of(conflict.holders@[h].agent@, agents, held.agent_id)
            &&& conflict.holders@[h].path_pattern@ == held.path_pattern@
            &&& conflict.holders@[h].exclusive == (held.exclusive != 0)
            &&& conflict.holders@[h].expires_ts@ == held.expires_ts.iso@
        }
    &&& forall|k: int|
        0 <= k < row.len() && #[trigger] row[k] && is_in_the_way(active[k], me, exclusive)
            ==> at.contains(k)
}

} // verus!
