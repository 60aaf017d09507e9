//! The renewal of reservations.

use crate::archive::{
    active_artifacts, active_records, archive_write, id_or_zero, is_released, row_id,
    writes_any_records, ArchiveWrite,
};
use crate::arith::{saturated, saturating_difference, saturating_micros};
use crate::errors::{db_outcome_to_mcp_result, outcome_error};
use crate::filter::{
    answers_filter, collect_previous_expiries, expiries_are_of_picked_ids, is_normalized_filter,
    is_relative_run, normalize_filter_paths, pick_ids, picked_expiries, picked_ids,
    picked_ids_are_held, relative_filter_paths, run_patterns, RelativePaths,
};
use crate::machine::Machine;
use crate::model::{
    canonical_name, name_or, AgentRow, DbOutcome, FileReservationRow, McpError, ProjectRow,
    RenewalResult, RenewedReservation,
};
use crate::patterns::PatternFacts;
use crate::release::{answer_count, count_for_answer};
use std::collections::HashMap;
use vstd::prelude::*;

verus! {

/// A renewal that waits for its project.
#[derive(Debug, Clone)]
pub struct RenewRequest {
    pub project_key: String,
    pub agent_name: String,
    pub extend: i64,
    pub paths: Option<Vec<String>>,
    pub file_reservation_ids: Option<Vec<i64>>,
}

/// By how many seconds reservations are extended: half an hour, or what is asked
/// for, but no less than a minute and no more than a year.
pub open spec fn extension_seconds(asked: Option<i64>) -> i64 {
    match asked {
        None => 1800,
        Some(t) => if t < 60 {
            60
        } else if t > 31_536_000 {
            31_536_000
        } else {
            t
        },
    }
}

/// Takes a request to renew reservations. `canonical` is the canonical form of
/// the agent's name, where there is one.
pub fn renew_file_reservations(
    project_key: String,
    agent_name: String,
    canonical: Option<String>,
    extend_seconds: Option<i64>,
    paths: Option<Vec<String>>,
    file_reservation_ids: Option<Vec<i64>>,
) -> (r: RenewRequest)
    ensures
        r == (RenewRequest {
            project_key,
            agent_name: name_or(canonical, agent_name),
            extend: extension_seconds(extend_seconds),
            paths,
            file_reservation_ids,
        }),
{
    let extend: i64 = match extend_seconds {
        None => 1800,
        Some(t) => if t < 60 {
            60
        } else if t > 31_536_000 {
            31_536_000
        } else {
            t
        },
    };
    RenewRequest {
        project_key,
        agent_name: canonical_name(canonical, agent_name),
        extend,
        paths,
        file_reservation_ids,
    }
}

/// A renewal whose project is known. It waits for what the pattern engine says of
/// the paths of `run`.
#[derive(Debug, Clone)]
pub struct RenewPaths {
    pub request: RenewRequest,
    pub project: ProjectRow,
    pub run: Option<RelativePaths>,
}

impl RenewRequest {
    /// Takes the project.
    pub fn with_project(self, project: ProjectRow, machine: &Machine) -> (r: RenewPaths)
        ensures
            r.request == self,
            r.project == project,
            match (r.run, self.paths) {
                (Some(run), Some(list)) => is_relative_run(
                    run,
                    project.human_key@,
                    list@,
                    *machine,
                ),
                (None, None) => true,
                _ => false,
            },
    {
        let run = relative_filter_paths(project.human_key.as_str(), &self.paths, machine);
        RenewPaths { request: self, project, run }
    }
}

/// A renewal whose paths are usable. It waits for its agent, and then for the
/// active reservations of the project.
#[derive(Debug, Clone)]
pub struct RenewAgent {
    pub request: RenewRequest,
    pub project: ProjectRow,
    pub paths: Option<Vec<String>>,
}

impl RenewPaths {
    /// Takes what the pattern engine says of the paths, one by one.
    pub fn judge(self, facts: &Vec<PatternFacts>) -> (r: Result<RenewAgent, McpError>)
        requires
            facts@.len() == run_patterns(self.run).len(),
        ensures
            match r {
                Ok(next) => {
                    &&& next.request == self.request
                    &&& next.project == self.project
                    &&& is_normalized_filter(Ok(next.paths), self.run, facts@)
                },
                Err(error) => is_normalized_filter(Err(error), self.run, facts@),
            },
    {
        match normalize_filter_paths(self.run, facts) {
            Ok(paths) => Ok(RenewAgent { request: self.request, project: self.project, paths }),
            Err(error) => Err(error),
        }
    }
}

/// A renewal that waits for the pattern engine to say, of each of `rows` and each
/// of `paths`, whether their patterns overlap.
#[derive(Debug, Clone)]
pub struct RenewMatch {
    pub request: RenewRequest,
    pub project: ProjectRow,
    pub agent: AgentRow,
    pub paths: Option<Vec<String>>,
    pub rows: Vec<FileReservationRow>,
}

impl RenewAgent {
    /// Takes the agent and the active reservations of the project.
    pub fn with_rows(self, agent: AgentRow, out: DbOutcome<Vec<FileReservationRow>>) -> (r: Result<
        RenewMatch,
        McpError,
    >)
        ensures
            match out {
                DbOutcome::Done(rows) => r == Ok::<RenewMatch, McpError>(
                    RenewMatch {
                        request: self.request,
                        project: self.project,
                        agent,
                        paths: self.paths,
                        rows,
                    },
                ),
                _ => r == Err::<RenewMatch, McpError>(outcome_error(out)),
            },
    {
        match db_outcome_to_mcp_result(out) {
            Ok(rows) => Ok(
                RenewMatch {
                    request: self.request,
                    project: self.project,
                    agent,
                    paths: self.paths,
                    rows,
                },
            ),
            Err(error) => Err(error),
        }
    }
}

/// A renewal that waits for the database to renew the agent's reservations with
/// these ids.
#[derive(Debug, Clone)]
pub struct RenewCall {
    pub request: RenewRequest,
    pub project: ProjectRow,
    pub agent: AgentRow,
    pub ids: Vec<i64>,
    pub previous: HashMap<i64, i64>,
}

fn distinct_ids(ids: &Vec<i64>) -> (r: Vec<i64>)
    ensures
        r@.no_duplicates(),
        forall|id: i64| r@.contains(id) <==> ids@.contains(id),
{
    let mut out: Vec<i64> = Vec::new();
    let mut i: usize = 0;
    while i < ids.len()
        invariant
            i <= ids.len(),
            out@.no_duplicates(),
            forall|id: i64| out@.contains(id) <==> ids@.take(i as int).contains(id),
        decreases ids.len() - i,
    {
        let id: i64 = ids[i];
        let mut known = false;
        let mut k: usize = 0;
        while k < out.len()
            invariant
                k <= out.len(),
                known == out@.take(k as int).contains(id),
            decreases out.len() - k,
        {
            proof {
                assert(out@.take(k + 1) =~= out@.take(k as int).push(out@[k as int]));
                assert forall|x: i64| out@.take(k + 1).contains(x) <==> out@.take(
                    k as int,
                ).contains(x) || x == out@[k as int] by {
                    push_contains(out@.take(k as int), out@[k as int], x);
                }
            }
            if out[k] == id {
                known = true;
            }
            k = k + 1;
        }
        let ghost had = out@;
        proof {
            assert(out@.take(out.len() as int) =~= out@);
            assert(ids@.take(i + 1) =~= ids@.take(i as int).push(id));
        }
        if !known {
            out.push(id);
        }
        proof {
            assert forall|x: i64| out@.contains(x) <==> ids@.take(i + 1).contains(x) by {
                push_contains(ids@.take(i as int), id, x);
                push_contains(had, id, x);
            }
        }
        i = i + 1;
    }
    proof {
        assert(ids@.take(ids.len() as int) =~= ids@);
    }
    out
}

proof fn push_contains(list: Seq<i64>, item: i64, x: i64)
    ensures
        list.push(item).contains(x) <==> list.contains(x) || x == item,
{
    let more = list.push(item);
    if more.contains(x) {
        let n = choose|n: int| 0 <= n < more.len() && more[n] == x;
        if n < list.len() {
            assert(list[n] == x);
        }
    }
    if list.contains(x) {
        let n = choose|n: int| 0 <= n < list.len() && list[n] == x;
        assert(more[n] == x);
    }
    assert(more[list.len() as int] == item);
}

impl RenewMatch {
    /// Picks what is renewed, and remembers when it expired. `overlaps` says of
    /// each row and each filter path whether they overlap. Each id is named once;
    /// their order says nothing.
    pub fn pick(self, overlaps: &Vec<Vec<bool>>) -> (r: RenewCall)
        requires
            answers_filter(overlaps@, self.rows@, self.paths),
        ensures
            r.request == self.request,
            r.project == self.project,
            r.agent == self.agent,
            r.previous@ == picked_expiries(
                self.rows@,
                id_or_zero(self.agent.id),
                self.paths,
                self.request.file_reservation_ids,
                overlaps@,
            ),
            r.ids@.no_duplicates(),
            forall|id: i64| r.ids@.contains(id) <==> r.previous@.contains_key(id),
    {
        let agent_id = row_id(self.agent.id);
        let previous = collect_previous_expiries(
            &self.rows,
            agent_id,
            &self.paths,
            &self.request.file_reservation_ids,
            overlaps,
        );
        let picked = pick_ids(
            &self.rows,
            agent_id,
            &self.paths,
            &self.request.file_reservation_ids,
            overlaps,
        );
        let ids = distinct_ids(&picked);
        proof {
            expiries_are_of_picked_ids(
                self.rows@,
                agent_id,
                self.paths,
                self.request.file_reservation_ids,
                overlaps@,
            );
            assert forall|id: i64| ids@.contains(id) <==> previous@.contains_key(id) by {
                assert(ids@.contains(id) <==> picked@.contains(id));
            }
        }
        RenewCall { request: self.request, project: self.project, agent: self.agent, ids, previous }
    }
}

/// When a renewed reservation expired before: as it was found, or else the
/// extension before it expires now.
pub open spec fn old_expiry(row: FileReservationRow, previous: Map<i64, i64>, extend: i64) -> i64 {
    if row.id is Some && previous.contains_key(row.id->0) {
        previous[row.id->0]
    } else {
        saturated(row.expires_ts.micros - saturated(extend * 1_000_000))
    }
}

/// A renewal that was done. It waits for the texts of the times `old_expiries`.
#[derive(Debug, Clone)]
pub struct RenewDone {
    pub rows: Vec<FileReservationRow>,
    pub old_expiries: Vec<i64>,
    pub write: Option<ArchiveWrite>,
}

/// Whether `done` is the renewal of `rows`.
pub open spec fn is_renewal_of(
    done: RenewDone,
    call: RenewCall,
    rows: Vec<FileReservationRow>,
) -> bool {
    &&& done.rows == rows
    &&& done.old_expiries@ == rows@.map_values(
        |row: FileReservationRow| old_expiry(row, call.previous@, call.request.extend),
    )
    &&& writes_any_records(
        done.write,
        call.project.slug@,
        active_records(call.project.human_key@, call.agent.name@, rows@),
        "reservation renewal archive write project="@ + call.project.slug@,
    )
}

impl RenewCall {
    /// Takes the rows that the database renewed.
    pub fn renewed(self, out: DbOutcome<Vec<FileReservationRow>>) -> (r: Result<RenewDone, McpError>)
        ensures
            match out {
                DbOutcome::Done(rows) => r matches Ok(done) && is_renewal_of(done, self, rows),
                _ => r == Err::<RenewDone, McpError>(outcome_error(out)),
            },
    {
        broadcast use vstd::std_specs::hash::group_hash_axioms;

        let rows = match db_outcome_to_mcp_result(out) {
            Ok(rows) => rows,
            Err(error) => return Err(error),
        };
        let records = active_artifacts(
            self.project.human_key.as_str(),
            self.agent.name.as_str(),
            &rows,
        );
        let write = archive_write(
            &self.project,
            records,
            "reservation renewal archive write project=",
        );
        let extension: i64 = saturating_micros(self.request.extend);
        let mut old_expiries: Vec<i64> = Vec::new();
        let mut i: usize = 0;
        while i < rows.len()
            invariant
                i <= rows.len(),
                old_expiries.len() == i,
                extension == saturated(self.request.extend * 1_000_000),
                forall|k: int|
                    0 <= k < i ==> #[trigger] old_expiries@[k] == old_expiry(
                        rows@[k],
                        self.previous@,
                        self.request.extend,
                    ),
            decreases rows.len() - i,
        {
            let row = &rows[i];
            let known: Option<i64> = match row.id {
                Some(id) => match self.previous.get(&id) {
                    Some(expiry) => Some(*expiry),
                    None => None,
                },
                None => None,
            };
            let old: i64 = match known {
                Some(expiry) => expiry,
                None => saturating_difference(row.expires_ts.micros, extension),
            };
            old_expiries.push(old);
            i = i + 1;
        }
        proof {
            assert(old_expiries@ =~= rows@.map_values(
                |row: FileReservationRow| old_expiry(row, self.previous@, self.request.extend),
            ));
        }
        Ok(RenewDone { rows, old_expiries, write })
    }
}

/// Whether a renewed reservation is answered as this.
pub open spec fn is_renewed(renewed: RenewedReservation, row: FileReservationRow, old: String) -> bool {
    &&& renewed.id == id_or_zero(row.id)
    &&& renewed.path_pattern@ == row.path_pattern@
    &&& renewed.old_expires_ts@ == old@
    &&& renewed.new_expires_ts@ == row.expires_ts.iso@
}

impl RenewDone {
    /// Answers the renewal. `old_texts` are the texts of the times
    /// `old_expiries`, one by one.
    pub fn answer(self, old_texts: &Vec<String>) -> (r: RenewalResult)
        requires
            old_texts@.len() == self.rows@.len(),
        ensures
            r.renewed == answer_count(self.rows@.len() as int),
            r.file_reservations@.len() == self.rows@.len(),
            forall|i: int|
                #![trigger r.file_reservations@[i]]
                0 <= i < self.rows@.len() ==> is_renewed(
                    r.file_reservations@[i],
                    self.rows@[i],
                    old_texts@[i],
                ),
    {
        let mut out: Vec<RenewedReservation> = Vec::new();
        let mut i: usize = 0;
        while i < self.rows.len()
            invariant
                i <= self.rows.len(),
                old_texts@.len() == self.rows@.len(),
                out.len() == i,
                forall|k: int|
                    #![trigger out@[k]]
                    0 <= k < i ==> is_renewed(out@[k], self.rows@[k], old_texts@[k]),
            decreases self.rows.len() - i,
        {
            let row = &self.rows[i];
            out.push(
                RenewedReservation {
                    id: row_id(row.id),
                    path_pattern: row.path_pattern.clone(),
                    old_expires_ts: old_texts[i].clone(),
                    new_expires_ts: row.expires_ts.iso.clone(),
                },
            );
            i = i + 1;
        }
        RenewalResult { renewed: count_for_answer(out.len()), file_reservations: out }
    }
}

/// Each reservation that is renewed is one that the agent holds and that was not
/// released, whatever the filters say.
pub proof fn renewed_ids_are_held(
    call: RenewCall,
    rows: Seq<FileReservationRow>,
    paths: Option<Vec<String>>,
    overlaps: Seq<Vec<bool>>,
    id: i64,
)
    requires
        call.previous@ == picked_expiries(
            rows,
            id_or_zero(call.agent.id),
            paths,
            call.request.file_reservation_ids,
            overlaps,
        ),
        call.ids@.contains(id) <==> call.previous@.contains_key(id),
        call.ids@.contains(id),
    ensures
        exists|k: int|
            #![trigger rows[k]]
            {
                &&& 0 <= k < rows.len()
                &&& rows[k].id == Some(id)
                &&& rows[k].agent_id == id_or_zero(call.agent.id)
                &&& !is_released(rows[k])
            },
{
    let agent_id = id_or_zero(call.agent.id);
    let ids = call.request.file_reservation_ids;
    expiries_are_of_picked_ids(rows, agent_id, paths, ids, overlaps);
    picked_ids_are_held(rows, agent_id, paths, ids, overlaps);
    assert(picked_ids(rows, agent_id, paths, ids, overlaps).contains(id));
}

/// An extension is at least a minute and at most a year.
pub proof fn extension_is_bounded(asked: Option<i64>)
    ensures
        60 <= extension_seconds(asked) <= 31_536_000,
        asked matches Some(t) ==> (60 <= t <= 31_536_000 ==> extension_seconds(asked) == t),
{
}

} // verus!
