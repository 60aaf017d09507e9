//! What becomes of a step whose database call did not succeed: it ends with the error of
//! that call, and nothing is answered in its place.

use crate::acquire::{
    is_active_verdict, is_created_step, is_named_step, AcquireAgent, AcquireConflicts,
    AcquireCreated, AcquireGrant, AcquireHeal, AcquireNext,
};
use crate::conflict::{is_scan_verdict, ConflictCheck, ConflictScan, ReservationConflictSnapshot};
use crate::errors::is_acquire_failure;
use crate::force::{
    is_case_verdict, is_released_verdict, ForceNext, ForceReadBack, ForceReleased, ForceRequest,
};
use crate::laws::errors::{acquire_outcome_follows_the_database, outcome_carries_its_error};
use crate::machine::Machine;
use crate::model::{AgentRow, DbErrorKind, DbOutcome, FileReservationRow, McpError, ProjectRow};
use vstd::prelude::*;

verus! {

/// The error that a database call which did not succeed reports.
pub open spec fn reported_error<T>(out: DbOutcome<T>) -> Option<McpError> {
    match out {
        DbOutcome::Done(_) => None,
        DbOutcome::Failed(failure) => Some(failure.error),
        DbOutcome::Cancelled { error, .. } => Some(error),
        DbOutcome::Panicked { error, .. } => Some(error),
    }
}

/// A request whose conflicts cannot be named ends with the error of the database.
pub proof fn unnamed_conflicts_end_the_request(
    r: Result<AcquireNext, McpError>,
    waiting: AcquireConflicts,
    out: DbOutcome<Vec<AgentRow>>,
)
    requires
        is_named_step(r, waiting, out),
    ensures
        r is Ok <==> out is Done,
        r matches Err(error) ==> Some(error) == reported_error(out),
{
    outcome_carries_its_error(out);
}

/// A forced release ends with the error of the database where its reservation cannot be
/// looked for, or cannot be read back.
pub proof fn unread_reservations_end_the_forced_release(
    found: Result<ForceNext, McpError>,
    request: ForceRequest,
    project: ProjectRow,
    actor: AgentRow,
    inactivity: u64,
    grace: u64,
    done: Result<ForceReleased, McpError>,
    waiting: ForceReadBack,
    out: DbOutcome<Vec<FileReservationRow>>,
)
    requires
        out !is Done,
    ensures
        is_case_verdict(found, request, project, actor, out, inactivity, grace) ==> (
        found matches Err(error) && Some(error) == reported_error(out)),
        is_released_verdict(done, waiting, out) ==> (done matches Err(error) && Some(error)
            == reported_error(out)),
{
    outcome_carries_its_error(out);
}

/// Whether `error` is what a request for `paths` reports of a database call that did not
/// succeed: its error, and where the database failed, with what that means for the
/// paths.
pub open spec fn fails_with<T>(
    error: McpError,
    out: DbOutcome<T>,
    paths: Seq<String>,
    operation: Seq<char>,
) -> bool {
    match out {
        DbOutcome::Done(_) => false,
        DbOutcome::Failed(failure) => {
            &&& error.code == failure.error.code
            &&& error.message == failure.error.message
            &&& is_acquire_failure(error, paths, operation, failure)
        },
        DbOutcome::Cancelled { error: known, .. } => error == known,
        DbOutcome::Panicked { error: known, .. } => error == known,
    }
}

/// A conflict check without a snapshot ends with the error of the database, about all
/// its paths.
pub proof fn unread_snapshot_ends_the_check(
    r: Result<ConflictScan, McpError>,
    check: ConflictCheck,
    out: DbOutcome<ReservationConflictSnapshot>,
    machine: Machine,
)
    requires
        is_scan_verdict(r, check, out, machine),
        out !is Done,
    ensures
        r matches Err(error) && fails_with(
            error,
            out,
            check.paths@,
            "check_file_reservation_conflicts"@,
        ),
{
    acquire_outcome_follows_the_database::<ReservationConflictSnapshot>(
        Err(r->Err_0),
        out,
        check.paths@,
        "check_file_reservation_conflicts"@,
    );
}

/// A request ends with the error of the database, about all its paths, where the active
/// reservations cannot be read, and where its own cannot be created, unless the database
/// is busy.
pub proof fn unread_reservations_end_the_request(
    read: Result<AcquireHeal, McpError>,
    waiting: AcquireAgent,
    agent: AgentRow,
    created: Result<AcquireCreated, McpError>,
    granting: AcquireGrant,
    out: DbOutcome<Vec<FileReservationRow>>,
)
    requires
        out !is Done,
    ensures
        is_active_verdict(read, waiting, agent, out) ==> (read matches Err(error) && fails_with(
            error,
            out,
            waiting.request.paths@,
            "file_reservation_paths"@,
        )),
        is_created_step(created, granting, out) && !(out is Failed && out->Failed_0.kind
            == DbErrorKind::ResourceBusy) ==> (created matches Err(error) && fails_with(
            error,
            out,
            granting.request.paths@,
            "file_reservation_paths"@,
        )),
{
    if is_active_verdict(read, waiting, agent, out) {
        acquire_outcome_follows_the_database::<Vec<FileReservationRow>>(
            Err(read->Err_0),
            out,
            waiting.request.paths@,
            "file_reservation_paths"@,
        );
    }
    if is_created_step(created, granting, out) && created is Err {
        acquire_outcome_follows_the_database::<Vec<FileReservationRow>>(
            Err(created->Err_0),
            out,
            granting.request.paths@,
            "file_reservation_paths"@,
        );
    }
}

} // verus!
