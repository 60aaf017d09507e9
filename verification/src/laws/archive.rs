//! The archive: what is written for a reservation, when, and what is queued.

use crate::acquire::{is_healed_step, AcquireHealNext, AcquireHealed, AcquireMatch};
use crate::archive::{
    active_heals, active_record, active_records, diverges, ids_of, is_active_heal, is_release_heal,
    is_release_record, is_terminal_release, needs_active_heal, needs_release_heal, release_heals,
    released_record, released_records, writes_any_records, ActiveHeal, ArchiveWrite, WriteOp,
};
use crate::json::{json_tree, json_trees, JsonTree};
use crate::laws::acquire::is_rising;
use crate::model::{
    names_of, AgentRow, ArchiveReservationView, DbOutcome, FileReservationRow, ProjectRow,
};
use crate::release::{is_release_healed_step, ReleaseHeal, ReleaseHealNext, ReleaseHealed};
use crate::text::trimmed;
use vstd::prelude::*;

verus! {

/// A write is due just where there are records, and then it writes all of them, in order,
/// to the archive of the project.
pub proof fn records_are_written(
    write: Option<ArchiveWrite>,
    slug: Seq<char>,
    records: Seq<JsonTree>,
    context: Seq<char>,
)
    requires
        writes_any_records(write, slug, records, context),
    ensures
        write is Some <==> records.len() > 0,
        write matches Some(due) ==> {
            &&& due.context@ == context
            &&& due.op is FileReservation
            &&& due.op->project_slug@ == slug
            &&& due.op->reservations@.len() == records.len()
            &&& forall|i: int|
                #![trigger due.op->reservations@[i]]
                #![trigger records[i]]
                0 <= i < records.len() ==> json_tree(due.op->reservations@[i]) == records[i]
        },
{
    if let Some(due) = write {
        let values = due.op->reservations@;
        assert(json_trees(values).len() == values.len());
        assert forall|i: int|
            #![trigger values[i]]
            #![trigger records[i]]
            0 <= i < records.len() implies json_tree(values[i]) == records[i] by {
            assert(json_trees(values)[i] == json_tree(values[i]));
        }
    }
}

/// Whether `members` are those of the record of a reservation, but for its release.
pub open spec fn tells_reservation(
    members: Map<Seq<char>, JsonTree>,
    human_key: Seq<char>,
    agent: Seq<char>,
    row: FileReservationRow,
) -> bool {
    &&& row.id matches Some(id) ==> members["id"@] == JsonTree::Int(id as int)
    &&& row.id is None ==> members["id"@] == JsonTree::Int(0)
    &&& members["project"@] == JsonTree::Text(human_key)
    &&& members["agent"@] == JsonTree::Text(agent)
    &&& members["path_pattern"@] == JsonTree::Text(row.path_pattern@)
    &&& members["exclusive"@] == JsonTree::Bool(row.exclusive != 0)
    &&& members["reason"@] == JsonTree::Text(row.reason@)
    &&& members["created_ts"@] == JsonTree::Text(row.created_ts.iso@)
    &&& members["expires_ts"@] == JsonTree::Text(row.expires_ts.iso@)
}

/// The record of a reservation says all that the database says of it, and names its
/// holder; that of a released one also says when it was released, and nothing more.
pub proof fn records_say_it_all(human_key: Seq<char>, agent: Seq<char>, row: FileReservationRow)
    ensures
        active_record(human_key, agent, row) is Object,
        active_record(human_key, agent, row)->Object_0.dom() == set![
            "id"@, "project"@, "agent"@, "path_pattern"@, "exclusive"@, "reason"@, "created_ts"@,
            "expires_ts"@,
        ],
        tells_reservation(active_record(human_key, agent, row)->Object_0, human_key, agent, row),
        released_record(human_key, agent, row) is Object,
        released_record(human_key, agent, row)->Object_0.dom() == set![
            "id"@, "project"@, "agent"@, "path_pattern"@, "exclusive"@, "reason"@, "created_ts"@,
            "expires_ts"@, "released_ts"@,
        ],
        tells_reservation(released_record(human_key, agent, row)->Object_0, human_key, agent, row),
        row.released_ts matches Some(ts) ==> released_record(
            human_key,
            agent,
            row,
        )->Object_0["released_ts"@] == JsonTree::Text(ts.iso@),
        row.released_ts is None ==> released_record(
            human_key,
            agent,
            row,
        )->Object_0["released_ts"@] == JsonTree::Null,
{
    reveal_strlit("id");
    reveal_strlit("project");
    reveal_strlit("agent");
    reveal_strlit("path_pattern");
    reveal_strlit("exclusive");
    reveal_strlit("reason");
    reveal_strlit("created_ts");
    reveal_strlit("expires_ts");
    reveal_strlit("released_ts");
    assert("id"@.len() == 2 && "project"@.len() == 7 && "agent"@.len() == 5);
    assert("path_pattern"@.len() == 12 && "exclusive"@.len() == 9 && "reason"@.len() == 6);
    assert("created_ts"@.len() == 10 && "expires_ts"@.len() == 10 && "released_ts"@.len() == 11);
    assert("created_ts"@[0] == 'c' && "expires_ts"@[0] == 'e');
    assert(active_record(human_key, agent, row)->Object_0.dom() =~= set![
        "id"@, "project"@, "agent"@, "path_pattern"@, "exclusive"@, "reason"@, "created_ts"@,
        "expires_ts"@,
    ]);
    assert(released_record(human_key, agent, row)->Object_0.dom() =~= set![
        "id"@, "project"@, "agent"@, "path_pattern"@, "exclusive"@, "reason"@, "created_ts"@,
        "expires_ts"@, "released_ts"@,
    ]);
}

/// The records of what an agent was granted, renewed or released are those of all the
/// rows, in order.
pub proof fn records_are_of_all_rows(
    human_key: Seq<char>,
    agent: Seq<char>,
    rows: Seq<FileReservationRow>,
)
    ensures
        active_records(human_key, agent, rows).len() == rows.len(),
        released_records(human_key, agent, rows).len() == rows.len(),
        forall|i: int|
            #![trigger active_records(human_key, agent, rows)[i]]
            0 <= i < rows.len() ==> active_records(human_key, agent, rows)[i] == active_record(
                human_key,
                agent,
                rows[i],
            ),
        forall|i: int|
            #![trigger released_records(human_key, agent, rows)[i]]
            0 <= i < rows.len() ==> released_records(human_key, agent, rows)[i]
                == released_record(human_key, agent, rows[i]),
{
}

/// A write may be queued just where it has records and each of them says, other than with
/// `null`, when its reservation was released: one record that does not is enough to stop
/// it.
pub proof fn only_releases_may_be_queued(op: WriteOp)
    ensures
        op is Other ==> !is_terminal_release(op),
        op matches WriteOp::FileReservation { reservations, .. } ==> {
            &&& reservations@.len() == 0 ==> !is_terminal_release(op)
            &&& reservations@.len() > 0 ==> (is_terminal_release(op) <==> forall|i: int|
                0 <= i < reservations@.len() ==> {
                    let record = json_tree(#[trigger] reservations@[i]);
                    &&& record is Object
                    &&& record->Object_0.contains_key("released_ts"@)
                    &&& record->Object_0["released_ts"@] != JsonTree::Null
                })
        },
{
    if let WriteOp::FileReservation { reservations, .. } = op {
        if is_terminal_release(op) {
            assert forall|i: int| 0 <= i < reservations@.len() implies {
                let record = json_tree(#[trigger] reservations@[i]);
                &&& record is Object
                &&& record->Object_0.contains_key("released_ts"@)
                &&& record->Object_0["released_ts"@] != JsonTree::Null
            } by {
                assert(is_release_record(json_tree(reservations@[i])));
            }
        }
    }
}

/// An artifact says something else than the database where its holder, or a pattern, a
/// kind or an expiry that it gives, is another one, or where just one of the two says
/// that the reservation was released. What it leaves out says nothing.
pub proof fn divergence_is_a_different_value(
    view: ArchiveReservationView,
    row: FileReservationRow,
    agent: Seq<char>,
)
    ensures
        diverges(view, row, agent) <==> {
            ||| trimmed(view.agent_name@) != trimmed(agent)
            ||| view.path_pattern is Some && trimmed(view.path_pattern->0@) != trimmed(
                row.path_pattern@,
            )
            ||| view.exclusive is Some && view.exclusive->0 != (row.exclusive != 0)
            ||| view.expires_ts is Some && view.expires_ts->0 != row.expires_ts.micros
            ||| (view.released_ts is Some && view.released_ts->0 > 0) != (row.released_ts is Some
                && row.released_ts->0.micros > 0)
        },
{
}

/// An active reservation with an id and a holder with a name needs its artifact written
/// just where that is missing or diverges; a released one just where its artifact is
/// there and does not say that it was released.
pub proof fn artifacts_that_need_healing(
    row: FileReservationRow,
    names: Map<i64, String>,
    present: Map<i64, ArchiveReservationView>,
)
    ensures
        row.id is None || !names.contains_key(row.agent_id) ==> !needs_active_heal(
            row,
            names,
            present,
        ) && !needs_release_heal(row, names, present),
        row.id is Some && names.contains_key(row.agent_id) ==> {
            let id = row.id->0;
            &&& !present.contains_key(id) ==> needs_active_heal(row, names, present)
                && !needs_release_heal(row, names, present)
            &&& present.contains_key(id) ==> (needs_active_heal(row, names, present) <==> diverges(
                present[id],
                row,
                names[row.agent_id]@,
            ))
            &&& present.contains_key(id) ==> (needs_release_heal(row, names, present) <==> {
                &&& row.released_ts is Some && row.released_ts->0.micros > 0
                &&& !(present[id].released_ts is Some && present[id].released_ts->0 > 0)
            })
        },
{
}

/// The active reservations that need it are written, all of them in order and no other,
/// each with the name of its own holder. The result gives their positions.
pub proof fn active_heals_are_just_those(
    human_key: Seq<char>,
    rows: Seq<FileReservationRow>,
    names: Map<i64, String>,
    present: Map<i64, ArchiveReservationView>,
) -> (at: Seq<int>)
    ensures
        at.len() == active_heals(human_key, rows, names, present).len(),
        is_rising(at),
        forall|i: int|
            #![trigger at[i]]
            0 <= i < at.len() ==> {
                &&& 0 <= at[i] < rows.len()
                &&& needs_active_heal(rows[at[i]], names, present)
                &&& active_heals(human_key, rows, names, present)[i] == active_record(
                    human_key,
                    names[rows[at[i]].agent_id]@,
                    rows[at[i]],
                )
            },
        forall|k: int|
            0 <= k < rows.len() && needs_active_heal(#[trigger] rows[k], names, present)
                ==> at.contains(k),
    decreases rows.len(),
{
    if rows.len() == 0 {
        Seq::empty()
    } else {
        let head = rows.drop_last();
        let last = rows.len() - 1;
        let before = active_heals_are_just_those(human_key, head, names, present);
        let at = if needs_active_heal(rows[last], names, present) {
            before.push(last)
        } else {
            before
        };
        assert forall|k: int|
            0 <= k < rows.len() && needs_active_heal(#[trigger] rows[k], names, present) implies
            at.contains(k) by {
            if k < last {
                assert(head[k] == rows[k]);
                let i = choose|i: int| 0 <= i < before.len() && before[i] == k;
                assert(at[i] == k);
            } else {
                assert(at[at.len() - 1] == k);
            }
        }
        assert forall|i: int|
            #![trigger at[i]]
            0 <= i < at.len() implies {
            &&& 0 <= at[i] < rows.len()
            &&& needs_active_heal(rows[at[i]], names, present)
            &&& active_heals(human_key, rows, names, present)[i] == active_record(
                human_key,
                names[rows[at[i]].agent_id]@,
                rows[at[i]],
            )
        } by {
            if i < before.len() {
                assert(at[i] == before[i]);
                assert(rows[before[i]] == head[before[i]]);
            }
        }
        at
    }
}

/// The released reservations that need it are written, all of them in order and no other,
/// each with the name of its own holder. The result gives their positions.
pub proof fn release_heals_are_just_those(
    human_key: Seq<char>,
    rows: Seq<FileReservationRow>,
    names: Map<i64, String>,
    present: Map<i64, ArchiveReservationView>,
) -> (at: Seq<int>)
    ensures
        at.len() == release_heals(human_key, rows, names, present).len(),
        is_rising(at),
        forall|i: int|
            #![trigger at[i]]
            0 <= i < at.len() ==> {
                &&& 0 <= at[i] < rows.len()
                &&& needs_release_heal(rows[at[i]], names, present)
                &&& release_heals(human_key, rows, names, present)[i] == released_record(
                    human_key,
                    names[rows[at[i]].agent_id]@,
                    rows[at[i]],
                )
            },
        forall|k: int|
            0 <= k < rows.len() && needs_release_heal(#[trigger] rows[k], names, present)
                ==> at.contains(k),
    decreases rows.len(),
{
    if rows.len() == 0 {
        Seq::empty()
    } else {
        let head = rows.drop_last();
        let last = rows.len() - 1;
        let before = release_heals_are_just_those(human_key, head, names, present);
        let at = if needs_release_heal(rows[last], names, present) {
            before.push(last)
        } else {
            before
        };
        assert forall|k: int|
            0 <= k < rows.len() && needs_release_heal(#[trigger] rows[k], names, present) implies
            at.contains(k) by {
            if k < last {
                assert(head[k] == rows[k]);
                let i = choose|i: int| 0 <= i < before.len() && before[i] == k;
                assert(at[i] == k);
            } else {
                assert(at[at.len() - 1] == k);
            }
        }
        assert forall|i: int|
            #![trigger at[i]]
            0 <= i < at.len() implies {
            &&& 0 <= at[i] < rows.len()
            &&& needs_release_heal(rows[at[i]], names, present)
            &&& release_heals(human_key, rows, names, present)[i] == released_record(
                human_key,
                names[rows[at[i]].agent_id]@,
                rows[at[i]],
            )
        } by {
            if i < before.len() {
                assert(at[i] == before[i]);
                assert(rows[before[i]] == head[before[i]]);
            }
        }
        at
    }
}

/// The artifacts that are read are those of all rows with an id, in order. The result
/// gives their positions.
pub proof fn artifacts_are_read_of_all_rows(rows: Seq<FileReservationRow>) -> (at: Seq<int>)
    ensures
        at.len() == ids_of(rows).len(),
        is_rising(at),
        forall|i: int|
            #![trigger at[i]]
            0 <= i < at.len() ==> 0 <= at[i] < rows.len() && rows[at[i]].id == Some(
                ids_of(rows)[i],
            ),
        forall|k: int|
            0 <= k < rows.len() && (#[trigger] rows[k]).id is Some ==> at.contains(k),
    decreases rows.len(),
{
    if rows.len() == 0 {
        Seq::empty()
    } else {
        let head = rows.drop_last();
        let last = rows.len() - 1;
        let before = artifacts_are_read_of_all_rows(head);
        let at = if rows[last].id is Some {
            before.push(last)
        } else {
            before
        };
        assert forall|k: int| 0 <= k < rows.len() && (#[trigger] rows[k]).id is Some implies
            at.contains(k) by {
            if k < last {
                assert(head[k] == rows[k]);
                let i = choose|i: int| 0 <= i < before.len() && before[i] == k;
                assert(at[i] == k);
            } else {
                assert(at[at.len() - 1] == k);
            }
        }
        assert forall|i: int|
            #![trigger at[i]]
            0 <= i < at.len() implies 0 <= at[i] < rows.len() && rows[at[i]].id == Some(
            ids_of(rows)[i],
        ) by {
            if i < before.len() {
                assert(at[i] == before[i]);
                assert(rows[before[i]] == head[before[i]]);
            }
        }
        at
    }
}

/// Whether `write` writes the records of just those active reservations that need it.
pub open spec fn heals_active(
    write: Option<ArchiveWrite>,
    project: ProjectRow,
    rows: Seq<FileReservationRow>,
    names: Map<i64, String>,
    present: Map<i64, ArchiveReservationView>,
) -> bool {
    &&& write is Some <==> exists|k: int|
        0 <= k < rows.len() && needs_active_heal(#[trigger] rows[k], names, present)
    &&& write is Some ==> {
        &&& write->0.context@ == "reservation archive reconcile-on-read project="@ + project.slug@
        &&& write->0.op is FileReservation
        &&& write->0.op->project_slug@ == project.slug@
        &&& forall|k: int|
            0 <= k < rows.len() && needs_active_heal(#[trigger] rows[k], names, present)
                ==> json_trees(write->0.op->reservations@).contains(
                active_record(project.human_key@, names[rows[k].agent_id]@, rows[k]),
            )
        &&& forall|i: int|
            0 <= i < write->0.op->reservations@.len() ==> exists|k: int|
                0 <= k < rows.len() && needs_active_heal(#[trigger] rows[k], names, present)
                    && json_tree(#[trigger] write->0.op->reservations@[i]) == active_record(
                    project.human_key@,
                    names[rows[k].agent_id]@,
                    rows[k],
                )
    }
}

proof fn active_write_heals(
    write: Option<ArchiveWrite>,
    project: ProjectRow,
    rows: Seq<FileReservationRow>,
    names: Map<i64, String>,
    present: Map<i64, ArchiveReservationView>,
)
    requires
        writes_any_records(
            write,
            project.slug@,
            active_heals(project.human_key@, rows, names, present),
            "reservation archive reconcile-on-read project="@ + project.slug@,
        ),
    ensures
        heals_active(write, project, rows, names, present),
{
    let heals = active_heals(project.human_key@, rows, names, present);
    let at = active_heals_are_just_those(project.human_key@, rows, names, present);
    records_are_written(
        write,
        project.slug@,
        heals,
        "reservation archive reconcile-on-read project="@ + project.slug@,
    );
    if write is Some {
        assert(needs_active_heal(rows[at[0]], names, present));
        let values = write->0.op->reservations@;
        assert forall|k: int|
            0 <= k < rows.len() && needs_active_heal(#[trigger] rows[k], names, present) implies
            json_trees(values).contains(
            active_record(project.human_key@, names[rows[k].agent_id]@, rows[k]),
        ) by {
            let i = choose|i: int| 0 <= i < at.len() && at[i] == k;
            assert(json_trees(values)[i] == json_tree(values[i]));
            assert(json_tree(values[i]) == heals[i]);
        }
        assert forall|i: int| 0 <= i < values.len() implies exists|k: int|
            0 <= k < rows.len() && needs_active_heal(#[trigger] rows[k], names, present)
                && json_tree(#[trigger] values[i]) == active_record(
                project.human_key@,
                names[rows[k].agent_id]@,
                rows[k],
            ) by {
            assert(json_tree(values[i]) == heals[i]);
            let k = at[i];
            assert(needs_active_heal(rows[k], names, present));
        }
    } else {
        if exists|k: int|
            0 <= k < rows.len() && needs_active_heal(#[trigger] rows[k], names, present) {
            let k = choose|k: int|
                0 <= k < rows.len() && needs_active_heal(#[trigger] rows[k], names, present);
            assert(at.contains(k));
        }
    }
}

/// A request and a release bring the artifacts of the active reservations up to the
/// database: they write those that need it, and no other. Where the agents cannot be read
/// they go on without.
pub proof fn active_artifacts_are_reconciled(
    acquire: AcquireHealed,
    matching: AcquireMatch,
    release: ReleaseHealed,
    heal: ReleaseHeal,
    agents: DbOutcome<Vec<AgentRow>>,
    present: Map<i64, ArchiveReservationView>,
)
    ensures
        is_healed_step(acquire, matching, agents, present) ==> {
            &&& agents matches DbOutcome::Done(list) ==> {
                &&& heals_active(
                    acquire.write,
                    matching.project,
                    matching.active@,
                    names_of(list@),
                    present,
                )
                &&& acquire.next matches AcquireHealNext::Released(next) && next.matching
                    == matching && next.names@ == names_of(list@)
            }
            &&& agents !is Done ==> acquire.write is None && acquire.next
                == AcquireHealNext::Match(matching)
        },
        is_release_healed_step(release, heal, agents, present) ==> {
            &&& agents matches DbOutcome::Done(list) ==> {
                &&& heals_active(
                    release.write,
                    heal.done.project,
                    heal.active@,
                    names_of(list@),
                    present,
                )
                &&& release.next matches ReleaseHealNext::Released(next) && next.done == heal.done
                    && next.names@ == names_of(list@)
            }
            &&& agents !is Done ==> release.write is None && (
            release.next matches ReleaseHealNext::Answer(settled) && settled.released
                == heal.done.released)
        },
{
    if let DbOutcome::Done(list) = agents {
        if is_healed_step(acquire, matching, agents, present) {
            active_write_heals(
                acquire.write,
                matching.project,
                matching.active@,
                names_of(list@),
                present,
            );
        }
        if is_release_healed_step(release, heal, agents, present) {
            active_write_heals(
                release.write,
                heal.done.project,
                heal.active@,
                names_of(list@),
                present,
            );
        }
    }
}

/// What the reconciliation of the active reservations makes due is the write of those
/// that need it, and the names of the agents; without the agents, nothing.
pub proof fn active_heal_is_what_is_due(
    heal: ActiveHeal,
    project: ProjectRow,
    rows: Seq<FileReservationRow>,
    agents: DbOutcome<Vec<AgentRow>>,
    present: Map<i64, ArchiveReservationView>,
)
    requires
        is_active_heal(heal, project, rows, agents, present),
    ensures
        agents matches DbOutcome::Done(list) ==> {
            &&& heal.names is Some
            &&& heal.names->0@ == names_of(list@)
            &&& heals_active(heal.write, project, rows, names_of(list@), present)
        },
        agents !is Done ==> heal.names is None && heal.write is None,
{
    if let DbOutcome::Done(list) = agents {
        active_write_heals(heal.write, project, rows, names_of(list@), present);
    }
}

/// The artifacts of the released reservations are brought up to the database: those that
/// say that theirs is still held are written, and no other. Where the reservations cannot
/// be read, nothing is.
pub proof fn released_artifacts_are_reconciled(
    write: Option<ArchiveWrite>,
    project: ProjectRow,
    names: Map<i64, String>,
    out: DbOutcome<Vec<FileReservationRow>>,
    present: Map<i64, ArchiveReservationView>,
)
    requires
        is_release_heal(write, project, names, out, present),
    ensures
        out !is Done ==> write is None,
        out matches DbOutcome::Done(rows) ==> {
            &&& write is Some <==> exists|k: int|
                0 <= k < rows@.len() && needs_release_heal(#[trigger] rows@[k], names, present)
            &&& write is Some ==> {
                &&& write->0.context@
                    == "reservation archive released-row reconcile-on-read project="@
                    + project.slug@
                &&& write->0.op is FileReservation
                &&& write->0.op->project_slug@ == project.slug@
                &&& forall|k: int|
                    0 <= k < rows@.len() && needs_release_heal(#[trigger] rows@[k], names, present)
                        ==> json_trees(write->0.op->reservations@).contains(
                        released_record(project.human_key@, names[rows@[k].agent_id]@, rows@[k]),
                    )
                &&& forall|i: int|
                    0 <= i < write->0.op->reservations@.len() ==> exists|k: int|
                        0 <= k < rows@.len() && needs_release_heal(
                            #[trigger] rows@[k],
                            names,
                            present,
                        ) && json_tree(#[trigger] write->0.op->reservations@[i])
                            == released_record(
                            project.human_key@,
                            names[rows@[k].agent_id]@,
                            rows@[k],
                        )
            }
        },
{
    if let DbOutcome::Done(list) = out {
        let rows = list@;
        let context = "reservation archive released-row reconcile-on-read project="@
            + project.slug@;
        let heals = release_heals(project.human_key@, rows, names, present);
        let at = release_heals_are_just_those(project.human_key@, rows, names, present);
        records_are_written(write, project.slug@, heals, context);
        if write is Some {
            assert(needs_release_heal(rows[at[0]], names, present));
            let values = write->0.op->reservations@;
            assert forall|k: int|
                0 <= k < rows.len() && needs_release_heal(#[trigger] rows[k], names, present)
                implies json_trees(values).contains(
                released_record(project.human_key@, names[rows[k].agent_id]@, rows[k]),
            ) by {
                let i = choose|i: int| 0 <= i < at.len() && at[i] == k;
                assert(json_trees(values)[i] == json_tree(values[i]));
                assert(json_tree(values[i]) == heals[i]);
            }
            assert forall|i: int| 0 <= i < values.len() implies exists|k: int|
                0 <= k < rows.len() && needs_release_heal(#[trigger] rows[k], names, present)
                    && json_tree(#[trigger] values[i]) == released_record(
                    project.human_key@,
                    names[rows[k].agent_id]@,
                    rows[k],
                ) by {
                assert(json_tree(values[i]) == heals[i]);
                let k = at[i];
                assert(needs_release_heal(rows[k], names, present));
            }
        } else {
            if exists|k: int|
                0 <= k < rows.len() && needs_release_heal(#[trigger] rows[k], names, present) {
                let k = choose|k: int|
                    0 <= k < rows.len() && needs_release_heal(#[trigger] rows[k], names, present);
                assert(at.contains(k));
            }
        }
    }
}

} // verus!
