//! The archive artifacts of reservations: what is written for a reservation,
//! when an artifact no longer says what the database says, and what becomes of
//! a write that failed.

use crate::json::{
    json_bool, json_get, json_int, json_is_null, json_null, json_object, json_text, json_tree,
    json_trees, tree_member, with, JsonTree,
};
use crate::model::{
    agent_names, names_of, AgentRow, ArchiveReservationView, DbOutcome, FileReservationRow,
    ProjectRow, Timestamp,
};
use crate::text::{same_text, trim, trimmed};
use serde_json::Value;
use std::collections::{BTreeMap, HashMap};
use vstd::prelude::*;

verus! {

/// A write to the archive.
#[derive(Debug, Clone)]
pub enum WriteOp {
    /// Write the artifact of each of `reservations`.
    FileReservation { project_slug: String, reservations: Vec<Value> },
    /// Any other write.
    Other,
}

/// A write to the archive that is due, and what it is for.
#[derive(Debug, Clone)]
pub struct ArchiveWrite {
    pub op: WriteOp,
    pub context: String,
}

/// How a direct write to the archive ended.
#[derive(Debug, Clone)]
pub enum DirectArchiveWrite {
    Written,
    SkippedDiskCritical,
    Failed(String),
}

/// Whether `record` says when its reservation was released.
pub open spec fn is_release_record(record: JsonTree) -> bool {
    match tree_member(record, "released_ts"@) {
        Some(value) => value != JsonTree::Null,
        None => false,
    }
}

/// Whether each record of a write is that of a released reservation. Such a
/// write can be repeated at any later time.
pub open spec fn is_terminal_release(op: WriteOp) -> bool {
    match op {
        WriteOp::FileReservation { reservations, .. } => {
            &&& reservations@.len() > 0
            &&& forall|i: int|
                0 <= i < reservations@.len() ==> is_release_record(
                    json_tree(#[trigger] reservations@[i]),
                )
        },
        WriteOp::Other => false,
    }
}

/// Whether each record of `op` is that of a released reservation.
pub fn reservation_op_is_terminal_release(op: &WriteOp) -> (r: bool)
    ensures
        r == is_terminal_release(*op),
{
    match op {
        WriteOp::FileReservation { reservations, .. } => all_release_records(reservations),
        WriteOp::Other => false,
    }
}

fn all_release_records(records: &Vec<Value>) -> (r: bool)
    ensures
        r == (records@.len() > 0 && forall|i: int|
            0 <= i < records@.len() ==> is_release_record(json_tree(#[trigger] records@[i]))),
{
    let mut i: usize = 0;
    while i < records.len()
        invariant
            i <= records.len(),
            forall|k: int| 0 <= k < i ==> is_release_record(json_tree(#[trigger] records@[k])),
        decreases records.len() - i,
    {
        let released = match json_get(&records[i], "released_ts") {
            Some(value) => !json_is_null(value),
            None => false,
        };
        if !released {
            return false;
        }
        i = i + 1;
    }
    records.len() > 0
}

/// What is to be queued for a later try after the direct write of `op` ended as
/// `written` says: the write of release records, if it failed. A failed write
/// of an active record is not tried again, for it could come after the release.
pub fn dispatch_reservation_archive_write(op: WriteOp, written: &DirectArchiveWrite) -> (r: Option<
    WriteOp,
>)
    ensures
        r == (if *written is Failed && is_terminal_release(op) {
            Some(op)
        } else {
            None
        }),
{
    match written {
        DirectArchiveWrite::Written | DirectArchiveWrite::SkippedDiskCritical => None,
        DirectArchiveWrite::Failed(_) => if reservation_op_is_terminal_release(&op) {
            Some(op)
        } else {
            None
        },
    }
}

/// The number that stands for a missing id.
pub open spec fn id_or_zero(id: Option<i64>) -> i64 {
    match id {
        Some(n) => n,
        None => 0,
    }
}

/// The id, or zero where there is none.
pub fn row_id(id: Option<i64>) -> (r: i64)
    ensures
        r == id_or_zero(id),
{
    match id {
        Some(n) => n,
        None => 0,
    }
}

/// The record of an active reservation.
pub open spec fn active_record(
    human_key: Seq<char>,
    agent: Seq<char>,
    row: FileReservationRow,
) -> JsonTree {
    JsonTree::Object(
        map![
            "id"@ => JsonTree::Int(id_or_zero(row.id) as int),
            "project"@ => JsonTree::Text(human_key),
            "agent"@ => JsonTree::Text(agent),
            "path_pattern"@ => JsonTree::Text(row.path_pattern@),
            "exclusive"@ => JsonTree::Bool(row.exclusive != 0),
            "reason"@ => JsonTree::Text(row.reason@),
            "created_ts"@ => JsonTree::Text(row.created_ts.iso@),
            "expires_ts"@ => JsonTree::Text(row.expires_ts.iso@),
        ],
    )
}

/// The time of a release: its text, or `null`.
pub open spec fn released_ts_tree(released_ts: Option<Timestamp>) -> JsonTree {
    match released_ts {
        Some(ts) => JsonTree::Text(ts.iso@),
        None => JsonTree::Null,
    }
}

/// The record of a released reservation: that of an active one, and the time of
/// the release.
pub open spec fn released_record(
    human_key: Seq<char>,
    agent: Seq<char>,
    row: FileReservationRow,
) -> JsonTree {
    JsonTree::Object(
        active_record(human_key, agent, row)->Object_0.insert(
            "released_ts"@,
            released_ts_tree(row.released_ts),
        ),
    )
}

/// The record of an active reservation.
pub fn active_reservation_artifact_json(
    human_key: &str,
    agent: &str,
    row: &FileReservationRow,
) -> (r: Value)
    ensures
        json_tree(r) == active_record(human_key@, agent@, *row),
{
    let record = with(json_object(), "id", json_int(row_id(row.id)));
    let record = with(record, "project", json_text(human_key));
    let record = with(record, "agent", json_text(agent));
    let record = with(record, "path_pattern", json_text(row.path_pattern.as_str()));
    let record = with(record, "exclusive", json_bool(row.exclusive != 0));
    let record = with(record, "reason", json_text(row.reason.as_str()));
    let record = with(record, "created_ts", json_text(row.created_ts.iso.as_str()));
    with(record, "expires_ts", json_text(row.expires_ts.iso.as_str()))
}

/// The time of a release: its text, or `null`.
pub fn released_ts_json_value(released_ts: &Option<Timestamp>) -> (r: Value)
    ensures
        json_tree(r) == released_ts_tree(*released_ts),
{
    match released_ts {
        Some(ts) => json_text(ts.iso.as_str()),
        None => json_null(),
    }
}

/// The record of a released reservation.
pub fn released_reservation_artifact_json(
    human_key: &str,
    agent: &str,
    row: &FileReservationRow,
) -> (r: Value)
    ensures
        json_tree(r) == released_record(human_key@, agent@, *row),
{
    let record = active_reservation_artifact_json(human_key, agent, row);
    with(record, "released_ts", released_ts_json_value(&row.released_ts))
}

/// Whether a time is there and after the epoch.
pub open spec fn is_positive(ts: Option<i64>) -> bool {
    match ts {
        Some(n) => n > 0,
        None => false,
    }
}

/// The microseconds of an optional time.
pub open spec fn micros_of(ts: Option<Timestamp>) -> Option<i64> {
    match ts {
        Some(t) => Some(t.micros),
        None => None,
    }
}

/// Whether the reservation of `row` has been released.
pub open spec fn is_released(row: FileReservationRow) -> bool {
    is_positive(micros_of(row.released_ts))
}

/// Whether a time is there and after the epoch.
pub fn ts_is_positive(ts: Option<i64>) -> (r: bool)
    ensures
        r == is_positive(ts),
{
    match ts {
        Some(n) => n > 0,
        None => false,
    }
}

/// Whether the reservation of `row` has been released.
pub fn row_is_released(row: &FileReservationRow) -> (r: bool)
    ensures
        r == is_released(*row),
{
    match &row.released_ts {
        Some(ts) => ts.micros > 0,
        None => false,
    }
}

/// Whether the artifact `view` says something else than the database, of which
/// `row` is the reservation and `agent` the name of its holder. What the
/// artifact leaves out says nothing.
pub open spec fn diverges(
    view: ArchiveReservationView,
    row: FileReservationRow,
    agent: Seq<char>,
) -> bool {
    ||| trimmed(view.agent_name@) != trimmed(agent)
    ||| view.path_pattern matches Some(path) && trimmed(path@) != trimmed(row.path_pattern@)
    ||| view.exclusive matches Some(exclusive) && exclusive != (row.exclusive != 0)
    ||| view.expires_ts matches Some(expires) && expires != row.expires_ts.micros
    ||| is_positive(view.released_ts) != is_released(row)
}

/// Whether the artifact `view` says something else than the database.
pub fn active_archive_artifact_diverges(
    view: &ArchiveReservationView,
    row: &FileReservationRow,
    agent: &str,
) -> (r: bool)
    ensures
        r == diverges(*view, *row, agent@),
{
    let held = trim(view.agent_name.as_str());
    let holder = trim(agent);
    if !same_text(held.as_str(), holder.as_str()) {
        return true;
    }
    if let Some(path) = &view.path_pattern {
        let archived = trim(path.as_str());
        let stored = trim(row.path_pattern.as_str());
        if !same_text(archived.as_str(), stored.as_str()) {
            return true;
        }
    }
    if let Some(exclusive) = view.exclusive {
        if exclusive != (row.exclusive != 0) {
            return true;
        }
    }
    if let Some(expires) = view.expires_ts {
        if expires != row.expires_ts.micros {
            return true;
        }
    }
    ts_is_positive(view.released_ts) != row_is_released(row)
}

/// Whether the artifact of an active reservation is to be written again: its
/// holder is known, and it is missing or diverges.
pub open spec fn needs_active_heal(
    row: FileReservationRow,
    names: Map<i64, String>,
    present: Map<i64, ArchiveReservationView>,
) -> bool {
    &&& row.id is Some
    &&& names.contains_key(row.agent_id)
    &&& present.contains_key(row.id->0) ==> diverges(
        present[row.id->0],
        row,
        names[row.agent_id]@,
    )
}

/// The records of the active reservations whose artifacts are to be written
/// again, in the order of `rows`.
pub open spec fn active_heals(
    human_key: Seq<char>,
    rows: Seq<FileReservationRow>,
    names: Map<i64, String>,
    present: Map<i64, ArchiveReservationView>,
) -> Seq<JsonTree>
    decreases rows.len(),
{
    if rows.len() == 0 {
        Seq::empty()
    } else {
        let before = active_heals(human_key, rows.drop_last(), names, present);
        let row = rows.last();
        if needs_active_heal(row, names, present) {
            before.push(active_record(human_key, names[row.agent_id]@, row))
        } else {
            before
        }
    }
}

/// The records of the active reservations whose artifacts are missing or
/// diverge. A reservation whose holder's name is unknown is left out: a guess
/// could name a wrong holder.
pub fn reservation_rows_needing_archive_heal(
    human_key: &str,
    rows: &Vec<FileReservationRow>,
    names: &HashMap<i64, String>,
    present: &BTreeMap<i64, ArchiveReservationView>,
) -> (r: Vec<Value>)
    ensures
        json_trees(r@) == active_heals(human_key@, rows@, names@, present@),
{
    broadcast use vstd::std_specs::hash::group_hash_axioms;
    broadcast use vstd::std_specs::btree::group_btree_axioms;

    let mut heals: Vec<Value> = Vec::new();
    let mut i: usize = 0;
    proof {
        assert(json_trees(heals@) =~= Seq::empty());
    }
    while i < rows.len()
        invariant
            i <= rows.len(),
            json_trees(heals@) == active_heals(human_key@, rows@.take(i as int), names@, present@),
        decreases rows.len() - i,
    {
        let row = &rows[i];
        proof {
            assert(rows@.take(i + 1).drop_last() =~= rows@.take(i as int));
        }
        if let Some(id) = row.id {
            if let Some(agent) = names.get(&row.agent_id) {
                let due = match present.get(&id) {
                    Some(view) => active_archive_artifact_diverges(view, row, agent.as_str()),
                    None => true,
                };
                if due {
                    let ghost had = json_trees(heals@);
                    let record = active_reservation_artifact_json(human_key, agent.as_str(), row);
                    heals.push(record);
                    proof {
                        assert(json_trees(heals@) =~= had.push(json_tree(record)));
                    }
                }
            }
        }
        i = i + 1;
    }
    proof {
        assert(rows@.take(rows.len() as int) =~= rows@);
    }
    heals
}

/// Whether the artifact of a released reservation is to be written again: its
/// holder is known, and the artifact says that it is still held.
pub open spec fn needs_release_heal(
    row: FileReservationRow,
    names: Map<i64, String>,
    present: Map<i64, ArchiveReservationView>,
) -> bool {
    &&& row.id is Some
    &&& names.contains_key(row.agent_id)
    &&& is_released(row)
    &&& present.contains_key(row.id->0)
    &&& !is_positive(present[row.id->0].released_ts)
}

/// The records of the released reservations whose artifacts are to be written
/// again, in the order of `rows`.
pub open spec fn release_heals(
    human_key: Seq<char>,
    rows: Seq<FileReservationRow>,
    names: Map<i64, String>,
    present: Map<i64, ArchiveReservationView>,
) -> Seq<JsonTree>
    decreases rows.len(),
{
    if rows.len() == 0 {
        Seq::empty()
    } else {
        let before = release_heals(human_key, rows.drop_last(), names, present);
        let row = rows.last();
        if needs_release_heal(row, names, present) {
            before.push(released_record(human_key, names[row.agent_id]@, row))
        } else {
            before
        }
    }
}

/// The records of the released reservations whose artifacts say that they are
/// still held. One without an artifact needs none.
pub fn released_rows_needing_archive_heal(
    human_key: &str,
    rows: &Vec<FileReservationRow>,
    names: &HashMap<i64, String>,
    present: &BTreeMap<i64, ArchiveReservationView>,
) -> (r: Vec<Value>)
    ensures
        json_trees(r@) == release_heals(human_key@, rows@, names@, present@),
{
    broadcast use vstd::std_specs::hash::group_hash_axioms;
    broadcast use vstd::std_specs::btree::group_btree_axioms;

    let mut heals: Vec<Value> = Vec::new();
    let mut i: usize = 0;
    proof {
        assert(json_trees(heals@) =~= Seq::empty());
    }
    while i < rows.len()
        invariant
            i <= rows.len(),
            json_trees(heals@) == release_heals(
                human_key@,
                rows@.take(i as int),
                names@,
                present@,
            ),
        decreases rows.len() - i,
    {
        let row = &rows[i];
        proof {
            assert(rows@.take(i + 1).drop_last() =~= rows@.take(i as int));
        }
        if let Some(id) = row.id {
            if let Some(agent) = names.get(&row.agent_id) {
                if row_is_released(row) {
                    let claims_active = match present.get(&id) {
                        Some(view) => !ts_is_positive(view.released_ts),
                        None => false,
                    };
                    if claims_active {
                        let ghost had = json_trees(heals@);
                        let record = released_reservation_artifact_json(
                            human_key,
                            agent.as_str(),
                            row,
                        );
                        heals.push(record);
                        proof {
                            assert(json_trees(heals@) =~= had.push(json_tree(record)));
                        }
                    }
                }
            }
        }
        i = i + 1;
    }
    proof {
        assert(rows@.take(rows.len() as int) =~= rows@);
    }
    heals
}

/// Whether `write` writes `records` to the archive of the project `slug`.
pub open spec fn writes_records(
    write: ArchiveWrite,
    slug: Seq<char>,
    records: Seq<JsonTree>,
    context: Seq<char>,
) -> bool {
    &&& write.context@ == context
    &&& match write.op {
        WriteOp::FileReservation { project_slug, reservations } => {
            &&& project_slug@ == slug
            &&& json_trees(reservations@) == records
        },
        WriteOp::Other => false,
    }
}

/// Whether `write` writes `records` where there are any, and nothing else.
pub open spec fn writes_any_records(
    write: Option<ArchiveWrite>,
    slug: Seq<char>,
    records: Seq<JsonTree>,
    context: Seq<char>,
) -> bool {
    match write {
        Some(due) => records.len() > 0 && writes_records(due, slug, records, context),
        None => records.len() == 0,
    }
}

/// The write of `records` to the archive of `project`, where there are any.
pub fn archive_write(project: &ProjectRow, records: Vec<Value>, purpose: &str) -> (r: Option<
    ArchiveWrite,
>)
    ensures
        writes_any_records(r, project.slug@, json_trees(records@), purpose@ + project.slug@),
{
    if records.len() == 0 {
        return None;
    }
    Some(
        ArchiveWrite {
            op: WriteOp::FileReservation {
                project_slug: project.slug.clone(),
                reservations: records,
            },
            context: purpose.to_owned().concat(project.slug.as_str()),
        },
    )
}

/// The ids of the rows that have one, in order.
pub open spec fn ids_of(rows: Seq<FileReservationRow>) -> Seq<i64>
    decreases rows.len(),
{
    if rows.len() == 0 {
        Seq::empty()
    } else {
        match rows.last().id {
            Some(id) => ids_of(rows.drop_last()).push(id),
            None => ids_of(rows.drop_last()),
        }
    }
}

/// The ids whose artifacts are to be read before `rows` are reconciled.
pub fn artifact_ids(rows: &Vec<FileReservationRow>) -> (r: Vec<i64>)
    ensures
        r@ == ids_of(rows@),
{
    let mut ids: Vec<i64> = Vec::new();
    let mut i: usize = 0;
    while i < rows.len()
        invariant
            i <= rows.len(),
            ids@ == ids_of(rows@.take(i as int)),
        decreases rows.len() - i,
    {
        proof {
            assert(rows@.take(i + 1).drop_last() =~= rows@.take(i as int));
        }
        if let Some(id) = rows[i].id {
            ids.push(id);
        }
        i = i + 1;
    }
    proof {
        assert(rows@.take(rows.len() as int) =~= rows@);
    }
    ids
}

/// The write that brings the artifacts of the active reservations `rows` up to
/// the database, if one is due. `present` holds what their artifacts say.
pub fn reconcile_active_reservation_archive(
    project: &ProjectRow,
    rows: &Vec<FileReservationRow>,
    names: &HashMap<i64, String>,
    present: &BTreeMap<i64, ArchiveReservationView>,
) -> (r: Option<ArchiveWrite>)
    ensures
        writes_any_records(
            r,
            project.slug@,
            active_heals(project.human_key@, rows@, names@, present@),
            "reservation archive reconcile-on-read project="@ + project.slug@,
        ),
{
    let heals = reservation_rows_needing_archive_heal(
        project.human_key.as_str(),
        rows,
        names,
        present,
    );
    archive_write(project, heals, "reservation archive reconcile-on-read project=")
}

/// The write that brings the artifacts of the released reservations `rows` up to
/// the database, if one is due. `present` holds what their artifacts say.
pub fn reconcile_released_reservation_archive(
    project: &ProjectRow,
    rows: &Vec<FileReservationRow>,
    names: &HashMap<i64, String>,
    present: &BTreeMap<i64, ArchiveReservationView>,
) -> (r: Option<ArchiveWrite>)
    ensures
        writes_any_records(
            r,
            project.slug@,
            release_heals(project.human_key@, rows@, names@, present@),
            "reservation archive released-row reconcile-on-read project="@ + project.slug@,
        ),
{
    let heals = released_rows_needing_archive_heal(
        project.human_key.as_str(),
        rows,
        names,
        present,
    );
    archive_write(project, heals, "reservation archive released-row reconcile-on-read project=")
}

/// What the reconciliation of the active reservations makes due. Where the agents of
/// the project could be read, `names` holds their names.
#[derive(Debug, Clone)]
pub struct ActiveHeal {
    pub names: Option<HashMap<i64, String>>,
    pub write: Option<ArchiveWrite>,
}

/// Whether `heal` is what the reconciliation of the active reservations `rows` makes
/// due. Where the agents of the project could not be read, nothing is.
pub open spec fn is_active_heal(
    heal: ActiveHeal,
    project: ProjectRow,
    rows: Seq<FileReservationRow>,
    agents: DbOutcome<Vec<AgentRow>>,
    present: Map<i64, ArchiveReservationView>,
) -> bool {
    match agents {
        DbOutcome::Done(list) => {
            &&& heal.names matches Some(names) && names@ == names_of(list@)
            &&& writes_any_records(
                heal.write,
                project.slug@,
                active_heals(project.human_key@, rows, names_of(list@), present),
                "reservation archive reconcile-on-read project="@ + project.slug@,
            )
        },
        _ => heal.names is None && heal.write is None,
    }
}

/// Reconciles the active reservations `rows`. `present` holds what their artifacts
/// say.
pub fn heal_active(
    project: &ProjectRow,
    rows: &Vec<FileReservationRow>,
    agents: &DbOutcome<Vec<AgentRow>>,
    present: &BTreeMap<i64, ArchiveReservationView>,
) -> (r: ActiveHeal)
    ensures
        is_active_heal(r, *project, rows@, *agents, present@),
{
    match agents {
        DbOutcome::Done(list) => {
            let names = agent_names(list);
            let write = reconcile_active_reservation_archive(project, rows, &names, present);
            ActiveHeal { names: Some(names), write }
        },
        _ => ActiveHeal { names: None, write: None },
    }
}

/// Whether `write` is what the reconciliation of the released reservations makes due.
/// Where they could not be read, nothing is.
pub open spec fn is_release_heal(
    write: Option<ArchiveWrite>,
    project: ProjectRow,
    names: Map<i64, String>,
    out: DbOutcome<Vec<FileReservationRow>>,
    present: Map<i64, ArchiveReservationView>,
) -> bool {
    match out {
        DbOutcome::Done(rows) => writes_any_records(
            write,
            project.slug@,
            release_heals(project.human_key@, rows@, names, present),
            "reservation archive released-row reconcile-on-read project="@ + project.slug@,
        ),
        _ => write is None,
    }
}

/// Reconciles the released reservations that have not expired. `present` holds what
/// their artifacts say.
pub fn heal_released(
    project: &ProjectRow,
    names: &HashMap<i64, String>,
    out: &DbOutcome<Vec<FileReservationRow>>,
    present: &BTreeMap<i64, ArchiveReservationView>,
) -> (r: Option<ArchiveWrite>)
    ensures
        is_release_heal(r, *project, names@, *out, present@),
{
    match out {
        DbOutcome::Done(rows) => reconcile_released_reservation_archive(
            project,
            rows,
            names,
            present,
        ),
        _ => None,
    }
}

/// The records of released rows.
pub open spec fn released_records(
    human_key: Seq<char>,
    agent: Seq<char>,
    rows: Seq<FileReservationRow>,
) -> Seq<JsonTree> {
    rows.map_values(|row: FileReservationRow| released_record(human_key, agent, row))
}

/// The records of active rows.
pub open spec fn active_records(
    human_key: Seq<char>,
    agent: Seq<char>,
    rows: Seq<FileReservationRow>,
) -> Seq<JsonTree> {
    rows.map_values(|row: FileReservationRow| active_record(human_key, agent, row))
}

/// The write of the artifacts of the reservations that `agent` released.
pub fn dispatch_release_archive_write(
    project: &ProjectRow,
    agent: &AgentRow,
    rows: &Vec<FileReservationRow>,
) -> (r: Option<ArchiveWrite>)
    ensures
        writes_any_records(
            r,
            project.slug@,
            released_records(project.human_key@, agent.name@, rows@),
            "reservation release archive write project="@ + project.slug@,
        ),
{
    let mut records: Vec<Value> = Vec::new();
    let mut i: usize = 0;
    while i < rows.len()
        invariant
            i <= rows.len(),
            records.len() == i,
            forall|k: int|
                0 <= k < i ==> json_tree(#[trigger] records@[k]) == released_record(
                    project.human_key@,
                    agent.name@,
                    rows@[k],
                ),
        decreases rows.len() - i,
    {
        records.push(
            released_reservation_artifact_json(
                project.human_key.as_str(),
                agent.name.as_str(),
                &rows[i],
            ),
        );
        i = i + 1;
    }
    proof {
        assert(json_trees(records@) =~= released_records(project.human_key@, agent.name@, rows@));
    }
    archive_write(project, records, "reservation release archive write project=")
}

/// The records of `rows`, active and held by the agent named `agent`.
pub fn active_artifacts(human_key: &str, agent: &str, rows: &Vec<FileReservationRow>) -> (r: Vec<
    Value,
>)
    ensures
        json_trees(r@) == active_records(human_key@, agent@, rows@),
{
    let mut records: Vec<Value> = Vec::new();
    let mut i: usize = 0;
    while i < rows.len()
        invariant
            i <= rows.len(),
            records.len() == i,
            forall|k: int|
                0 <= k < i ==> json_tree(#[trigger] records@[k]) == active_record(
                    human_key@,
                    agent@,
                    rows@[k],
                ),
        decreases rows.len() - i,
    {
        records.push(active_reservation_artifact_json(human_key, agent, &rows[i]));
        i = i + 1;
    }
    proof {
        assert(json_trees(records@) =~= active_records(human_key@, agent@, rows@));
    }
    records
}

/// The record of an active reservation says nothing of a release, and that of a
/// released one says when it was.
pub proof fn records_tell_release(human_key: Seq<char>, agent: Seq<char>, row: FileReservationRow)
    ensures
        !is_release_record(active_record(human_key, agent, row)),
        is_release_record(released_record(human_key, agent, row)) <==> row.released_ts is Some,
{
    reveal_strlit("id");
    reveal_strlit("project");
    reveal_strlit("agent");
    reveal_strlit("path_pattern");
    reveal_strlit("exclusive");
    reveal_strlit("reason");
    reveal_strlit("created_ts");
    reveal_strlit("expires_ts");
    reveal_strlit("released_ts");
    assert("id"@.len() == 2);
    assert("project"@.len() == 7);
    assert("agent"@.len() == 5);
    assert("path_pattern"@.len() == 12);
    assert("exclusive"@.len() == 9);
    assert("reason"@.len() == 6);
    assert("created_ts"@.len() == 10);
    assert("expires_ts"@.len() == 10);
    assert("released_ts"@.len() == 11);
}

/// Each record that is written for an active reservation is that of a row whose
/// holder is known, and names that holder.
pub proof fn active_heals_name_known_holders(
    human_key: Seq<char>,
    rows: Seq<FileReservationRow>,
    names: Map<i64, String>,
    present: Map<i64, ArchiveReservationView>,
)
    ensures
        forall|i: int|
            #![trigger active_heals(human_key, rows, names, present)[i]]
            0 <= i < active_heals(human_key, rows, names, present).len() ==> exists|k: int|
                #![trigger rows[k]]
                {
                    &&& 0 <= k < rows.len()
                    &&& needs_active_heal(rows[k], names, present)
                    &&& active_heals(human_key, rows, names, present)[i] == active_record(
                        human_key,
                        names[rows[k].agent_id]@,
                        rows[k],
                    )
                },
    decreases rows.len(),
{
    if rows.len() > 0 {
        let head = rows.drop_last();
        active_heals_name_known_holders(human_key, head, names, present);
        let before = active_heals(human_key, head, names, present);
        let all = active_heals(human_key, rows, names, present);
        assert forall|i: int| #![trigger all[i]] 0 <= i < all.len() implies exists|k: int|
            #![trigger rows[k]]
            {
                &&& 0 <= k < rows.len()
                &&& needs_active_heal(rows[k], names, present)
                &&& all[i] == active_record(human_key, names[rows[k].agent_id]@, rows[k])
            } by {
            if i < before.len() {
                assert(all[i] == before[i]);
                let k = choose|k: int|
                    #![trigger head[k]]
                    {
                        &&& 0 <= k < head.len()
                        &&& needs_active_heal(head[k], names, present)
                        &&& before[i] == active_record(
                            human_key,
                            names[head[k].agent_id]@,
                            head[k],
                        )
                    };
                assert(rows[k] == head[k]);
            } else {
                assert(rows[rows.len() - 1] == rows.last());
            }
        }
    }
}

/// Nothing is written where no row needs it, and something where one does: a
/// database and an archive that agree are left alone.
pub proof fn active_heals_are_due(
    human_key: Seq<char>,
    rows: Seq<FileReservationRow>,
    names: Map<i64, String>,
    present: Map<i64, ArchiveReservationView>,
)
    ensures
        active_heals(human_key, rows, names, present).len() == 0 <==> forall|k: int|
            0 <= k < rows.len() ==> !needs_active_heal(#[trigger] rows[k], names, present),
    decreases rows.len(),
{
    if rows.len() > 0 {
        let head = rows.drop_last();
        active_heals_are_due(human_key, head, names, present);
        assert(forall|k: int| 0 <= k < head.len() ==> head[k] == #[trigger] rows[k]);
        assert(rows[rows.len() - 1] == rows.last());
        if active_heals(human_key, rows, names, present).len() == 0 {
            assert forall|k: int| 0 <= k < rows.len() implies !needs_active_heal(
                #[trigger] rows[k],
                names,
                present,
            ) by {
                if k < head.len() {
                    assert(!needs_active_heal(head[k], names, present));
                }
            }
        }
        if forall|k: int|
            0 <= k < rows.len() ==> !needs_active_heal(#[trigger] rows[k], names, present) {
            assert forall|k: int| 0 <= k < head.len() implies !needs_active_heal(
                #[trigger] head[k],
                names,
                present,
            ) by {
                assert(!needs_active_heal(rows[k], names, present));
            }
        }
    }
}

/// Each active reservation that needs it is written, with the name of its holder.
pub proof fn active_heals_are_complete(
    human_key: Seq<char>,
    rows: Seq<FileReservationRow>,
    names: Map<i64, String>,
    present: Map<i64, ArchiveReservationView>,
    k: int,
)
    requires
        0 <= k < rows.len(),
        needs_active_heal(rows[k], names, present),
    ensures
        active_heals(human_key, rows, names, present).contains(
            active_record(human_key, names[rows[k].agent_id]@, rows[k]),
        ),
    decreases rows.len(),
{
    let head = rows.drop_last();
    let all = active_heals(human_key, rows, names, present);
    let record = active_record(human_key, names[rows[k].agent_id]@, rows[k]);
    if k < head.len() {
        assert(head[k] == rows[k]);
        active_heals_are_complete(human_key, head, names, present, k);
        let before = active_heals(human_key, head, names, present);
        let n = choose|n: int| 0 <= n < before.len() && before[n] == record;
        assert(all[n] == record);
    } else {
        assert(all[all.len() - 1] == record);
    }
}

/// Each released reservation that needs it is written, with the name of its holder
/// and the time of its release.
pub proof fn release_heals_are_complete(
    human_key: Seq<char>,
    rows: Seq<FileReservationRow>,
    names: Map<i64, String>,
    present: Map<i64, ArchiveReservationView>,
    k: int,
)
    requires
        0 <= k < rows.len(),
        needs_release_heal(rows[k], names, present),
    ensures
        release_heals(human_key, rows, names, present).contains(
            released_record(human_key, names[rows[k].agent_id]@, rows[k]),
        ),
        is_release_record(released_record(human_key, names[rows[k].agent_id]@, rows[k])),
    decreases rows.len(),
{
    let head = rows.drop_last();
    let all = release_heals(human_key, rows, names, present);
    let record = released_record(human_key, names[rows[k].agent_id]@, rows[k]);
    records_tell_release(human_key, names[rows[k].agent_id]@, rows[k]);
    if k < head.len() {
        assert(head[k] == rows[k]);
        release_heals_are_complete(human_key, head, names, present, k);
        let before = release_heals(human_key, head, names, present);
        let n = choose|n: int| 0 <= n < before.len() && before[n] == record;
        assert(all[n] == record);
    } else {
        assert(all[all.len() - 1] == record);
    }
}

/// Whether `write` is due and writes `record`.
pub open spec fn writes_record(write: Option<ArchiveWrite>, record: JsonTree) -> bool {
    write matches Some(due) && (due.op matches WriteOp::FileReservation { reservations, .. }
        && json_trees(reservations@).contains(record))
}

/// Both writes of a reconciliation hold the record of each reservation that needs it.
pub proof fn heals_are_written(
    active_write: Option<ArchiveWrite>,
    release_write: Option<ArchiveWrite>,
    project: ProjectRow,
    active: Seq<FileReservationRow>,
    names: Map<i64, String>,
    present: Map<i64, ArchiveReservationView>,
    released: Seq<FileReservationRow>,
    released_present: Map<i64, ArchiveReservationView>,
)
    requires
        writes_any_records(
            active_write,
            project.slug@,
            active_heals(project.human_key@, active, names, present),
            "reservation archive reconcile-on-read project="@ + project.slug@,
        ),
        writes_any_records(
            release_write,
            project.slug@,
            release_heals(project.human_key@, released, names, released_present),
            "reservation archive released-row reconcile-on-read project="@ + project.slug@,
        ),
    ensures
        forall|k: int|
            0 <= k < active.len() && needs_active_heal(#[trigger] active[k], names, present)
                ==> writes_record(
                active_write,
                active_record(project.human_key@, names[active[k].agent_id]@, active[k]),
            ),
        forall|k: int|
            0 <= k < released.len() && needs_release_heal(
                #[trigger] released[k],
                names,
                released_present,
            ) ==> writes_record(
                release_write,
                released_record(project.human_key@, names[released[k].agent_id]@, released[k]),
            ),
{
    let key = project.human_key@;
    assert forall|k: int|
        0 <= k < active.len() && needs_active_heal(
            #[trigger] active[k],
            names,
            present,
        ) implies writes_record(
        active_write,
        active_record(key, names[active[k].agent_id]@, active[k]),
    ) by {
        active_heals_are_complete(key, active, names, present, k);
    }
    assert forall|k: int|
        0 <= k < released.len() && needs_release_heal(
            #[trigger] released[k],
            names,
            released_present,
        ) implies writes_record(
        release_write,
        released_record(key, names[released[k].agent_id]@, released[k]),
    ) by {
        release_heals_are_complete(key, released, names, released_present, k);
    }
}

/// What heals the artifacts of reservations is what wrote them in the first place: where
/// the write of what an agent was granted, or renewed, or released was lost, a
/// reconciliation writes the same records.
pub proof fn heals_are_the_lost_write(
    human_key: Seq<char>,
    agent: Seq<char>,
    rows: Seq<FileReservationRow>,
    names: Map<i64, String>,
    present: Map<i64, ArchiveReservationView>,
)
    requires
        forall|k: int| 0 <= k < rows.len() ==> names[(#[trigger] rows[k]).agent_id]@ == agent,
    ensures
        (forall|k: int|
            0 <= k < rows.len() ==> needs_active_heal(#[trigger] rows[k], names, present))
            ==> active_heals(human_key, rows, names, present) == active_records(
            human_key,
            agent,
            rows,
        ),
        (forall|k: int|
            0 <= k < rows.len() ==> needs_release_heal(#[trigger] rows[k], names, present))
            ==> release_heals(human_key, rows, names, present) == released_records(
            human_key,
            agent,
            rows,
        ),
    decreases rows.len(),
{
    if rows.len() == 0 {
        assert(active_records(human_key, agent, rows) =~= Seq::empty());
        assert(released_records(human_key, agent, rows) =~= Seq::empty());
    } else {
        let head = rows.drop_last();
        assert(forall|k: int| 0 <= k < head.len() ==> #[trigger] head[k] == rows[k]);
        heals_are_the_lost_write(human_key, agent, head, names, present);
        assert(rows[rows.len() - 1] == rows.last());
        assert(active_records(human_key, agent, rows) =~= active_records(
            human_key,
            agent,
            head,
        ).push(active_record(human_key, agent, rows.last())));
        assert(released_records(human_key, agent, rows) =~= released_records(
            human_key,
            agent,
            head,
        ).push(released_record(human_key, agent, rows.last())));
    }
}

/// Whether the artifact `view` says of an active reservation what its record
/// says, or leaves it out.
pub open spec fn tells_of_active(
    view: ArchiveReservationView,
    row: FileReservationRow,
    agent: Seq<char>,
) -> bool {
    &&& view.agent_name@ == agent
    &&& view.path_pattern matches Some(path) ==> path@ == row.path_pattern@
    &&& view.exclusive matches Some(exclusive) ==> exclusive == (row.exclusive != 0)
    &&& view.expires_ts matches Some(expires) ==> expires == row.expires_ts.micros
    &&& view.released_ts is None
}

/// An artifact that says of an active reservation what its record says does not
/// diverge: it is not written again.
pub proof fn faithful_artifact_does_not_diverge(
    view: ArchiveReservationView,
    row: FileReservationRow,
    agent: Seq<char>,
)
    requires
        !is_released(row),
        tells_of_active(view, row, agent),
    ensures
        !diverges(view, row, agent),
{
}

/// Once the artifacts of the active reservations say what their records say, there
/// is nothing to write: what was healed stays healed.
pub proof fn healed_archive_is_left_alone(
    human_key: Seq<char>,
    rows: Seq<FileReservationRow>,
    names: Map<i64, String>,
    present: Map<i64, ArchiveReservationView>,
)
    requires
        forall|k: int|
            0 <= k < rows.len() && (#[trigger] rows[k]).id is Some && names.contains_key(
                rows[k].agent_id,
            ) ==> {
                &&& !is_released(rows[k])
                &&& present.contains_key(rows[k].id->0)
                &&& tells_of_active(
                    present[rows[k].id->0],
                    rows[k],
                    names[rows[k].agent_id]@,
                )
            },
    ensures
        active_heals(human_key, rows, names, present).len() == 0,
{
    active_heals_are_due(human_key, rows, names, present);
}

/// Once the artifacts of the released reservations say that they were released,
/// there is nothing to write.
pub proof fn healed_releases_are_left_alone(
    human_key: Seq<char>,
    rows: Seq<FileReservationRow>,
    names: Map<i64, String>,
    present: Map<i64, ArchiveReservationView>,
)
    requires
        forall|k: int|
            0 <= k < rows.len() && (#[trigger] rows[k]).id is Some && present.contains_key(
                rows[k].id->0,
            ) ==> is_positive(present[rows[k].id->0].released_ts),
    ensures
        release_heals(human_key, rows, names, present).len() == 0,
    decreases rows.len(),
{
    if rows.len() > 0 {
        let head = rows.drop_last();
        assert(forall|k: int| 0 <= k < head.len() ==> #[trigger] head[k] == rows[k]);
        healed_releases_are_left_alone(human_key, head, names, present);
        assert(rows[rows.len() - 1] == rows.last());
    }
}

/// A write that heals active reservations is never queued for a later try.
pub proof fn active_heals_are_not_terminal(
    write: ArchiveWrite,
    slug: Seq<char>,
    context: Seq<char>,
    human_key: Seq<char>,
    rows: Seq<FileReservationRow>,
    names: Map<i64, String>,
    present: Map<i64, ArchiveReservationView>,
)
    requires
        writes_records(write, slug, active_heals(human_key, rows, names, present), context),
    ensures
        !is_terminal_release(write.op),
{
    let heals = active_heals(human_key, rows, names, present);
    active_heals_name_known_holders(human_key, rows, names, present);
    if let WriteOp::FileReservation { reservations, .. } = write.op {
        if reservations@.len() > 0 {
            assert(json_trees(reservations@)[0] == heals[0]);
            let k = choose|k: int|
                #![trigger rows[k]]
                {
                    &&& 0 <= k < rows.len()
                    &&& needs_active_heal(rows[k], names, present)
                    &&& heals[0] == active_record(human_key, names[rows[k].agent_id]@, rows[k])
                };
            records_tell_release(human_key, names[rows[k].agent_id]@, rows[k]);
            assert(!is_release_record(json_tree(reservations@[0])));
        }
    }
}

/// The write of granted or renewed reservations is never queued for a later try.
pub proof fn active_records_are_not_terminal(
    write: ArchiveWrite,
    slug: Seq<char>,
    context: Seq<char>,
    human_key: Seq<char>,
    agent: Seq<char>,
    rows: Seq<FileReservationRow>,
)
    requires
        writes_records(write, slug, active_records(human_key, agent, rows), context),
    ensures
        !is_terminal_release(write.op),
{
    if let WriteOp::FileReservation { reservations, .. } = write.op {
        if reservations@.len() > 0 {
            assert(json_trees(reservations@).len() == reservations@.len());
            assert(active_records(human_key, agent, rows).len() == rows.len());
            assert(json_trees(reservations@)[0] == active_records(human_key, agent, rows)[0]);
            records_tell_release(human_key, agent, rows[0]);
            assert(!is_release_record(json_tree(reservations@[0])));
        }
    }
}

proof fn release_heals_are_release_records(
    human_key: Seq<char>,
    rows: Seq<FileReservationRow>,
    names: Map<i64, String>,
    present: Map<i64, ArchiveReservationView>,
)
    ensures
        forall|i: int|
            0 <= i < release_heals(human_key, rows, names, present).len() ==> is_release_record(
                #[trigger] release_heals(human_key, rows, names, present)[i],
            ),
    decreases rows.len(),
{
    if rows.len() > 0 {
        release_heals_are_release_records(human_key, rows.drop_last(), names, present);
        let row = rows.last();
        let before = release_heals(human_key, rows.drop_last(), names, present);
        let all = release_heals(human_key, rows, names, present);
        records_tell_release(human_key, names[row.agent_id]@, row);
        assert forall|i: int| 0 <= i < all.len() implies is_release_record(#[trigger] all[i]) by {
            if i < before.len() {
                assert(all[i] == before[i]);
            }
        }
    }
}

/// A write that heals released reservations is queued for a later try when it
/// fails.
pub proof fn release_heals_are_terminal(
    write: ArchiveWrite,
    slug: Seq<char>,
    context: Seq<char>,
    human_key: Seq<char>,
    rows: Seq<FileReservationRow>,
    names: Map<i64, String>,
    present: Map<i64, ArchiveReservationView>,
)
    requires
        writes_any_records(
            Some(write),
            slug,
            release_heals(human_key, rows, names, present),
            context,
        ),
    ensures
        is_terminal_release(write.op),
{
    release_heals_are_release_records(human_key, rows, names, present);
    let heals = release_heals(human_key, rows, names, present);
    if let WriteOp::FileReservation { reservations, .. } = write.op {
        assert forall|i: int| 0 <= i < reservations@.len() implies is_release_record(
            json_tree(#[trigger] reservations@[i]),
        ) by {
            assert(json_trees(reservations@)[i] == heals[i]);
        }
    }
}

/// The write of the reservations that an agent released is queued for a later
/// try when it fails.
pub proof fn released_records_are_terminal(
    write: ArchiveWrite,
    slug: Seq<char>,
    context: Seq<char>,
    human_key: Seq<char>,
    agent: Seq<char>,
    rows: Seq<FileReservationRow>,
)
    requires
        writes_any_records(Some(write), slug, released_records(human_key, agent, rows), context),
        forall|i: int| 0 <= i < rows.len() ==> (#[trigger] rows[i]).released_ts is Some,
    ensures
        is_terminal_release(write.op),
{
    let records = released_records(human_key, agent, rows);
    if let WriteOp::FileReservation { reservations, .. } = write.op {
        assert forall|i: int| 0 <= i < reservations@.len() implies is_release_record(
            json_tree(#[trigger] reservations@[i]),
        ) by {
            assert(json_trees(reservations@)[i] == records[i]);
            records_tell_release(human_key, agent, rows[i]);
            assert(rows[i].released_ts is Some);
        }
    }
}

} // verus!
