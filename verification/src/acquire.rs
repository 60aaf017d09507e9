//! The request for reservations: it is checked, matched against the active
//! reservations, and what nobody else holds is granted.

use crate::archive::{
    active_artifacts, active_heals, active_record, active_records, archive_write, heal_active,
    heal_released, heals_are_written, id_or_zero, is_release_heal, needs_active_heal,
    needs_release_heal, released_record, row_id, writes_any_records, writes_record, ArchiveWrite,
};
use crate::conflict::{distinct, distinct_paths};
use crate::errors::{
    acquire_outcome, db_outcome_to_mcp_result, is_acquire_outcome, is_tool_error,
    legacy_tool_error, outcome_error, reason_data, reason_tree,
};
use crate::filter::{is_relative_run, is_usable_paths, relative_paths, usable_paths, RelativePaths};
use crate::grants::{grant_items, grant_list, grant_push, GrantList};
use crate::json::{
    json_count, json_int, json_object, json_texts, optional_view, text_list, with, JsonTree,
};
use crate::machine::{absolute_on, Machine};
use crate::model::{
    agent_names, canonical_name, conflict_views, holder_views, name_or, names_of, AgentRow,
    ArchiveReservationView, ConflictHolder, ConflictView, DbErrorKind, DbOutcome,
    FileReservationRow, GrantedReservation, HolderView, McpError, PendingConflictHolder,
    PendingReservationConflict, ProjectRow, ReservationConflict, ReservationResponse,
};
use crate::patterns::{detect_suspicious_file_reservation, suspicion, PatternFacts};
use crate::text::{
    before, decimal, same_text, signed_text, text_before, text_order_asymmetric,
    text_order_irreflexive, text_order_total, text_order_transitive, texts, unsigned_text,
};
use std::collections::{BTreeMap, HashMap};
use vstd::prelude::*;

verus! {

/// A request for reservations that waits for its project, and for what the
/// pattern engine says of its paths as they are written.
#[derive(Debug, Clone)]
pub struct AcquireRequest {
    pub project_key: String,
    pub agent_name: String,
    pub paths: Vec<String>,
    pub ttl: i64,
    pub exclusive: bool,
    pub reason: String,
}

/// How long a reservation is held, in seconds: an hour, or what is asked for,
/// but no less than a minute and no more than a year.
pub open spec fn lease_seconds(asked: Option<i64>) -> i64 {
    match asked {
        None => 3600,
        Some(t) => if t < 60 {
            60
        } else if t > 31_536_000 {
            31_536_000
        } else {
            t
        },
    }
}

/// The data of the error about a request without paths.
pub open spec fn provided_tree(paths: Seq<String>) -> JsonTree {
    JsonTree::Object(map!["provided"@ => text_list(texts(paths))])
}

/// Whether `r` is what a request for reservations becomes.
pub open spec fn is_request_verdict(
    r: Result<AcquireRequest, McpError>,
    project_key: String,
    agent_name: String,
    canonical: Option<String>,
    paths: Vec<String>,
    ttl_seconds: Option<i64>,
    exclusive: Option<bool>,
    reason: Option<String>,
) -> bool {
    if paths@.len() == 0 {
        r is Err && is_tool_error(
            r->Err_0,
            "EMPTY_PATHS"@,
            "paths list cannot be empty. Provide at least one file path or glob pattern to reserve (e.g., ['src/api/*.py', 'config/settings.yaml'])."@,
            true,
            provided_tree(paths@),
        )
    } else {
        r matches Ok(request) && {
            &&& request.project_key == project_key
            &&& request.agent_name == name_or(canonical, agent_name)
            &&& request.paths == paths
            &&& request.ttl == lease_seconds(ttl_seconds)
            &&& request.exclusive == (exclusive matches Some(e) ==> e)
            &&& match reason {
                Some(text) => request.reason == text,
                None => request.reason@ == Seq::<char>::empty(),
            }
        }
    }
}

/// Takes a request for reservations. `canonical` is the canonical form of the
/// agent's name, where there is one. A reservation is exclusive unless the
/// request says otherwise.
pub fn file_reservation_paths(
    project_key: String,
    agent_name: String,
    canonical: Option<String>,
    paths: Vec<String>,
    ttl_seconds: Option<i64>,
    exclusive: Option<bool>,
    reason: Option<String>,
) -> (r: Result<AcquireRequest, McpError>)
    ensures
        is_request_verdict(
            r,
            project_key,
            agent_name,
            canonical,
            paths,
            ttl_seconds,
            exclusive,
            reason,
        ),
{
    let agent_name = canonical_name(canonical, agent_name);
    if paths.len() == 0 {
        let data = with(json_object(), "provided", json_texts(&paths));
        return Err(
            legacy_tool_error(
                "EMPTY_PATHS",
                "paths list cannot be empty. Provide at least one file path or glob pattern to reserve (e.g., ['src/api/*.py', 'config/settings.yaml']).",
                true,
                data,
            ),
        );
    }
    let ttl: i64 = match ttl_seconds {
        None => 3600,
        Some(t) => if t < 60 {
            60
        } else if t > 31_536_000 {
            31_536_000
        } else {
            t
        },
    };
    let exclusive = match exclusive {
        Some(e) => e,
        None => true,
    };
    let reason = match reason {
        Some(text) => text,
        None => String::new(),
    };
    Ok(AcquireRequest { project_key, agent_name, paths, ttl, exclusive, reason })
}

/// A request whose project is known. It waits for what the pattern engine says
/// of `run.relatives`.
#[derive(Debug, Clone)]
pub struct AcquirePaths {
    pub request: AcquireRequest,
    pub project: ProjectRow,
    pub run: RelativePaths,
}

/// The data of the error about too many paths.
pub open spec fn too_many_tree(count: int) -> JsonTree {
    JsonTree::Object(map!["count"@ => JsonTree::Int(count), "max"@ => JsonTree::Int(200)])
}

/// What is said against the first pattern that is too broad, empty or absolute,
/// if one is.
pub open spec fn first_suspicion(
    paths: Seq<String>,
    facts: Seq<PatternFacts>,
    machine: Machine,
) -> Option<Seq<char>>
    decreases paths.len(),
{
    if paths.len() == 0 {
        None
    } else {
        match first_suspicion(paths.drop_last(), facts, machine) {
            Some(message) => Some(message),
            None => suspicion(
                paths.last()@,
                facts[paths.len() - 1].normalized@,
                absolute_on(paths.last()@, machine),
            ),
        }
    }
}

proof fn first_suspicion_of_prefix(
    paths: Seq<String>,
    facts: Seq<PatternFacts>,
    machine: Machine,
    n: int,
)
    requires
        0 <= n <= paths.len(),
        first_suspicion(paths.take(n), facts, machine) is Some,
    ensures
        first_suspicion(paths, facts, machine) == first_suspicion(paths.take(n), facts, machine),
    decreases paths.len(),
{
    if n == paths.len() {
        assert(paths.take(n) =~= paths);
    } else {
        assert(paths.drop_last().take(n) =~= paths.take(n));
        first_suspicion_of_prefix(paths.drop_last(), facts, machine, n);
    }
}

fn find_suspicion(
    paths: &Vec<String>,
    facts: &Vec<PatternFacts>,
    machine: &Machine,
) -> (r: Option<String>)
    requires
        facts@.len() == paths@.len(),
    ensures
        optional_view(r) == first_suspicion(paths@, facts@, *machine),
{
    let mut i: usize = 0;
    while i < paths.len()
        invariant
            i <= paths.len(),
            facts@.len() == paths@.len(),
            first_suspicion(paths@.take(i as int), facts@, *machine) is None,
        decreases paths.len() - i,
    {
        proof {
            assert(paths@.take(i + 1).drop_last() =~= paths@.take(i as int));
        }
        let found = detect_suspicious_file_reservation(
            paths[i].as_str(),
            facts[i].normalized.as_str(),
            machine,
        );
        if found.is_some() {
            proof {
                first_suspicion_of_prefix(paths@, facts@, *machine, i + 1);
            }
            return found;
        }
        i = i + 1;
    }
    proof {
        assert(paths@.take(paths.len() as int) =~= paths@);
    }
    None
}

/// Whether `r` is what a request becomes once its project is known: too many
/// paths or a suspicious one end it.
pub open spec fn is_project_verdict(
    r: Result<AcquirePaths, McpError>,
    request: AcquireRequest,
    project: ProjectRow,
    facts: Seq<PatternFacts>,
    machine: Machine,
) -> bool {
    if request.paths@.len() > 200 {
        r is Err && is_tool_error(
            r->Err_0,
            "TOO_MANY_PATHS"@,
            "Maximum 200 paths per reservation call, got "@ + decimal(
                request.paths@.len() as int,
            ),
            true,
            too_many_tree(request.paths@.len() as int),
        )
    } else {
        match first_suspicion(request.paths@, facts, machine) {
            Some(message) => r is Err && is_tool_error(
                r->Err_0,
                "SUSPICIOUS_PATTERN"@,
                message,
                true,
                reason_tree("suspicious_pattern"@),
            ),
            None => r matches Ok(next) && {
                &&& next.request == request
                &&& next.project == project
                &&& is_relative_run(next.run, project.human_key@, request.paths@, machine)
            },
        }
    }
}

impl AcquireRequest {
    /// Takes the project, and what the pattern engine says of the paths as they
    /// are written, one by one.
    pub fn for_project(
        self,
        project: ProjectRow,
        facts: &Vec<PatternFacts>,
        machine: &Machine,
    ) -> (r: Result<AcquirePaths, McpError>)
        requires
            facts@.len() == self.paths@.len(),
        ensures
            is_project_verdict(r, self, project, facts@, *machine),
    {
        if self.paths.len() > 200 {
            let count: u64 = self.paths.len() as u64;
            let data = with(json_object(), "count", json_count(count));
            let data = with(data, "max", json_int(200));
            let message = "Maximum 200 paths per reservation call, got ".to_owned().concat(
                unsigned_text(count).as_str(),
            );
            return Err(legacy_tool_error("TOO_MANY_PATHS", message.as_str(), true, data));
        }
        if let Some(message) = find_suspicion(&self.paths, facts, machine) {
            return Err(
                legacy_tool_error(
                    "SUSPICIOUS_PATTERN",
                    message.as_str(),
                    true,
                    reason_data("suspicious_pattern"),
                ),
            );
        }
        let run = relative_paths(project.human_key.as_str(), &self.paths, machine);
        Ok(AcquirePaths { request: self, project, run })
    }
}

/// A request whose paths can be reserved. It waits for its agent, and then for
/// the active reservations of the project.
#[derive(Debug, Clone)]
pub struct AcquireAgent {
    pub request: AcquireRequest,
    pub project: ProjectRow,
    pub wanted: Vec<String>,
}

/// What is said of a path that is the project itself.
pub open spec fn reserve_root_message() -> Seq<char> {
    "Cannot reserve the project root directory itself. Please use more specific patterns."@
}

/// Whether `r` is what a request becomes once its paths were judged.
pub open spec fn is_wanted_verdict(
    r: Result<AcquireAgent, McpError>,
    paths: AcquirePaths,
    facts: Seq<PatternFacts>,
) -> bool {
    match r {
        Ok(next) => {
            &&& is_usable_paths(Ok(next.wanted), paths.run, facts, reserve_root_message())
            &&& next.request == paths.request
            &&& next.project == paths.project
        },
        Err(error) => is_usable_paths(Err(error), paths.run, facts, reserve_root_message()),
    }
}

impl AcquirePaths {
    /// Takes what the pattern engine says of the relative paths, one by one.
    pub fn judge(self, facts: &Vec<PatternFacts>) -> (r: Result<AcquireAgent, McpError>)
        requires
            facts@.len() == self.run.relatives@.len(),
        ensures
            is_wanted_verdict(r, self, facts@),
    {
        match usable_paths(
            self.run,
            facts,
            "Cannot reserve the project root directory itself. Please use more specific patterns.",
        ) {
            Ok(wanted) => Ok(
                AcquireAgent { request: self.request, project: self.project, wanted },
            ),
            Err(error) => Err(error),
        }
    }
}

/// A request that waits for the pattern engine to say, of each of `wanted` and
/// each of `active`, whether their patterns overlap.
#[derive(Debug, Clone)]
pub struct AcquireMatch {
    pub request: AcquireRequest,
    pub project: ProjectRow,
    pub agent: AgentRow,
    pub wanted: Vec<String>,
    pub active: Vec<FileReservationRow>,
}

/// A request whose active reservations were read. Before it goes on, the archive is
/// brought up to the database: it waits for the agents of the project, and for what
/// the artifacts of the active reservations say.
#[derive(Debug, Clone)]
pub struct AcquireHeal {
    pub matching: AcquireMatch,
}

/// Whether `r` is what a request becomes once the active reservations were read.
pub open spec fn is_active_verdict(
    r: Result<AcquireHeal, McpError>,
    waiting: AcquireAgent,
    agent: AgentRow,
    out: DbOutcome<Vec<FileReservationRow>>,
) -> bool {
    match out {
        DbOutcome::Done(active) => r matches Ok(next) && {
            &&& next.matching.request == waiting.request
            &&& next.matching.project == waiting.project
            &&& next.matching.agent == agent
            &&& texts(next.matching.wanted@) == distinct(texts(waiting.wanted@))
            &&& next.matching.active == active
        },
        _ => r is Err && is_acquire_outcome::<Vec<FileReservationRow>>(
            Err(r->Err_0),
            out,
            waiting.request.paths@,
            "file_reservation_paths"@,
        ),
    }
}

impl AcquireAgent {
    /// Takes the agent and the active reservations of the project. If they
    /// cannot be read, no path may be edited.
    pub fn with_active(self, agent: AgentRow, out: DbOutcome<Vec<FileReservationRow>>) -> (r: Result<
        AcquireHeal,
        McpError,
    >)
        ensures
            is_active_verdict(r, self, agent, out),
    {
        match acquire_outcome(out, &self.request.paths, "file_reservation_paths") {
            Ok(active) => {
                let wanted = distinct_paths(&self.wanted);
                Ok(
                    AcquireHeal {
                        matching: AcquireMatch {
                            request: self.request,
                            project: self.project,
                            agent,
                            wanted,
                            active,
                        },
                    },
                )
            },
            Err(error) => Err(error),
        }
    }
}

/// A request whose active reservations were reconciled. It waits for the released
/// reservations that have not expired, and for what their artifacts say.
#[derive(Debug, Clone)]
pub struct AcquireHealReleased {
    pub matching: AcquireMatch,
    pub names: HashMap<i64, String>,
}

/// What a request waits for after its active reservations were reconciled.
#[derive(Debug, Clone)]
pub enum AcquireHealNext {
    Released(AcquireHealReleased),
    Match(AcquireMatch),
}

/// What follows the reconciliation of the active reservations, and the write to the
/// archive that is due.
#[derive(Debug, Clone)]
pub struct AcquireHealed {
    pub write: Option<ArchiveWrite>,
    pub next: AcquireHealNext,
}

/// What follows the reconciliation of the released reservations, and the write to the
/// archive that is due.
#[derive(Debug, Clone)]
pub struct AcquireReconciled {
    pub write: Option<ArchiveWrite>,
    pub matching: AcquireMatch,
}

/// Whether `healed` is what follows the reconciliation of the active reservations of
/// `matching`: the write that brings their artifacts up to the database, and then the
/// released reservations. Where the agents could not be read, the request goes on
/// without.
pub open spec fn is_healed_step(
    healed: AcquireHealed,
    matching: AcquireMatch,
    agents: DbOutcome<Vec<AgentRow>>,
    present: Map<i64, ArchiveReservationView>,
) -> bool {
    match agents {
        DbOutcome::Done(list) => {
            &&& writes_any_records(
                healed.write,
                matching.project.slug@,
                active_heals(
                    matching.project.human_key@,
                    matching.active@,
                    names_of(list@),
                    present,
                ),
                "reservation archive reconcile-on-read project="@ + matching.project.slug@,
            )
            &&& healed.next matches AcquireHealNext::Released(next)
            &&& next.matching == matching
            &&& next.names@ == names_of(list@)
        },
        _ => healed.write is None && healed.next == AcquireHealNext::Match(matching),
    }
}

impl AcquireHeal {
    /// Takes the agents of the project, and what the artifacts of the active
    /// reservations say.
    pub fn with_agents(
        self,
        agents: DbOutcome<Vec<AgentRow>>,
        present: &BTreeMap<i64, ArchiveReservationView>,
    ) -> (r: AcquireHealed)
        ensures
            is_healed_step(r, self.matching, agents, present@),
    {
        let heal = heal_active(&self.matching.project, &self.matching.active, &agents, present);
        let next = match heal.names {
            Some(names) => AcquireHealNext::Released(
                AcquireHealReleased { matching: self.matching, names },
            ),
            None => AcquireHealNext::Match(self.matching),
        };
        AcquireHealed { write: heal.write, next }
    }
}

impl AcquireHealReleased {
    /// Takes the released reservations that have not expired, and what their artifacts
    /// say.
    pub fn with_released(
        self,
        out: DbOutcome<Vec<FileReservationRow>>,
        present: &BTreeMap<i64, ArchiveReservationView>,
    ) -> (r: AcquireReconciled)
        ensures
            r.matching == self.matching,
            is_release_heal(r.write, self.matching.project, self.names@, out, present@),
    {
        let write = heal_released(&self.matching.project, &self.names, &out, present);
        AcquireReconciled { write, matching: self.matching }
    }
}

/// A request that goes on brings the archive up to the database: it writes the
/// artifact of each active reservation with a known holder whose artifact is missing
/// or diverges, and of each released one whose artifact says that it is still held.
pub proof fn acquire_heals_archive(
    healed: AcquireHealed,
    matching: AcquireMatch,
    agents: Vec<AgentRow>,
    present: Map<i64, ArchiveReservationView>,
    write: Option<ArchiveWrite>,
    released: Vec<FileReservationRow>,
    released_present: Map<i64, ArchiveReservationView>,
)
    requires
        is_healed_step(healed, matching, DbOutcome::Done(agents), present),
        is_release_heal(
            write,
            matching.project,
            names_of(agents@),
            DbOutcome::Done(released),
            released_present,
        ),
    ensures
        forall|k: int|
            0 <= k < matching.active@.len() && needs_active_heal(
                #[trigger] matching.active@[k],
                names_of(agents@),
                present,
            ) ==> writes_record(
                healed.write,
                active_record(
                    matching.project.human_key@,
                    names_of(agents@)[matching.active@[k].agent_id]@,
                    matching.active@[k],
                ),
            ),
        forall|k: int|
            0 <= k < released@.len() && needs_release_heal(
                #[trigger] released@[k],
                names_of(agents@),
                released_present,
            ) ==> writes_record(
                write,
                released_record(
                    matching.project.human_key@,
                    names_of(agents@)[released@[k].agent_id]@,
                    released@[k],
                ),
            ),
{
    heals_are_written(
        healed.write,
        write,
        matching.project,
        matching.active@,
        names_of(agents@),
        present,
        released@,
        released_present,
    );
}

/// Whether the reservation of `row` stands in the way of a request of the agent:
/// it is another agent's, and one of the two is exclusive.
pub open spec fn blocks(row: FileReservationRow, agent_id: i64, exclusive: bool) -> bool {
    row.agent_id != agent_id && (exclusive || row.exclusive != 0)
}

/// The holder of a conflicting reservation before its name is known, as plain
/// values.
pub struct PendingView {
    pub agent_id: i64,
    pub path_pattern: Seq<char>,
    pub exclusive: bool,
    pub expires_ts: Seq<char>,
}

impl View for PendingConflictHolder {
    type V = PendingView;

    open spec fn view(&self) -> PendingView {
        PendingView {
            agent_id: self.agent_id,
            path_pattern: self.path_pattern@,
            exclusive: self.exclusive,
            expires_ts: self.expires_ts@,
        }
    }
}

/// Pending holders as plain values.
pub open spec fn pending_views(holders: Seq<PendingConflictHolder>) -> Seq<PendingView> {
    holders.map_values(|holder: PendingConflictHolder| holder@)
}

/// A requested path and the ids of its holders, as plain values.
pub struct PendingPathView {
    pub path: Seq<char>,
    pub holders: Seq<PendingView>,
}

impl View for PendingReservationConflict {
    type V = PendingPathView;

    open spec fn view(&self) -> PendingPathView {
        PendingPathView { path: self.path@, holders: pending_views(self.holders@) }
    }
}

/// Pending conflicts as plain values.
pub open spec fn pending_path_views(
    pending: Seq<PendingReservationConflict>,
) -> Seq<PendingPathView> {
    pending.map_values(|conflict: PendingReservationConflict| conflict@)
}

/// The holder of the reservation of `row`.
pub open spec fn pending_of(row: FileReservationRow) -> PendingView {
    PendingView {
        agent_id: row.agent_id,
        path_pattern: row.path_pattern@,
        exclusive: row.exclusive != 0,
        expires_ts: row.expires_ts.iso@,
    }
}

/// The order in which pending holders are listed: by agent, by pattern, shared
/// before exclusive, by expiry.
pub open spec fn pending_before(a: PendingView, b: PendingView) -> bool {
    if a.agent_id != b.agent_id {
        a.agent_id < b.agent_id
    } else if a.path_pattern != b.path_pattern {
        text_before(a.path_pattern, b.path_pattern)
    } else if a.exclusive != b.exclusive {
        b.exclusive
    } else {
        text_before(a.expires_ts, b.expires_ts)
    }
}

/// `list`, which is in order, with `item` after all that come before it.
pub open spec fn pending_placed(list: Seq<PendingView>, item: PendingView) -> Seq<PendingView>
    decreases list.len(),
{
    if list.len() > 0 && pending_before(list[0], item) {
        seq![list[0]] + pending_placed(list.drop_first(), item)
    } else {
        seq![item] + list
    }
}

/// The holders of the reservations that stand in the way of a path, in order.
/// `row` says of each of `active` whether it overlaps the path.
pub open spec fn blocking(
    active: Seq<FileReservationRow>,
    agent_id: i64,
    exclusive: bool,
    row: Seq<bool>,
) -> Seq<PendingView>
    decreases row.len(),
{
    if row.len() == 0 {
        Seq::empty()
    } else {
        let before = blocking(active, agent_id, exclusive, row.drop_last());
        let k = row.len() - 1;
        if row[k] && blocks(active[k], agent_id, exclusive) {
            pending_placed(before, pending_of(active[k]))
        } else {
            before
        }
    }
}

proof fn pending_placed_after(list: Seq<PendingView>, item: PendingView, n: int)
    requires
        0 <= n <= list.len(),
        forall|i: int| 0 <= i < n ==> pending_before(#[trigger] list[i], item),
        n < list.len() ==> !pending_before(list[n], item),
    ensures
        pending_placed(list, item) == list.take(n) + (seq![item] + list.skip(n)),
    decreases n,
{
    if n == 0 {
        assert(list.skip(0) =~= list);
        assert(list.take(0) + (seq![item] + list.skip(0)) =~= seq![item] + list);
    } else {
        let rest = list.drop_first();
        assert(pending_before(list[0], item));
        assert forall|i: int| 0 <= i < n - 1 implies pending_before(#[trigger] rest[i], item) by {
            assert(rest[i] == list[i + 1]);
        }
        pending_placed_after(rest, item, n - 1);
        assert(rest.skip(n - 1) =~= list.skip(n));
        assert(seq![list[0]] + (rest.take(n - 1) + (seq![item] + list.skip(n))) =~= list.take(n)
            + (seq![item] + list.skip(n)));
    }
}

fn is_pending_before(a: &PendingConflictHolder, b: &PendingConflictHolder) -> (r: bool)
    ensures
        r == pending_before(a@, b@),
{
    if a.agent_id != b.agent_id {
        return a.agent_id < b.agent_id;
    }
    if !same_text(a.path_pattern.as_str(), b.path_pattern.as_str()) {
        return before(a.path_pattern.as_str(), b.path_pattern.as_str());
    }
    if a.exclusive != b.exclusive {
        return b.exclusive;
    }
    before(a.expires_ts.as_str(), b.expires_ts.as_str())
}

fn place_pending(list: &mut Vec<PendingConflictHolder>, item: PendingConflictHolder)
    ensures
        pending_views(final(list)@) == pending_placed(pending_views(old(list)@), item@),
{
    let ghost start = list@;
    let mut n: usize = 0;
    while n < list.len() && is_pending_before(&list[n], &item)
        invariant
            list@ == start,
            n <= list.len(),
            forall|i: int|
                0 <= i < n ==> pending_before(#[trigger] pending_views(start)[i], item@),
        ensures
            list@ == start,
            n <= start.len(),
            forall|i: int|
                0 <= i < n ==> pending_before(#[trigger] pending_views(start)[i], item@),
            n < start.len() ==> !pending_before(pending_views(start)[n as int], item@),
        decreases list.len() - n,
    {
        n = n + 1;
    }
    list.insert(n, item);
    proof {
        let views = pending_views(start);
        pending_placed_after(views, item@, n as int);
        assert(pending_views(list@) =~= views.take(n as int) + (seq![item@] + views.skip(
            n as int,
        )));
    }
}

fn is_blocking(row: &FileReservationRow, agent_id: i64, exclusive: bool) -> (r: bool)
    ensures
        r == blocks(*row, agent_id, exclusive),
{
    row.agent_id != agent_id && (exclusive || row.exclusive != 0)
}

fn find_blocking(
    active: &Vec<FileReservationRow>,
    agent_id: i64,
    exclusive: bool,
    row: &Vec<bool>,
) -> (r: Vec<PendingConflictHolder>)
    requires
        row@.len() == active@.len(),
    ensures
        pending_views(r@) == blocking(active@, agent_id, exclusive, row@),
{
    let mut list: Vec<PendingConflictHolder> = Vec::new();
    let mut i: usize = 0;
    proof {
        assert(pending_views(list@) =~= Seq::empty());
    }
    while i < row.len()
        invariant
            i <= row.len(),
            row@.len() == active@.len(),
            pending_views(list@) == blocking(active@, agent_id, exclusive, row@.take(i as int)),
        decreases row.len() - i,
    {
        proof {
            assert(row@.take(i + 1).drop_last() =~= row@.take(i as int));
        }
        let held = &active[i];
        if row[i] && is_blocking(held, agent_id, exclusive) {
            let item = PendingConflictHolder {
                agent_id: held.agent_id,
                path_pattern: held.path_pattern.clone(),
                exclusive: held.exclusive != 0,
                expires_ts: held.expires_ts.iso.clone(),
            };
            place_pending(&mut list, item);
        }
        i = i + 1;
    }
    proof {
        assert(row@.take(row.len() as int) =~= row@);
    }
    list
}

/// Whether `overlaps` says of each of `wanted` and each of `active` whether they
/// overlap.
pub open spec fn answers_active(
    overlaps: Seq<Vec<bool>>,
    wanted: nat,
    active: Seq<FileReservationRow>,
) -> bool {
    &&& overlaps.len() == wanted
    &&& forall|i: int| 0 <= i < overlaps.len() ==> (#[trigger] overlaps[i])@.len() == active.len()
}

/// What becomes of the first paths of a request.
pub struct PlanView {
    pub grant: Seq<Seq<char>>,
    pub pending: Seq<PendingPathView>,
}

/// What becomes of the first `n` paths of a request: one that no reservation
/// stands in the way of is granted, another one is in conflict.
pub open spec fn plan_for(
    wanted: Seq<String>,
    active: Seq<FileReservationRow>,
    agent_id: i64,
    exclusive: bool,
    overlaps: Seq<Vec<bool>>,
    n: int,
) -> PlanView
    decreases n,
{
    if n <= 0 {
        PlanView { grant: Seq::empty(), pending: Seq::empty() }
    } else {
        let before = plan_for(wanted, active, agent_id, exclusive, overlaps, n - 1);
        let holders = blocking(active, agent_id, exclusive, overlaps[n - 1]@);
        let path = wanted[n - 1]@;
        if holders.len() == 0 {
            PlanView { grant: before.grant.push(path), ..before }
        } else {
            PlanView { pending: before.pending.push(PendingPathView { path, holders }), ..before }
        }
    }
}

/// A request with conflicts. It waits for the agents of the project, for their
/// names.
pub struct AcquireConflicts {
    pub request: AcquireRequest,
    pub project: ProjectRow,
    pub agent: AgentRow,
    pub grant: GrantList,
    pub pending: Vec<PendingReservationConflict>,
}

/// A request that waits for the reservations on `grant` to be created.
pub struct AcquireGrant {
    pub request: AcquireRequest,
    pub project: ProjectRow,
    pub agent: AgentRow,
    pub grant: GrantList,
    pub conflicts: Vec<ReservationConflict>,
}

/// The answer to a request, and the write to the archive that is due.
#[derive(Debug, Clone)]
pub struct AcquireAnswer {
    pub response: ReservationResponse,
    pub write: Option<ArchiveWrite>,
}

/// What a request waits for next.
pub enum AcquireNext {
    NameHolders(AcquireConflicts),
    Create(AcquireGrant),
    Answer(AcquireAnswer),
}

/// How a granted reservation is answered.
pub open spec fn is_granted(granted: GrantedReservation, row: FileReservationRow) -> bool {
    &&& granted.id == id_or_zero(row.id)
    &&& granted.path_pattern@ == row.path_pattern@
    &&& granted.exclusive == (row.exclusive != 0)
    &&& granted.reason@ == row.reason@
    &&& granted.expires_ts@ == row.expires_ts.iso@
}

/// Whether `answer` grants the reservations `rows`, reports `conflicts`, and
/// writes the artifacts of what it grants.
pub open spec fn is_answer(
    answer: AcquireAnswer,
    project: ProjectRow,
    agent: AgentRow,
    rows: Seq<FileReservationRow>,
    conflicts: Seq<ReservationConflict>,
) -> bool {
    &&& answer.response.granted@.len() == rows.len()
    &&& forall|i: int|
        #![trigger answer.response.granted@[i]]
        0 <= i < rows.len() ==> is_granted(answer.response.granted@[i], rows[i])
    &&& answer.response.conflicts@ == conflicts
    &&& writes_any_records(
        answer.write,
        project.slug@,
        active_records(project.human_key@, agent.name@, rows),
        "reservation archive write project="@ + project.slug@,
    )
}

fn answer_with(
    project: &ProjectRow,
    agent: &AgentRow,
    rows: &Vec<FileReservationRow>,
    conflicts: Vec<ReservationConflict>,
) -> (r: AcquireAnswer)
    ensures
        is_answer(r, *project, *agent, rows@, conflicts@),
{
    let mut granted: Vec<GrantedReservation> = Vec::new();
    let mut i: usize = 0;
    while i < rows.len()
        invariant
            i <= rows.len(),
            granted.len() == i,
            forall|k: int|
                #![trigger granted@[k]]
                0 <= k < i ==> is_granted(granted@[k], rows@[k]),
        decreases rows.len() - i,
    {
        let row = &rows[i];
        granted.push(
            GrantedReservation {
                id: row_id(row.id),
                path_pattern: row.path_pattern.clone(),
                exclusive: row.exclusive != 0,
                reason: row.reason.clone(),
                expires_ts: row.expires_ts.iso.clone(),
            },
        );
        i = i + 1;
    }
    let records = active_artifacts(project.human_key.as_str(), agent.name.as_str(), rows);
    let write = archive_write(project, records, "reservation archive write project=");
    AcquireAnswer { response: ReservationResponse { granted, conflicts }, write }
}

/// Whether `next` goes on with this grant: it is created, or there is nothing to
/// grant and the request is answered.
pub open spec fn is_grant_step(
    next: AcquireNext,
    request: AcquireRequest,
    project: ProjectRow,
    agent: AgentRow,
    grant: Seq<Seq<char>>,
    conflicts: Seq<ConflictView>,
) -> bool {
    if grant.len() == 0 {
        next matches AcquireNext::Answer(answer) && {
            &&& is_answer(answer, project, agent, Seq::empty(), answer.response.conflicts@)
            &&& conflict_views(answer.response.conflicts@) == conflicts
        }
    } else {
        next matches AcquireNext::Create(waiting) && {
            &&& waiting.request == request
            &&& waiting.project == project
            &&& waiting.agent == agent
            &&& waiting.grant@ == grant
            &&& conflict_views(waiting.conflicts@) == conflicts
        }
    }
}

fn grant_step(
    request: AcquireRequest,
    project: ProjectRow,
    agent: AgentRow,
    grant: GrantList,
    conflicts: Vec<ReservationConflict>,
) -> (r: AcquireNext)
    ensures
        is_grant_step(r, request, project, agent, grant@, conflict_views(conflicts@)),
{
    if grant.is_empty() {
        let nothing: Vec<FileReservationRow> = Vec::new();
        let answer = answer_with(&project, &agent, &nothing, conflicts);
        proof {
            assert(nothing@ =~= Seq::empty());
        }
        AcquireNext::Answer(answer)
    } else {
        AcquireNext::Create(AcquireGrant { request, project, agent, grant, conflicts })
    }
}

/// Whether `next` is what a request waits for once it was matched.
pub open spec fn is_plan_step(next: AcquireNext, matching: AcquireMatch, overlaps: Seq<Vec<bool>>) -> bool {
    let plan = plan_for(
        matching.wanted@,
        matching.active@,
        id_or_zero(matching.agent.id),
        matching.request.exclusive,
        overlaps,
        matching.wanted@.len() as int,
    );
    if plan.pending.len() == 0 {
        is_grant_step(
            next,
            matching.request,
            matching.project,
            matching.agent,
            plan.grant,
            Seq::empty(),
        )
    } else {
        next matches AcquireNext::NameHolders(waiting) && {
            &&& waiting.request == matching.request
            &&& waiting.project == matching.project
            &&& waiting.agent == matching.agent
            &&& waiting.grant@ == plan.grant
            &&& pending_path_views(waiting.pending@) == plan.pending
        }
    }
}

impl AcquireMatch {
    /// Decides which paths are granted. `overlaps` says of each of `wanted` and
    /// each of `active` whether they overlap.
    pub fn decide(self, overlaps: &Vec<Vec<bool>>) -> (r: AcquireNext)
        requires
            answers_active(overlaps@, self.wanted@.len(), self.active@),
        ensures
            is_plan_step(r, self, overlaps@),
    {
        let agent_id = row_id(self.agent.id);
        let exclusive = self.request.exclusive;
        let mut grant = grant_list();
        let mut pending: Vec<PendingReservationConflict> = Vec::new();
        let mut i: usize = 0;
        proof {
            assert(pending_path_views(pending@) =~= Seq::empty());
        }
        while i < self.wanted.len()
            invariant
                i <= self.wanted.len(),
                answers_active(overlaps@, self.wanted@.len(), self.active@),
                ({
                    let plan = plan_for(
                        self.wanted@,
                        self.active@,
                        agent_id,
                        exclusive,
                        overlaps@,
                        i as int,
                    );
                    &&& grant_items(grant) == plan.grant
                    &&& pending_path_views(pending@) == plan.pending
                }),
            decreases self.wanted.len() - i,
        {
            proof {
                assert(overlaps@[i as int]@.len() == self.active@.len());
            }
            let holders = find_blocking(&self.active, agent_id, exclusive, &overlaps[i]);
            let ghost views = pending_views(holders@);
            proof {
                assert(views.len() == holders@.len());
            }
            if holders.len() == 0 {
                grant_push(&mut grant, self.wanted[i].clone());
            } else {
                let ghost had = pending_path_views(pending@);
                let conflict = PendingReservationConflict {
                    path: self.wanted[i].clone(),
                    holders,
                };
                pending.push(conflict);
                proof {
                    assert(pending_path_views(pending@) =~= had.push(conflict@));
                }
            }
            i = i + 1;
        }
        if pending.len() == 0 {
            let conflicts: Vec<ReservationConflict> = Vec::new();
            proof {
                assert(conflict_views(conflicts@) =~= Seq::empty());
            }
            grant_step(self.request, self.project, self.agent, grant, conflicts)
        } else {
            AcquireNext::NameHolders(
                AcquireConflicts {
                    request: self.request,
                    project: self.project,
                    agent: self.agent,
                    grant,
                    pending,
                },
            )
        }
    }
}

/// The name by which a holder is reported: its own, or one made from its id.
pub open spec fn display_name(names: Map<i64, String>, agent_id: i64) -> Seq<char> {
    if names.contains_key(agent_id) {
        names[agent_id]@
    } else {
        "agent_"@ + decimal(agent_id as int)
    }
}

fn display(names: &HashMap<i64, String>, agent_id: i64) -> (r: String)
    ensures
        r@ == display_name(names@, agent_id),
{
    broadcast use vstd::std_specs::hash::group_hash_axioms;

    match names.get(&agent_id) {
        Some(name) => name.clone(),
        None => "agent_".to_owned().concat(signed_text(agent_id).as_str()),
    }
}

/// A pending holder with its name.
pub open spec fn named_holder(names: Map<i64, String>, holder: PendingView) -> HolderView {
    HolderView {
        agent: display_name(names, holder.agent_id),
        path_pattern: holder.path_pattern,
        exclusive: holder.exclusive,
        expires_ts: holder.expires_ts,
    }
}

/// A pending conflict with the names of its holders.
pub open spec fn named_conflict(names: Map<i64, String>, conflict: PendingPathView) -> ConflictView {
    ConflictView {
        path: conflict.path,
        holders: conflict.holders.map_values(|holder: PendingView| named_holder(names, holder)),
    }
}

fn name_conflict(names: &HashMap<i64, String>, conflict: &PendingReservationConflict) -> (r:
    ReservationConflict)
    ensures
        r@ == named_conflict(names@, conflict@),
{
    let mut holders: Vec<ConflictHolder> = Vec::new();
    let mut i: usize = 0;
    while i < conflict.holders.len()
        invariant
            i <= conflict.holders.len(),
            holders.len() == i,
            forall|k: int|
                0 <= k < i ==> (#[trigger] holders@[k])@ == named_holder(
                    names@,
                    conflict.holders@[k]@,
                ),
        decreases conflict.holders.len() - i,
    {
        let holder = &conflict.holders[i];
        holders.push(
            ConflictHolder {
                agent: display(names, holder.agent_id),
                path_pattern: holder.path_pattern.clone(),
                exclusive: holder.exclusive,
                expires_ts: holder.expires_ts.clone(),
            },
        );
        i = i + 1;
    }
    proof {
        assert(holder_views(holders@) =~= pending_views(conflict.holders@).map_values(
            |holder: PendingView| named_holder(names@, holder),
        ));
    }
    ReservationConflict { path: conflict.path.clone(), holders }
}

/// The pending conflicts with the names of their holders.
pub open spec fn named_conflicts(
    names: Map<i64, String>,
    pending: Seq<PendingPathView>,
) -> Seq<ConflictView> {
    pending.map_values(|conflict: PendingPathView| named_conflict(names, conflict))
}

/// Whether `r` is what a request with conflicts becomes once the agents were
/// read.
pub open spec fn is_named_step(
    r: Result<AcquireNext, McpError>,
    waiting: AcquireConflicts,
    out: DbOutcome<Vec<AgentRow>>,
) -> bool {
    match out {
        DbOutcome::Done(agents) => r matches Ok(next) && is_grant_step(
            next,
            waiting.request,
            waiting.project,
            waiting.agent,
            waiting.grant@,
            named_conflicts(names_of(agents@), pending_path_views(waiting.pending@)),
        ),
        _ => r == Err::<AcquireNext, McpError>(outcome_error(out)),
    }
}

impl AcquireConflicts {
    /// Takes the agents of the project, and names the holders.
    pub fn with_agents(self, out: DbOutcome<Vec<AgentRow>>) -> (r: Result<AcquireNext, McpError>)
        ensures
            is_named_step(r, self, out),
    {
        let agents = match db_outcome_to_mcp_result(out) {
            Ok(agents) => agents,
            Err(error) => return Err(error),
        };
        let names = agent_names(&agents);
        let mut conflicts: Vec<ReservationConflict> = Vec::new();
        let mut i: usize = 0;
        while i < self.pending.len()
            invariant
                i <= self.pending.len(),
                conflicts.len() == i,
                forall|k: int|
                    0 <= k < i ==> (#[trigger] conflicts@[k])@ == named_conflict(
                        names@,
                        self.pending@[k]@,
                    ),
            decreases self.pending.len() - i,
        {
            conflicts.push(name_conflict(&names, &self.pending[i]));
            i = i + 1;
        }
        proof {
            assert(conflict_views(conflicts@) =~= named_conflicts(
                names@,
                pending_path_views(self.pending@),
            ));
        }
        Ok(grant_step(self.request, self.project, self.agent, self.grant, conflicts))
    }
}

/// What follows the creation of reservations.
pub enum AcquireCreated {
    Answer(AcquireAnswer),
    /// The database knew of a conflict: the active reservations are to be read
    /// anew.
    Recheck(AcquireGrant),
}

/// Whether `r` is what follows the creation of the reservations of `waiting`,
/// which ended as `out` says.
pub open spec fn is_created_step(
    r: Result<AcquireCreated, McpError>,
    waiting: AcquireGrant,
    out: DbOutcome<Vec<FileReservationRow>>,
) -> bool {
    match out {
        DbOutcome::Done(rows) => r matches Ok(AcquireCreated::Answer(answer)) && is_answer(
            answer,
            waiting.project,
            waiting.agent,
            rows@,
            waiting.conflicts@,
        ),
        _ => if out matches DbOutcome::Failed(failure) && failure.kind
            == DbErrorKind::ResourceBusy {
            r == Ok::<AcquireCreated, McpError>(AcquireCreated::Recheck(waiting))
        } else {
            r is Err && is_acquire_outcome::<Vec<FileReservationRow>>(
                Err(r->Err_0),
                out,
                waiting.request.paths@,
                "file_reservation_paths"@,
            )
        },
    }
}

impl AcquireGrant {
    /// Takes how the creation of the reservations ended.
    pub fn created(self, out: DbOutcome<Vec<FileReservationRow>>) -> (r: Result<
        AcquireCreated,
        McpError,
    >)
        ensures
            is_created_step(r, self, out),
    {
        let busy = match &out {
            DbOutcome::Failed(failure) => failure.kind == DbErrorKind::ResourceBusy,
            _ => false,
        };
        if busy {
            return Ok(AcquireCreated::Recheck(self));
        }
        match acquire_outcome(out, &self.request.paths, "file_reservation_paths") {
            Ok(rows) => Ok(
                AcquireCreated::Answer(
                    answer_with(&self.project, &self.agent, &rows, self.conflicts),
                ),
            ),
            Err(error) => Err(error),
        }
    }

    /// Takes the active reservations anew, after the database knew of a conflict.
    pub fn reread(self, out: DbOutcome<Vec<FileReservationRow>>) -> (r: Result<
        AcquireRecheck,
        McpError,
    >)
        ensures
            match out {
                DbOutcome::Done(active) => r == Ok::<AcquireRecheck, McpError>(
                    AcquireRecheck { waiting: self, active },
                ),
                _ => r == Err::<AcquireRecheck, McpError>(outcome_error(out)),
            },
    {
        match db_outcome_to_mcp_result(out) {
            Ok(active) => Ok(AcquireRecheck { waiting: self, active }),
            Err(error) => Err(error),
        }
    }
}

/// A request that the database refused. It waits for the agents of the project.
pub struct AcquireRecheck {
    pub waiting: AcquireGrant,
    pub active: Vec<FileReservationRow>,
}

impl AcquireRecheck {
    /// Takes the agents of the project.
    pub fn with_agents(self, out: DbOutcome<Vec<AgentRow>>) -> (r: Result<
        AcquireRecheckMatch,
        McpError,
    >)
        ensures
            match out {
                DbOutcome::Done(agents) => r matches Ok(next) && {
                    &&& next.waiting == self.waiting
                    &&& next.active == self.active
                    &&& next.names@ == names_of(agents@)
                },
                _ => r == Err::<AcquireRecheckMatch, McpError>(outcome_error(out)),
            },
    {
        match db_outcome_to_mcp_result(out) {
            Ok(agents) => {
                let names = agent_names(&agents);
                Ok(AcquireRecheckMatch { waiting: self.waiting, active: self.active, names })
            },
            Err(error) => Err(error),
        }
    }
}

/// A request that the database refused. It waits for the pattern engine to say,
/// of each path of the grant and each of `active`, whether they overlap.
pub struct AcquireRecheckMatch {
    pub waiting: AcquireGrant,
    pub active: Vec<FileReservationRow>,
    pub names: HashMap<i64, String>,
}

/// The order in which the holders that the database knew of are listed: by name,
/// then by pattern.
pub open spec fn holder_before(a: HolderView, b: HolderView) -> bool {
    ||| text_before(a.agent, b.agent)
    ||| a.agent == b.agent && text_before(a.path_pattern, b.path_pattern)
}

/// `list`, which is in order, with `item` after all that do not come after it.
pub open spec fn holder_placed(list: Seq<HolderView>, item: HolderView) -> Seq<HolderView>
    decreases list.len(),
{
    if list.len() > 0 && !holder_before(item, list[0]) {
        seq![list[0]] + holder_placed(list.drop_first(), item)
    } else {
        seq![item] + list
    }
}

/// The named holders of the reservations that stand in the way of a path, in
/// order.
pub open spec fn named_blocking(
    active: Seq<FileReservationRow>,
    names: Map<i64, String>,
    agent_id: i64,
    exclusive: bool,
    row: Seq<bool>,
) -> Seq<HolderView>
    decreases row.len(),
{
    if row.len() == 0 {
        Seq::empty()
    } else {
        let before = named_blocking(active, names, agent_id, exclusive, row.drop_last());
        let k = row.len() - 1;
        if row[k] && blocks(active[k], agent_id, exclusive) {
            holder_placed(before, named_holder(names, pending_of(active[k])))
        } else {
            before
        }
    }
}

proof fn holder_placed_after(list: Seq<HolderView>, item: HolderView, n: int)
    requires
        0 <= n <= list.len(),
        forall|i: int| 0 <= i < n ==> !holder_before(item, #[trigger] list[i]),
        n < list.len() ==> holder_before(item, list[n]),
    ensures
        holder_placed(list, item) == list.take(n) + (seq![item] + list.skip(n)),
    decreases n,
{
    if n == 0 {
        assert(list.skip(0) =~= list);
        assert(list.take(0) + (seq![item] + list.skip(0)) =~= seq![item] + list);
    } else {
        let rest = list.drop_first();
        assert(!holder_before(item, list[0]));
        assert forall|i: int| 0 <= i < n - 1 implies !holder_before(item, #[trigger] rest[i]) by {
            assert(rest[i] == list[i + 1]);
        }
        holder_placed_after(rest, item, n - 1);
        assert(rest.skip(n - 1) =~= list.skip(n));
        assert(seq![list[0]] + (rest.take(n - 1) + (seq![item] + list.skip(n))) =~= list.take(n)
            + (seq![item] + list.skip(n)));
    }
}

fn is_holder_before(a: &ConflictHolder, b: &ConflictHolder) -> (r: bool)
    ensures
        r == holder_before(a@, b@),
{
    if before(a.agent.as_str(), b.agent.as_str()) {
        return true;
    }
    same_text(a.agent.as_str(), b.agent.as_str()) && before(
        a.path_pattern.as_str(),
        b.path_pattern.as_str(),
    )
}

fn place_holder(list: &mut Vec<ConflictHolder>, item: ConflictHolder)
    ensures
        holder_views(final(list)@) == holder_placed(holder_views(old(list)@), item@),
{
    let ghost start = list@;
    let mut n: usize = 0;
    while n < list.len() && !is_holder_before(&item, &list[n])
        invariant
            list@ == start,
            n <= list.len(),
            forall|i: int| 0 <= i < n ==> !holder_before(item@, #[trigger] holder_views(start)[i]),
        ensures
            list@ == start,
            n <= start.len(),
            forall|i: int| 0 <= i < n ==> !holder_before(item@, #[trigger] holder_views(start)[i]),
            n < start.len() ==> holder_before(item@, holder_views(start)[n as int]),
        decreases list.len() - n,
    {
        n = n + 1;
    }
    list.insert(n, item);
    proof {
        let views = holder_views(start);
        holder_placed_after(views, item@, n as int);
        assert(holder_views(list@) =~= views.take(n as int) + (seq![item@] + views.skip(
            n as int,
        )));
    }
}

/// The conflicts of the first `n` paths that the database knew of.
pub open spec fn fresh_conflicts(
    grant: Seq<Seq<char>>,
    active: Seq<FileReservationRow>,
    names: Map<i64, String>,
    agent_id: i64,
    exclusive: bool,
    overlaps: Seq<Vec<bool>>,
    n: int,
) -> Seq<ConflictView>
    decreases n,
{
    if n <= 0 {
        Seq::empty()
    } else {
        let before = fresh_conflicts(grant, active, names, agent_id, exclusive, overlaps, n - 1);
        let holders = named_blocking(active, names, agent_id, exclusive, overlaps[n - 1]@);
        if holders.len() == 0 {
            before
        } else {
            before.push(ConflictView { path: grant[n - 1], holders })
        }
    }
}

impl AcquireRecheckMatch {
    /// Answers the request: nothing is granted, and the conflicts that the fresh
    /// reservations show come after those that were known.
    pub fn answer(self, overlaps: &Vec<Vec<bool>>) -> (r: AcquireAnswer)
        requires
            answers_active(overlaps@, self.waiting.grant@.len(), self.active@),
        ensures
            is_answer(
                r,
                self.waiting.project,
                self.waiting.agent,
                Seq::empty(),
                r.response.conflicts@,
            ),
            conflict_views(r.response.conflicts@) == conflict_views(self.waiting.conflicts@)
                + fresh_conflicts(
                self.waiting.grant@,
                self.active@,
                self.names@,
                id_or_zero(self.waiting.agent.id),
                self.waiting.request.exclusive,
                overlaps@,
                self.waiting.grant@.len() as int,
            ),
    {
        let agent_id = row_id(self.waiting.agent.id);
        let exclusive = self.waiting.request.exclusive;
        let ghost known = conflict_views(self.waiting.conflicts@);
        let mut conflicts = self.waiting.conflicts;
        let count: usize = self.waiting.grant.len();
        let mut i: usize = 0;
        proof {
            assert(known + Seq::<ConflictView>::empty() =~= known);
        }
        while i < count
            invariant
                i <= count,
                count == self.waiting.grant@.len(),
                answers_active(overlaps@, self.waiting.grant@.len(), self.active@),
                conflict_views(conflicts@) == known + fresh_conflicts(
                    self.waiting.grant@,
                    self.active@,
                    self.names@,
                    agent_id,
                    exclusive,
                    overlaps@,
                    i as int,
                ),
            decreases count - i,
        {
            proof {
                assert(overlaps@[i as int]@.len() == self.active@.len());
            }
            let holders = find_named_blocking(
                &self.active,
                &self.names,
                agent_id,
                exclusive,
                &overlaps[i],
            );
            proof {
                assert(holder_views(holders@).len() == holders@.len());
            }
            if holders.len() > 0 {
                let ghost had = conflict_views(conflicts@);
                let ghost fresh = fresh_conflicts(
                    self.waiting.grant@,
                    self.active@,
                    self.names@,
                    agent_id,
                    exclusive,
                    overlaps@,
                    i as int,
                );
                let conflict = ReservationConflict {
                    path: self.waiting.grant.at(i).clone(),
                    holders,
                };
                conflicts.push(conflict);
                proof {
                    assert(conflict_views(conflicts@) =~= had.push(conflict@));
                    assert((known + fresh).push(conflict@) =~= known + fresh.push(conflict@));
                }
            }
            i = i + 1;
        }
        let nothing: Vec<FileReservationRow> = Vec::new();
        proof {
            assert(nothing@ =~= Seq::empty());
        }
        answer_with(&self.waiting.project, &self.waiting.agent, &nothing, conflicts)
    }
}

fn find_named_blocking(
    active: &Vec<FileReservationRow>,
    names: &HashMap<i64, String>,
    agent_id: i64,
    exclusive: bool,
    row: &Vec<bool>,
) -> (r: Vec<ConflictHolder>)
    requires
        row@.len() == active@.len(),
    ensures
        holder_views(r@) == named_blocking(active@, names@, agent_id, exclusive, row@),
{
    let mut list: Vec<ConflictHolder> = Vec::new();
    let mut i: usize = 0;
    proof {
        assert(holder_views(list@) =~= Seq::empty());
    }
    while i < row.len()
        invariant
            i <= row.len(),
            row@.len() == active@.len(),
            holder_views(list@) == named_blocking(
                active@,
                names@,
                agent_id,
                exclusive,
                row@.take(i as int),
            ),
        decreases row.len() - i,
    {
        proof {
            assert(row@.take(i + 1).drop_last() =~= row@.take(i as int));
        }
        let held = &active[i];
        if row[i] && is_blocking(held, agent_id, exclusive) {
            let item = ConflictHolder {
                agent: display(names, held.agent_id),
                path_pattern: held.path_pattern.clone(),
                exclusive: held.exclusive != 0,
                expires_ts: held.expires_ts.iso.clone(),
            };
            place_holder(&mut list, item);
        }
        i = i + 1;
    }
    proof {
        assert(row@.take(row.len() as int) =~= row@);
    }
    list
}

/// A reservation is held for at least a minute and at most a year.
pub proof fn lease_is_bounded(asked: Option<i64>)
    ensures
        60 <= lease_seconds(asked) <= 31_536_000,
        asked matches Some(t) ==> (60 <= t <= 31_536_000 ==> lease_seconds(asked) == t),
{
}

/// An agent's own reservation never stands in its way, and shared ones do not
/// stand in each other's; an exclusive one of another agent always does.
pub proof fn sharing_rules(row: FileReservationRow, agent_id: i64, exclusive: bool)
    ensures
        row.agent_id == agent_id ==> !blocks(row, agent_id, exclusive),
        row.exclusive == 0 && !exclusive ==> !blocks(row, agent_id, exclusive),
        row.agent_id != agent_id && row.exclusive != 0 ==> blocks(row, agent_id, exclusive),
        row.agent_id != agent_id && exclusive ==> blocks(row, agent_id, exclusive),
{
}

/// Whether `list` is in the order in which pending holders are listed.
pub open spec fn is_pending_ordered(list: Seq<PendingView>) -> bool {
    forall|i: int, j: int|
        0 <= i < j < list.len() ==> !pending_before(#[trigger] list[j], #[trigger] list[i])
}

proof fn pending_order_asymmetric(a: PendingView, b: PendingView)
    requires
        pending_before(a, b),
    ensures
        !pending_before(b, a),
{
    text_order_asymmetric(a.path_pattern, b.path_pattern);
    text_order_asymmetric(a.expires_ts, b.expires_ts);
}

/// A later holder that is not before `item` has no earlier one that is not, by
/// the order of the list.
proof fn pending_order_negatively_transitive(a: PendingView, b: PendingView, c: PendingView)
    requires
        !pending_before(b, a),
        !pending_before(c, b),
    ensures
        !pending_before(c, a),
{
    text_order_total(a.path_pattern, b.path_pattern);
    text_order_total(b.path_pattern, c.path_pattern);
    text_order_total(a.expires_ts, b.expires_ts);
    text_order_total(b.expires_ts, c.expires_ts);
    if pending_before(c, a) {
        if a.agent_id == b.agent_id && b.agent_id == c.agent_id {
            if text_before(a.path_pattern, b.path_pattern) {
                text_order_asymmetric(a.path_pattern, b.path_pattern);
                if text_before(b.path_pattern, c.path_pattern) {
                    text_order_transitive(a.path_pattern, b.path_pattern, c.path_pattern);
                    text_order_asymmetric(a.path_pattern, c.path_pattern);
                }
            }
            text_order_irreflexive(a.path_pattern);
            if a.path_pattern == b.path_pattern && text_before(b.path_pattern, c.path_pattern) {
                text_order_asymmetric(a.path_pattern, c.path_pattern);
            }
            text_order_irreflexive(a.expires_ts);
            if text_before(a.expires_ts, b.expires_ts) {
                if text_before(b.expires_ts, c.expires_ts) {
                    text_order_transitive(a.expires_ts, b.expires_ts, c.expires_ts);
                }
                text_order_asymmetric(a.expires_ts, b.expires_ts);
            }
            if text_before(a.expires_ts, c.expires_ts) {
                text_order_asymmetric(a.expires_ts, c.expires_ts);
            }
            if text_before(a.path_pattern, c.path_pattern) {
                text_order_asymmetric(a.path_pattern, c.path_pattern);
            }
        }
    }
}

proof fn pending_placed_keeps_order(list: Seq<PendingView>, item: PendingView)
    requires
        is_pending_ordered(list),
    ensures
        is_pending_ordered(pending_placed(list, item)),
        pending_placed(list, item).len() == list.len() + 1,
        pending_placed(list, item).contains(item),
        forall|x: PendingView|
            #[trigger] pending_placed(list, item).contains(x) <==> x == item || list.contains(x),
    decreases list.len(),
{
    let out = pending_placed(list, item);
    if list.len() > 0 && pending_before(list[0], item) {
        let rest = list.drop_first();
        assert(is_pending_ordered(rest)) by {
            assert forall|i: int, j: int| 0 <= i < j < rest.len() implies !pending_before(
                #[trigger] rest[j],
                #[trigger] rest[i],
            ) by {
                assert(rest[i] == list[i + 1] && rest[j] == list[j + 1]);
            }
        }
        pending_placed_keeps_order(rest, item);
        let tail = pending_placed(rest, item);
        pending_order_asymmetric(list[0], item);
        assert forall|x: PendingView| #[trigger] tail.contains(x) implies !pending_before(
            x,
            list[0],
        ) by {
            if x != item {
                let n = choose|n: int| 0 <= n < rest.len() && rest[n] == x;
                assert(list[n + 1] == x);
            }
        }
        assert forall|i: int, j: int| 0 <= i < j < out.len() implies !pending_before(
            #[trigger] out[j],
            #[trigger] out[i],
        ) by {
            assert(out[j] == tail[j - 1]);
            assert(tail.contains(tail[j - 1]));
            if i > 0 {
                assert(out[i] == tail[i - 1]);
            }
        }
        assert forall|x: PendingView| #[trigger] out.contains(x) <==> x == item || list.contains(
            x,
        ) by {
            if out.contains(x) {
                let n = choose|n: int| 0 <= n < out.len() && out[n] == x;
                if n == 0 {
                    assert(list[0] == x);
                } else {
                    assert(tail[n - 1] == x);
                    assert(tail.contains(x));
                    if x != item {
                        let m = choose|m: int| 0 <= m < rest.len() && rest[m] == x;
                        assert(list[m + 1] == x);
                    }
                }
            }
            if x == item || list.contains(x) {
                if x == item {
                    assert(tail.contains(item));
                } else {
                    let n = choose|n: int| 0 <= n < list.len() && list[n] == x;
                    if n == 0 {
                        assert(out[0] == x);
                    } else {
                        assert(rest[n - 1] == x);
                        assert(rest.contains(x));
                        assert(tail.contains(x));
                    }
                }
                if tail.contains(x) {
                    let m = choose|m: int| 0 <= m < tail.len() && tail[m] == x;
                    assert(out[m + 1] == x);
                }
            }
        }
        assert(out.contains(item));
    } else {
        assert(out[0] == item);
        assert forall|i: int, j: int| 0 <= i < j < out.len() implies !pending_before(
            #[trigger] out[j],
            #[trigger] out[i],
        ) by {
            assert(out[j] == list[j - 1]);
            if i > 0 {
                assert(out[i] == list[i - 1]);
            } else if j > 1 {
                assert(!pending_before(list[j - 1], list[0]));
                pending_order_negatively_transitive(item, list[0], list[j - 1]);
            }
        }
        assert forall|x: PendingView| #[trigger] out.contains(x) <==> x == item || list.contains(
            x,
        ) by {
            if out.contains(x) {
                let n = choose|n: int| 0 <= n < out.len() && out[n] == x;
                if n > 0 {
                    assert(list[n - 1] == x);
                }
            }
            if list.contains(x) {
                let n = choose|n: int| 0 <= n < list.len() && list[n] == x;
                assert(out[n + 1] == x);
            }
        }
    }
}

/// Whether reservation `k` overlaps a path and stands in the way of the request.
pub open spec fn stands_in_way(
    active: Seq<FileReservationRow>,
    agent_id: i64,
    exclusive: bool,
    row: Seq<bool>,
    k: int,
) -> bool {
    0 <= k < row.len() && row[k] && blocks(active[k], agent_id, exclusive)
}

/// The holders that are listed for a path are in order; they are those of the
/// reservations that overlap it and stand in the way of the request, and of all
/// of them.
pub proof fn blocking_is_complete(
    active: Seq<FileReservationRow>,
    agent_id: i64,
    exclusive: bool,
    row: Seq<bool>,
)
    ensures
        is_pending_ordered(blocking(active, agent_id, exclusive, row)),
        forall|k: int|
            #[trigger] stands_in_way(active, agent_id, exclusive, row, k) ==> blocking(
                active,
                agent_id,
                exclusive,
                row,
            ).contains(pending_of(active[k])),
        forall|x: PendingView|
            #[trigger] blocking(active, agent_id, exclusive, row).contains(x) ==> exists|k: int|
                #[trigger] stands_in_way(active, agent_id, exclusive, row, k) && x == pending_of(
                    active[k],
                ),
        blocking(active, agent_id, exclusive, row).len() == 0 <==> forall|k: int|
            !#[trigger] stands_in_way(active, agent_id, exclusive, row, k),
    decreases row.len(),
{
    let all = blocking(active, agent_id, exclusive, row);
    if row.len() > 0 {
        let head = row.drop_last();
        let list = blocking(active, agent_id, exclusive, head);
        blocking_is_complete(active, agent_id, exclusive, head);
        let last = row.len() - 1;
        let added = stands_in_way(active, agent_id, exclusive, row, last);
        if added {
            pending_placed_keeps_order(list, pending_of(active[last]));
        }
        assert forall|k: int| #[trigger]
            stands_in_way(active, agent_id, exclusive, row, k) implies all.contains(
            pending_of(active[k]),
        ) by {
            if k < last {
                assert(stands_in_way(active, agent_id, exclusive, head, k));
                assert(list.contains(pending_of(active[k])));
            }
        }
        assert forall|x: PendingView| #[trigger] all.contains(x) implies exists|k: int|
            #[trigger]
            stands_in_way(active, agent_id, exclusive, row, k) && x == pending_of(active[k]) by {
            if added && x == pending_of(active[last]) {
            } else {
                assert(list.contains(x));
                let k = choose|k: int|
                    #[trigger]
                    stands_in_way(active, agent_id, exclusive, head, k) && x == pending_of(
                        active[k],
                    );
                assert(stands_in_way(active, agent_id, exclusive, row, k));
            }
        }
        if all.len() > 0 {
            assert(all.contains(all[0]));
        }
        if forall|k: int| !#[trigger] stands_in_way(active, agent_id, exclusive, row, k) {
            if all.len() > 0 {
                assert(all.contains(all[0]));
            }
        }
        if all.len() == 0 {
            assert forall|k: int| !#[trigger]
                stands_in_way(active, agent_id, exclusive, row, k) by {
                if stands_in_way(active, agent_id, exclusive, row, k) {
                    assert(all.contains(pending_of(active[k])));
                }
            }
        }
    }
}

/// Whether a reservation overlaps the path at position `i` and stands in the way
/// of the request.
pub open spec fn is_blocked(
    active: Seq<FileReservationRow>,
    agent_id: i64,
    exclusive: bool,
    overlaps: Seq<Vec<bool>>,
    i: int,
) -> bool {
    exists|k: int| #[trigger] stands_in_way(active, agent_id, exclusive, overlaps[i]@, k)
}

/// Each path of a request is either granted or in conflict: it is granted where
/// no reservation stands in its way, and only there.
pub proof fn plan_splits_paths(
    wanted: Seq<String>,
    active: Seq<FileReservationRow>,
    agent_id: i64,
    exclusive: bool,
    overlaps: Seq<Vec<bool>>,
    n: int,
)
    requires
        0 <= n <= wanted.len(),
    ensures
        ({
            let plan = plan_for(wanted, active, agent_id, exclusive, overlaps, n);
            &&& plan.grant.len() + plan.pending.len() == n
            &&& forall|path: Seq<char>|
                #[trigger] plan.grant.contains(path) ==> exists|i: int|
                    0 <= i < n && path == wanted[i]@ && !#[trigger] is_blocked(
                        active,
                        agent_id,
                        exclusive,
                        overlaps,
                        i,
                    )
            &&& forall|i: int|
                0 <= i < n && !#[trigger] is_blocked(
                    active,
                    agent_id,
                    exclusive,
                    overlaps,
                    i,
                ) ==> plan.grant.contains(wanted[i]@)
            &&& forall|i: int|
                0 <= i < n && #[trigger] is_blocked(active, agent_id, exclusive, overlaps, i)
                    ==> plan.pending.contains(
                    PendingPathView {
                        path: wanted[i]@,
                        holders: blocking(active, agent_id, exclusive, overlaps[i]@),
                    },
                )
        }),
    decreases n,
{
    let plan = plan_for(wanted, active, agent_id, exclusive, overlaps, n);
    if n > 0 {
        plan_splits_paths(wanted, active, agent_id, exclusive, overlaps, n - 1);
        let before = plan_for(wanted, active, agent_id, exclusive, overlaps, n - 1);
        let holders = blocking(active, agent_id, exclusive, overlaps[n - 1]@);
        blocking_is_complete(active, agent_id, exclusive, overlaps[n - 1]@);
        let blocked = is_blocked(active, agent_id, exclusive, overlaps, n - 1);
        assert(blocked == (holders.len() > 0));
        assert forall|path: Seq<char>| #[trigger] plan.grant.contains(path) implies exists|i: int|
            0 <= i < n && path == wanted[i]@ && !#[trigger] is_blocked(
                active,
                agent_id,
                exclusive,
                overlaps,
                i,
            ) by {
            let m = choose|m: int| 0 <= m < plan.grant.len() && plan.grant[m] == path;
            if m < before.grant.len() {
                assert(before.grant[m] == path);
                assert(before.grant.contains(path));
                let i = choose|i: int|
                    0 <= i < n - 1 && path == wanted[i]@ && !#[trigger] is_blocked(
                        active,
                        agent_id,
                        exclusive,
                        overlaps,
                        i,
                    );
                assert(!is_blocked(active, agent_id, exclusive, overlaps, i));
            } else {
                assert(!is_blocked(active, agent_id, exclusive, overlaps, n - 1));
            }
        }
        assert forall|i: int| 0 <= i < n && !#[trigger] is_blocked(
            active,
            agent_id,
            exclusive,
            overlaps,
            i,
        ) implies plan.grant.contains(wanted[i]@) by {
            if i < n - 1 {
                let m = choose|m: int| 0 <= m < before.grant.len() && before.grant[m] == wanted[i]@;
                assert(plan.grant[m] == wanted[i]@);
            } else {
                assert(plan.grant[plan.grant.len() - 1] == wanted[i]@);
            }
        }
        assert forall|i: int| 0 <= i < n && #[trigger] is_blocked(
            active,
            agent_id,
            exclusive,
            overlaps,
            i,
        ) implies plan.pending.contains(
            PendingPathView {
                path: wanted[i]@,
                holders: blocking(active, agent_id, exclusive, overlaps[i]@),
            },
        ) by {
            let view = PendingPathView {
                path: wanted[i]@,
                holders: blocking(active, agent_id, exclusive, overlaps[i]@),
            };
            if i < n - 1 {
                let m = choose|m: int| 0 <= m < before.pending.len() && before.pending[m] == view;
                assert(plan.pending[m] == view);
            } else {
                assert(plan.pending[plan.pending.len() - 1] == view);
            }
        }
    }
}

/// Whether `list` is in the order in which the holders that the database knew of
/// are listed.
pub open spec fn is_holder_ordered(list: Seq<HolderView>) -> bool {
    forall|i: int, j: int|
        0 <= i < j < list.len() ==> !holder_before(#[trigger] list[j], #[trigger] list[i])
}

proof fn holder_order_transitive(a: HolderView, b: HolderView, c: HolderView)
    requires
        holder_before(a, b),
        holder_before(b, c),
    ensures
        holder_before(a, c),
{
    if text_before(a.agent, b.agent) && text_before(b.agent, c.agent) {
        text_order_transitive(a.agent, b.agent, c.agent);
    }
    if text_before(a.path_pattern, b.path_pattern) && text_before(b.path_pattern, c.path_pattern) {
        text_order_transitive(a.path_pattern, b.path_pattern, c.path_pattern);
    }
}

proof fn holder_order_irreflexive(a: HolderView)
    ensures
        !holder_before(a, a),
{
    text_order_irreflexive(a.agent);
    text_order_irreflexive(a.path_pattern);
}

proof fn holder_placed_keeps_order(list: Seq<HolderView>, item: HolderView)
    requires
        is_holder_ordered(list),
    ensures
        is_holder_ordered(holder_placed(list, item)),
        holder_placed(list, item).len() == list.len() + 1,
        forall|x: HolderView|
            #[trigger] holder_placed(list, item).contains(x) <==> x == item || list.contains(x),
    decreases list.len(),
{
    let out = holder_placed(list, item);
    if list.len() > 0 && !holder_before(item, list[0]) {
        let rest = list.drop_first();
        assert(is_holder_ordered(rest)) by {
            assert forall|i: int, j: int| 0 <= i < j < rest.len() implies !holder_before(
                #[trigger] rest[j],
                #[trigger] rest[i],
            ) by {
                assert(rest[i] == list[i + 1] && rest[j] == list[j + 1]);
            }
        }
        holder_placed_keeps_order(rest, item);
        let tail = holder_placed(rest, item);
        assert forall|i: int, j: int| 0 <= i < j < out.len() implies !holder_before(
            #[trigger] out[j],
            #[trigger] out[i],
        ) by {
            assert(out[j] == tail[j - 1]);
            assert(tail.contains(tail[j - 1]));
            if i > 0 {
                assert(out[i] == tail[i - 1]);
            } else if out[j] != item {
                let n = choose|n: int| 0 <= n < rest.len() && rest[n] == out[j];
                assert(list[n + 1] == out[j]);
            }
        }
        assert forall|x: HolderView| #[trigger] out.contains(x) <==> x == item || list.contains(
            x,
        ) by {
            if out.contains(x) {
                let n = choose|n: int| 0 <= n < out.len() && out[n] == x;
                if n == 0 {
                    assert(list[0] == x);
                } else {
                    assert(tail[n - 1] == x);
                    assert(tail.contains(x));
                    if x != item {
                        let m = choose|m: int| 0 <= m < rest.len() && rest[m] == x;
                        assert(list[m + 1] == x);
                    }
                }
            }
            if list.contains(x) {
                let n = choose|n: int| 0 <= n < list.len() && list[n] == x;
                if n == 0 {
                    assert(out[0] == x);
                } else {
                    assert(rest[n - 1] == x);
                    assert(rest.contains(x));
                }
            }
            if x == item || rest.contains(x) {
                assert(tail.contains(x));
                let m = choose|m: int| 0 <= m < tail.len() && tail[m] == x;
                assert(out[m + 1] == x);
            }
        }
    } else {
        assert(out[0] == item);
        assert forall|i: int, j: int| 0 <= i < j < out.len() implies !holder_before(
            #[trigger] out[j],
            #[trigger] out[i],
        ) by {
            assert(out[j] == list[j - 1]);
            if i > 0 {
                assert(out[i] == list[i - 1]);
            } else if holder_before(out[j], item) {
                holder_order_transitive(out[j], item, list[0]);
                if j == 1 {
                    holder_order_irreflexive(list[0]);
                } else {
                    assert(!holder_before(list[j - 1], list[0]));
                }
            }
        }
        assert forall|x: HolderView| #[trigger] out.contains(x) <==> x == item || list.contains(
            x,
        ) by {
            if out.contains(x) {
                let n = choose|n: int| 0 <= n < out.len() && out[n] == x;
                if n > 0 {
                    assert(list[n - 1] == x);
                }
            }
            if list.contains(x) {
                let n = choose|n: int| 0 <= n < list.len() && list[n] == x;
                assert(out[n + 1] == x);
            }
        }
    }
}

/// The holders that are listed for a path after the database refused it are in
/// order; they are those of the reservations that overlap it and stand in the way of
/// the request, and of all of them.
pub proof fn named_blocking_is_complete(
    active: Seq<FileReservationRow>,
    names: Map<i64, String>,
    agent_id: i64,
    exclusive: bool,
    row: Seq<bool>,
)
    ensures
        is_holder_ordered(named_blocking(active, names, agent_id, exclusive, row)),
        forall|k: int|
            #[trigger] stands_in_way(active, agent_id, exclusive, row, k) ==> named_blocking(
                active,
                names,
                agent_id,
                exclusive,
                row,
            ).contains(named_holder(names, pending_of(active[k]))),
        forall|x: HolderView|
            #[trigger] named_blocking(active, names, agent_id, exclusive, row).contains(x)
                ==> exists|k: int|
                #[trigger] stands_in_way(active, agent_id, exclusive, row, k) && x == named_holder(
                    names,
                    pending_of(active[k]),
                ),
        named_blocking(active, names, agent_id, exclusive, row).len() == 0 <==> forall|k: int|
            !#[trigger] stands_in_way(active, agent_id, exclusive, row, k),
    decreases row.len(),
{
    let all = named_blocking(active, names, agent_id, exclusive, row);
    if row.len() > 0 {
        let head = row.drop_last();
        let list = named_blocking(active, names, agent_id, exclusive, head);
        named_blocking_is_complete(active, names, agent_id, exclusive, head);
        let last = row.len() - 1;
        let added = stands_in_way(active, agent_id, exclusive, row, last);
        let item = named_holder(names, pending_of(active[last]));
        if added {
            holder_placed_keeps_order(list, item);
            assert(all.contains(item));
        }
        assert forall|k: int| #[trigger]
            stands_in_way(active, agent_id, exclusive, row, k) implies all.contains(
            named_holder(names, pending_of(active[k])),
        ) by {
            if k < last {
                assert(stands_in_way(active, agent_id, exclusive, head, k));
                assert(list.contains(named_holder(names, pending_of(active[k]))));
            }
        }
        assert forall|x: HolderView| #[trigger] all.contains(x) implies exists|k: int|
            #[trigger]
            stands_in_way(active, agent_id, exclusive, row, k) && x == named_holder(
                names,
                pending_of(active[k]),
            ) by {
            if added && x == item {
            } else {
                assert(list.contains(x));
                let k = choose|k: int|
                    #[trigger]
                    stands_in_way(active, agent_id, exclusive, head, k) && x == named_holder(
                        names,
                        pending_of(active[k]),
                    );
                assert(stands_in_way(active, agent_id, exclusive, row, k));
            }
        }
        if all.len() > 0 {
            assert(all.contains(all[0]));
        } else {
            assert forall|k: int| !#[trigger]
                stands_in_way(active, agent_id, exclusive, row, k) by {
                if stands_in_way(active, agent_id, exclusive, row, k) {
                    assert(all.contains(named_holder(names, pending_of(active[k]))));
                }
            }
        }
    }
}

/// After the database refused a grant, the paths of it that are reported are those
/// that a reservation now stands in the way of, with all its holders.
pub proof fn recheck_reports_blocked_paths(
    grant: Seq<Seq<char>>,
    active: Seq<FileReservationRow>,
    names: Map<i64, String>,
    agent_id: i64,
    exclusive: bool,
    overlaps: Seq<Vec<bool>>,
    n: int,
)
    requires
        0 <= n <= grant.len(),
    ensures
        ({
            let fresh = fresh_conflicts(grant, active, names, agent_id, exclusive, overlaps, n);
            &&& forall|i: int|
                0 <= i < n && #[trigger] is_blocked(active, agent_id, exclusive, overlaps, i)
                    ==> fresh.contains(
                    ConflictView {
                        path: grant[i],
                        holders: named_blocking(
                            active,
                            names,
                            agent_id,
                            exclusive,
                            overlaps[i]@,
                        ),
                    },
                )
            &&& forall|view: ConflictView|
                #[trigger] fresh.contains(view) ==> exists|i: int|
                    0 <= i < n && view.path == grant[i] && #[trigger] is_blocked(
                        active,
                        agent_id,
                        exclusive,
                        overlaps,
                        i,
                    )
        }),
    decreases n,
{
    let fresh = fresh_conflicts(grant, active, names, agent_id, exclusive, overlaps, n);
    if n > 0 {
        recheck_reports_blocked_paths(grant, active, names, agent_id, exclusive, overlaps, n - 1);
        let before = fresh_conflicts(grant, active, names, agent_id, exclusive, overlaps, n - 1);
        let holders = named_blocking(active, names, agent_id, exclusive, overlaps[n - 1]@);
        named_blocking_is_complete(active, names, agent_id, exclusive, overlaps[n - 1]@);
        assert(is_blocked(active, agent_id, exclusive, overlaps, n - 1) == (holders.len() > 0));
        assert forall|i: int| 0 <= i < n && #[trigger] is_blocked(
            active,
            agent_id,
            exclusive,
            overlaps,
            i,
        ) implies fresh.contains(
            ConflictView {
                path: grant[i],
                holders: named_blocking(active, names, agent_id, exclusive, overlaps[i]@),
            },
        ) by {
            let view = ConflictView {
                path: grant[i],
                holders: named_blocking(active, names, agent_id, exclusive, overlaps[i]@),
            };
            if i < n - 1 {
                let m = choose|m: int| 0 <= m < before.len() && before[m] == view;
                assert(fresh[m] == view);
            } else {
                assert(fresh[fresh.len() - 1] == view);
            }
        }
        assert forall|view: ConflictView| #[trigger] fresh.contains(view) implies exists|i: int|
            0 <= i < n && view.path == grant[i] && #[trigger] is_blocked(
                active,
                agent_id,
                exclusive,
                overlaps,
                i,
            ) by {
            let m = choose|m: int| 0 <= m < fresh.len() && fresh[m] == view;
            if m < before.len() {
                assert(before[m] == view);
                assert(before.contains(view));
                let i = choose|i: int|
                    0 <= i < n - 1 && view.path == grant[i] && #[trigger] is_blocked(
                        active,
                        agent_id,
                        exclusive,
                        overlaps,
                        i,
                    );
                assert(is_blocked(active, agent_id, exclusive, overlaps, i));
            } else {
                assert(is_blocked(active, agent_id, exclusive, overlaps, n - 1));
            }
        }
    }
}

} // verus!
