//! The forced release of a reservation that its holder seems to have abandoned.

use crate::archive::{
    active_record, active_reservation_artifact_json, archive_write, id_or_zero,
    is_release_record, is_terminal_release, row_id, writes_records, ArchiveWrite, WriteOp,
};
use crate::arith::{
    elapsed_seconds, saturated, saturating_difference, saturating_micros, seconds_since,
};
use crate::errors::{
    db_outcome_to_mcp_result, is_tool_error, legacy_tool_error, outcome_error,
};
use crate::json::{
    json_bool, json_count, json_encoding, json_int, json_list, json_null, json_object,
    json_optional_text, json_string, json_text, json_texts, json_tree, json_trees, optional_text,
    optional_view, text_list, tree_index, with, JsonTree,
};
use crate::model::{
    canonical_name, name_or, AgentRow, DbErrorKind, DbOutcome, FileReservationRow, McpError,
    ProjectRow, Timestamp,
};
use crate::text::{clip, clipped, decimal, join, joined, same_text, signed_text, texts};
use serde_json::Value;
use vstd::prelude::*;

verus! {

/// A forced release that waits for its project, the agent that asks for it, and
/// the reservation.
#[derive(Debug, Clone)]
pub struct ForceRequest {
    pub project_key: String,
    pub agent_name: String,
    pub file_reservation_id: i64,
    pub note: Option<String>,
    pub notify: bool,
}

/// Takes a request to release the reservation of another agent. `canonical` is the
/// canonical form of the name of the agent that asks, where there is one. The
/// holder is notified unless the request says otherwise.
pub fn force_release_file_reservation(
    project_key: String,
    agent_name: String,
    canonical: Option<String>,
    file_reservation_id: i64,
    note: Option<String>,
    notify_previous: Option<bool>,
) -> (r: ForceRequest)
    ensures
        r == (ForceRequest {
            project_key,
            agent_name: name_or(canonical, agent_name),
            file_reservation_id,
            note,
            notify: (notify_previous matches Some(n) ==> n),
        }),
{
    let notify = match notify_previous {
        Some(n) => n,
        None => true,
    };
    ForceRequest {
        project_key,
        agent_name: canonical_name(canonical, agent_name),
        file_reservation_id,
        note,
        notify,
    }
}

/// A forced release whose reservation was found, and the times after which an
/// agent counts as inactive, and other signs of activity as old.
#[derive(Debug, Clone)]
pub struct ForceCase {
    pub request: ForceRequest,
    pub project: ProjectRow,
    pub actor: AgentRow,
    pub reservation: FileReservationRow,
    pub inactivity_seconds: i64,
    pub grace_seconds: i64,
}

/// What a forced release waits for next: the holder of the reservation, or
/// nothing, with the answer.
#[derive(Debug, Clone)]
pub enum ForceNext {
    FindHolder(ForceCase),
    Answer(String),
}

/// `seconds`, or `otherwise` where the number is too large.
pub open spec fn seconds_or(seconds: u64, otherwise: i64) -> i64 {
    if seconds <= i64::MAX {
        seconds as i64
    } else {
        otherwise
    }
}

fn threshold(seconds: u64, otherwise: i64) -> (r: i64)
    ensures
        r == seconds_or(seconds, otherwise),
{
    if seconds <= 9_223_372_036_854_775_807 {
        seconds as i64
    } else {
        otherwise
    }
}

/// `{"file_reservation_id": id}`.
pub open spec fn id_tree(id: i64) -> JsonTree {
    JsonTree::Object(map!["file_reservation_id"@ => JsonTree::Int(id as int)])
}

fn id_data(id: i64) -> (r: Value)
    ensures
        json_tree(r) == id_tree(id),
{
    with(json_object(), "file_reservation_id", json_int(id))
}

/// Whether `error` says that the project has no such reservation.
pub open spec fn is_not_found(error: McpError, id: i64, human_key: Seq<char>) -> bool {
    is_tool_error(
        error,
        "NOT_FOUND"@,
        "File reservation id="@ + decimal(id as int) + " not found for project '"@ + human_key
            + "'."@,
        true,
        id_tree(id),
    )
}

fn not_found(id: i64, human_key: &str) -> (r: McpError)
    ensures
        is_not_found(r, id, human_key@),
{
    let message = "File reservation id=".to_owned().concat(signed_text(id).as_str()).concat(
        " not found for project '",
    ).concat(human_key).concat("'.");
    legacy_tool_error("NOT_FOUND", message.as_str(), true, id_data(id))
}

/// What is answered where the reservation was released already.
pub open spec fn already_released_tree(released_at: Seq<char>) -> JsonTree {
    JsonTree::Object(
        map![
            "released"@ => JsonTree::Int(0),
            "released_at"@ => JsonTree::Text(released_at),
            "already_released"@ => JsonTree::Bool(true),
        ],
    )
}

/// Whether `r` is what a forced release becomes once its reservation was looked
/// for.
pub open spec fn is_case_verdict(
    r: Result<ForceNext, McpError>,
    request: ForceRequest,
    project: ProjectRow,
    actor: AgentRow,
    out: DbOutcome<Vec<FileReservationRow>>,
    inactivity: u64,
    grace: u64,
) -> bool {
    match out {
        DbOutcome::Done(rows) => if rows@.len() == 0 || rows@.last().project_id != id_or_zero(
            project.id,
        ) {
            r is Err && is_not_found(r->Err_0, request.file_reservation_id, project.human_key@)
        } else {
            match rows@.last().released_ts {
                Some(released) => r matches Ok(ForceNext::Answer(text)) && text@ == json_encoding(
                    already_released_tree(released.iso@),
                ),
                None => r matches Ok(ForceNext::FindHolder(case)) && case == (ForceCase {
                    request,
                    project,
                    actor,
                    reservation: rows@.last(),
                    inactivity_seconds: seconds_or(inactivity, 1800),
                    grace_seconds: seconds_or(grace, 900),
                }),
            }
        },
        _ => r == Err::<ForceNext, McpError>(outcome_error(out)),
    }
}

impl ForceRequest {
    /// Takes the project, the agent that asks, and what was found of the
    /// reservation; and the configured times of inactivity and of grace. A
    /// reservation of another project counts as not found.
    pub fn with_reservation(
        self,
        project: ProjectRow,
        actor: AgentRow,
        out: DbOutcome<Vec<FileReservationRow>>,
        inactivity: u64,
        grace: u64,
    ) -> (r: Result<ForceNext, McpError>)
        ensures
            is_case_verdict(r, self, project, actor, out, inactivity, grace),
    {
        let mut rows = match db_outcome_to_mcp_result(out) {
            Ok(rows) => rows,
            Err(error) => return Err(error),
        };
        let reservation = match rows.pop() {
            Some(row) => row,
            None => {
                return Err(not_found(self.file_reservation_id, project.human_key.as_str()));
            },
        };
        if reservation.project_id != row_id(project.id) {
            return Err(not_found(self.file_reservation_id, project.human_key.as_str()));
        }
        if let Some(released) = &reservation.released_ts {
            let answer = with(json_object(), "released", json_int(0));
            let answer = with(answer, "released_at", json_text(released.iso.as_str()));
            let answer = with(answer, "already_released", json_bool(true));
            return Ok(ForceNext::Answer(json_string(&answer)));
        }
        Ok(
            ForceNext::FindHolder(
                ForceCase {
                    request: self,
                    project,
                    actor,
                    reservation,
                    inactivity_seconds: threshold(inactivity, 1800),
                    grace_seconds: threshold(grace, 900),
                },
            ),
        )
    }
}

/// The agent that holds a reservation.
#[derive(Debug, Clone)]
pub struct HolderRow {
    pub id: Option<i64>,
    pub name: String,
    pub last_active_ts: Timestamp,
}

/// A forced release that waits for the last mail activity of the holder. `now` is
/// the time at which activity is judged.
#[derive(Debug, Clone)]
pub struct ForceMail {
    pub case: ForceCase,
    pub holder: Option<HolderRow>,
    pub now: i64,
}

impl ForceCase {
    /// Takes the holder; one that no longer exists is none.
    pub fn with_holder(self, out: DbOutcome<HolderRow>, now: i64) -> (r: Result<ForceMail, McpError>)
        ensures
            match out {
                DbOutcome::Done(holder) => r == Ok::<ForceMail, McpError>(
                    ForceMail { case: self, holder: Some(holder), now },
                ),
                _ => if out matches DbOutcome::Failed(failure) && failure.kind
                    == DbErrorKind::NotFound {
                    r == Ok::<ForceMail, McpError>(ForceMail { case: self, holder: None, now })
                } else {
                    r == Err::<ForceMail, McpError>(outcome_error(out))
                },
            },
    {
        let missing = match &out {
            DbOutcome::Failed(failure) => failure.kind == DbErrorKind::NotFound,
            _ => false,
        };
        if missing {
            return Ok(ForceMail { case: self, holder: None, now });
        }
        match db_outcome_to_mcp_result(out) {
            Ok(holder) => Ok(ForceMail { case: self, holder: Some(holder), now }),
            Err(error) => Err(error),
        }
    }
}

/// A forced release that waits for the activity on the files of the reservation.
#[derive(Debug, Clone)]
pub struct ForceActivity {
    pub case: ForceCase,
    pub holder: Option<HolderRow>,
    pub now: i64,
    pub mail: Option<Timestamp>,
}

impl ForceMail {
    /// Takes the last mail activity of the holder.
    pub fn with_mail(self, out: DbOutcome<Option<Timestamp>>) -> (r: Result<ForceActivity, McpError>)
        ensures
            match out {
                DbOutcome::Done(mail) => r == Ok::<ForceActivity, McpError>(
                    ForceActivity { case: self.case, holder: self.holder, now: self.now, mail },
                ),
                _ => r == Err::<ForceActivity, McpError>(outcome_error(out)),
            },
    {
        match db_outcome_to_mcp_result(out) {
            Ok(mail) => Ok(
                ForceActivity { case: self.case, holder: self.holder, now: self.now, mail },
            ),
            Err(error) => Err(error),
        }
    }
}

/// The activity on the files that a pattern matches: whether there are any, and
/// when the file system and the repository last changed.
#[derive(Debug, Clone)]
pub struct PatternActivity {
    pub matches: bool,
    pub fs_activity: Option<Timestamp>,
    pub git_activity: Option<Timestamp>,
}

/// Whether an activity is older than `seconds`, or there was none.
pub open spec fn is_old(activity: Option<Timestamp>, now: i64, seconds: i64) -> bool {
    match activity {
        Some(ts) => saturated(now - ts.micros) > saturated(seconds * 1_000_000),
        None => true,
    }
}

fn old_activity(activity: &Option<Timestamp>, now: i64, seconds: i64) -> (r: bool)
    ensures
        r == is_old(*activity, now, seconds),
{
    match activity {
        Some(ts) => saturating_difference(now, ts.micros) > saturating_micros(seconds),
        None => true,
    }
}

/// When the holder was last active.
pub open spec fn last_active(holder: Option<HolderRow>) -> Option<Timestamp> {
    match holder {
        Some(agent) => Some(agent.last_active_ts),
        None => None,
    }
}

fn inactive(holder: &Option<HolderRow>, now: i64, seconds: i64) -> (r: bool)
    ensures
        r == is_old(last_active(*holder), now, seconds),
{
    match holder {
        Some(agent) => saturating_difference(now, agent.last_active_ts.micros)
            > saturating_micros(seconds),
        None => true,
    }
}

/// Whether every sign of activity is old: the holder's, its mail, and that on the
/// files.
pub open spec fn is_abandoned(waiting: ForceActivity, activity: PatternActivity) -> bool {
    let grace = waiting.case.grace_seconds;
    &&& is_old(last_active(waiting.holder), waiting.now, waiting.case.inactivity_seconds)
    &&& is_old(waiting.mail, waiting.now, grace)
    &&& is_old(activity.fs_activity, waiting.now, grace)
    &&& is_old(activity.git_activity, waiting.now, grace)
}

/// Whether the reservation has expired.
pub open spec fn is_expired(waiting: ForceActivity) -> bool {
    waiting.case.reservation.expires_ts.micros <= waiting.now
}

/// `label>ns`.
pub open spec fn limit_text(label: Seq<char>, seconds: i64) -> Seq<char> {
    label + ">"@ + decimal(seconds as int) + "s"@
}

fn limit(label: &str, seconds: i64) -> (r: String)
    ensures
        r@ == limit_text(label@, seconds),
{
    label.to_owned().concat(">").concat(signed_text(seconds).as_str()).concat("s")
}

/// What each sign of activity says.
pub open spec fn signals(waiting: ForceActivity, activity: PatternActivity) -> Seq<Seq<char>> {
    let grace = waiting.case.grace_seconds;
    let agent = if waiting.holder is None {
        "agent_missing"@
    } else if is_old(
        last_active(waiting.holder),
        waiting.now,
        waiting.case.inactivity_seconds,
    ) {
        limit_text("agent_inactive"@, waiting.case.inactivity_seconds)
    } else {
        "agent_recently_active"@
    };
    let mail = if is_old(waiting.mail, waiting.now, grace) {
        limit_text("no_recent_mail_activity"@, grace)
    } else {
        "mail_activity_recent"@
    };
    if activity.matches {
        let fs = if is_old(activity.fs_activity, waiting.now, grace) {
            limit_text("no_recent_filesystem_activity"@, grace)
        } else {
            "filesystem_activity_recent"@
        };
        let git = if is_old(activity.git_activity, waiting.now, grace) {
            limit_text("no_recent_git_activity"@, grace)
        } else {
            "git_activity_recent"@
        };
        seq![agent, mail, fs, git]
    } else {
        seq![agent, mail, "path_pattern_unmatched"@]
    }
}

fn read_signals(waiting: &ForceActivity, activity: &PatternActivity) -> (r: Vec<String>)
    ensures
        texts(r@) == signals(*waiting, *activity),
{
    let grace: i64 = waiting.case.grace_seconds;
    let mut out: Vec<String> = Vec::new();
    if waiting.holder.is_none() {
        out.push("agent_missing".to_owned());
    } else if inactive(&waiting.holder, waiting.now, waiting.case.inactivity_seconds) {
        out.push(limit("agent_inactive", waiting.case.inactivity_seconds));
    } else {
        out.push("agent_recently_active".to_owned());
    }
    if old_activity(&waiting.mail, waiting.now, grace) {
        out.push(limit("no_recent_mail_activity", grace));
    } else {
        out.push("mail_activity_recent".to_owned());
    }
    if activity.matches {
        if old_activity(&activity.fs_activity, waiting.now, grace) {
            out.push(limit("no_recent_filesystem_activity", grace));
        } else {
            out.push("filesystem_activity_recent".to_owned());
        }
        if old_activity(&activity.git_activity, waiting.now, grace) {
            out.push(limit("no_recent_git_activity", grace));
        } else {
            out.push("git_activity_recent".to_owned());
        }
    } else {
        out.push("path_pattern_unmatched".to_owned());
    }
    proof {
        assert(texts(out@) =~= signals(*waiting, *activity));
    }
    out
}

/// A forced release that waits for the database to release the reservation,
/// provided that it still expires when `case.reservation` says.
#[derive(Debug, Clone)]
pub struct ForceCall {
    pub case: ForceCase,
    pub holder: Option<HolderRow>,
    pub now: i64,
    pub mail: Option<Timestamp>,
    pub activity: PatternActivity,
    pub signals: Vec<String>,
}

/// What was known before the files were looked at.
pub open spec fn before_activity(call: ForceCall) -> ForceActivity {
    ForceActivity { case: call.case, holder: call.holder, now: call.now, mail: call.mail }
}

/// The data of the error about a reservation that is in use.
pub open spec fn in_use_tree(id: i64, signals: Seq<Seq<char>>) -> JsonTree {
    JsonTree::Object(
        map![
            "file_reservation_id"@ => JsonTree::Int(id as int),
            "stale_reasons"@ => text_list(signals),
        ],
    )
}

/// Whether `r` is what a forced release becomes once all activity is known: it is
/// refused where there is a recent sign of activity and the reservation has not
/// expired.
pub open spec fn is_force_verdict(
    r: Result<ForceCall, McpError>,
    waiting: ForceActivity,
    activity: PatternActivity,
) -> bool {
    if !is_abandoned(waiting, activity) && !is_expired(waiting) {
        r is Err && is_tool_error(
            r->Err_0,
            "RESERVATION_ACTIVE"@,
            "Reservation still shows recent activity; refusing forced release."@,
            true,
            in_use_tree(
                waiting.case.request.file_reservation_id,
                signals(waiting, activity),
            ),
        )
    } else {
        r matches Ok(call) && {
            &&& before_activity(call) == waiting
            &&& call.activity == activity
            &&& texts(call.signals@) == signals(waiting, activity)
        }
    }
}

impl ForceActivity {
    /// Takes the activity on the files of the reservation, and decides whether it
    /// may be released.
    pub fn with_activity(self, activity: PatternActivity) -> (r: Result<ForceCall, McpError>)
        ensures
            is_force_verdict(r, self, activity),
    {
        let grace: i64 = self.case.grace_seconds;
        let reasons = read_signals(&self, &activity);
        let abandoned = inactive(&self.holder, self.now, self.case.inactivity_seconds)
            && old_activity(&self.mail, self.now, grace) && old_activity(
            &activity.fs_activity,
            self.now,
            grace,
        ) && old_activity(&activity.git_activity, self.now, grace);
        let expired = self.case.reservation.expires_ts.micros <= self.now;
        if !abandoned && !expired {
            let id: i64 = self.case.request.file_reservation_id;
            let data = with(json_object(), "file_reservation_id", json_int(id));
            let data = with(data, "stale_reasons", json_texts(&reasons));
            return Err(
                legacy_tool_error(
                    "RESERVATION_ACTIVE",
                    "Reservation still shows recent activity; refusing forced release.",
                    true,
                    data,
                ),
            );
        }
        Ok(
            ForceCall {
                case: self.case,
                holder: self.holder,
                now: self.now,
                mail: self.mail,
                activity,
                signals: reasons,
            },
        )
    }
}

/// A forced release that waits for the reservation to be read again.
#[derive(Debug, Clone)]
pub struct ForceReadBack {
    pub call: ForceCall,
    pub released: u64,
}

impl ForceCall {
    /// Takes how many reservations the database released. None means that another
    /// agent was faster.
    pub fn released(self, out: DbOutcome<u64>) -> (r: Result<ForceReadBack, McpError>)
        ensures
            match out {
                DbOutcome::Done(released) => if released == 0 {
                    r is Err && is_tool_error(
                        r->Err_0,
                        "CONFLICT"@,
                        "Reservation was renewed, released, or expired by another agent while heuristics were being calculated."@,
                        true,
                        id_tree(self.case.request.file_reservation_id),
                    )
                } else {
                    r == Ok::<ForceReadBack, McpError>(ForceReadBack { call: self, released })
                },
                _ => r == Err::<ForceReadBack, McpError>(outcome_error(out)),
            },
    {
        match db_outcome_to_mcp_result(out) {
            Ok(released) => {
                if released == 0 {
                    return Err(
                        legacy_tool_error(
                            "CONFLICT",
                            "Reservation was renewed, released, or expired by another agent while heuristics were being calculated.",
                            true,
                            id_data(self.case.request.file_reservation_id),
                        ),
                    );
                }
                Ok(ForceReadBack { call: self, released })
            },
            Err(error) => Err(error),
        }
    }
}

/// The release time on the first of `rows` with this id.
pub open spec fn read_back_ts(rows: Seq<FileReservationRow>, id: i64) -> Option<Timestamp>
    decreases rows.len(),
{
    if rows.len() == 0 {
        None
    } else if rows[0].id == Some(id) {
        rows[0].released_ts
    } else {
        read_back_ts(rows.drop_first(), id)
    }
}

fn find_release(rows: Vec<FileReservationRow>, id: i64) -> (r: Option<Timestamp>)
    ensures
        r == read_back_ts(rows@, id),
{
    let ghost all = rows@;
    proof {
        assert(all.skip(0) =~= all);
    }
    let mut answer: Option<Timestamp> = None;
    let mut found = false;
    for row in it: rows.into_iter()
        invariant
            it.seq() == all,
            found ==> answer == read_back_ts(all, id),
            !found ==> answer is None && read_back_ts(all, id) == read_back_ts(
                all.skip(it.index()),
                id,
            ),
    {
        proof {
            assert(all.skip(it.index()).drop_first() =~= all.skip(it.index() + 1));
        }
        if !found && row.id == Some(id) {
            found = true;
            answer = row.released_ts;
        }
    }
    proof {
        assert(all.skip(all.len() as int) =~= Seq::empty());
    }
    answer
}

/// A message to the agent whose reservation was released, as the database is to
/// create it. `attachments` is a JSON list.
#[derive(Debug, Clone)]
pub struct Notification {
    pub project_id: i64,
    pub sender_id: i64,
    pub recipient_id: i64,
    pub recipient_kind: String,
    pub subject: String,
    pub body: String,
    pub thread_id: Option<String>,
    pub importance: String,
    pub ack_required: bool,
    pub attachments: String,
}

/// A forced release that was done: the write to the archive that is due, and the
/// message to the holder, if one is to be sent.
#[derive(Debug, Clone)]
pub struct ForceReleased {
    pub call: ForceCall,
    pub released: u64,
    pub released_ts: Timestamp,
    pub write: Option<ArchiveWrite>,
    pub notification: Option<Notification>,
}

/// The name of the holder, or one made from its id.
pub open spec fn holder_text(call: ForceCall) -> Seq<char> {
    match call.holder {
        Some(holder) => holder.name@,
        None => "[unknown-agent-"@ + decimal(call.case.reservation.agent_id as int) + "]"@,
    }
}

fn holder_name(call: &ForceCall) -> (r: String)
    ensures
        r@ == holder_text(*call),
{
    match &call.holder {
        Some(holder) => holder.name.clone(),
        None => "[unknown-agent-".to_owned().concat(
            signed_text(call.case.reservation.agent_id).as_str(),
        ).concat("]"),
    }
}

/// The record of the reservation that was released by force.
pub open spec fn forced_record(call: ForceCall, released_ts: Timestamp) -> JsonTree {
    JsonTree::Object(
        active_record(
            call.case.project.human_key@,
            holder_text(call),
            call.case.reservation,
        )->Object_0.insert("released_ts"@, JsonTree::Text(released_ts.iso@)),
    )
}

/// One line on an activity: `- label ... s ago`, and a line feed; nothing where
/// there was none.
pub open spec fn activity_line(label: Seq<char>, activity: Option<Timestamp>, now: i64) -> Seq<char> {
    match activity {
        Some(ts) => "- "@ + label + " \u{2248} "@ + decimal(elapsed_seconds(now, ts.micros))
            + "s ago\n"@,
        None => Seq::empty(),
    }
}

fn write_activity(label: &str, activity: &Option<Timestamp>, now: i64) -> (r: String)
    ensures
        r@ == activity_line(label@, *activity, now),
{
    match activity {
        Some(ts) => "- ".to_owned().concat(label).concat(" \u{2248} ").concat(
            signed_text(seconds_since(now, ts.micros)).as_str(),
        ).concat("s ago\n"),
        None => String::new(),
    }
}

/// The details of a forced release: when there was activity last, and what counts
/// as recent.
pub open spec fn details_text(call: ForceCall) -> Seq<char> {
    let agent = match call.holder {
        Some(holder) => activity_line(
            "last agent activity"@,
            Some(holder.last_active_ts),
            call.now,
        ),
        None => "- holder agent metadata missing\n"@,
    };
    agent + activity_line("last mail activity"@, call.mail, call.now) + activity_line(
        "last filesystem activity"@,
        call.activity.fs_activity,
        call.now,
    ) + activity_line("last git commit"@, call.activity.git_activity, call.now)
        + "- inactivity threshold="@ + decimal(call.case.inactivity_seconds as int) + "s grace="@
        + decimal(call.case.grace_seconds as int) + "s"@
}

fn write_details(call: &ForceCall) -> (r: String)
    ensures
        r@ == details_text(*call),
{
    let agent = match &call.holder {
        Some(holder) => "- ".to_owned().concat("last agent activity").concat(" \u{2248} ").concat(
            signed_text(seconds_since(call.now, holder.last_active_ts.micros)).as_str(),
        ).concat("s ago\n"),
        None => "- holder agent metadata missing\n".to_owned(),
    };
    let mail = write_activity("last mail activity", &call.mail, call.now);
    let fs = write_activity("last filesystem activity", &call.activity.fs_activity, call.now);
    let git = write_activity("last git commit", &call.activity.git_activity, call.now);
    agent.concat(mail.as_str()).concat(fs.as_str()).concat(git.as_str()).concat(
        "- inactivity threshold=",
    ).concat(signed_text(call.case.inactivity_seconds).as_str()).concat("s grace=").concat(
        signed_text(call.case.grace_seconds).as_str(),
    ).concat("s")
}

/// Each of `list` as an item of a list in Markdown.
pub open spec fn bullets(list: Seq<Seq<char>>) -> Seq<char> {
    joined(list.map_values(|s: Seq<char>| "- "@ + s), "\n"@)
}

fn write_bullets(list: &Vec<String>) -> (r: String)
    ensures
        r@ == bullets(texts(list@)),
{
    let mut items: Vec<String> = Vec::new();
    let mut i: usize = 0;
    while i < list.len()
        invariant
            i <= list.len(),
            items.len() == i,
            forall|k: int| 0 <= k < i ==> (#[trigger] items@[k])@ == "- "@ + list@[k]@,
        decreases list.len() - i,
    {
        items.push("- ".to_owned().concat(list[i].as_str()));
        i = i + 1;
    }
    proof {
        assert(texts(items@) =~= texts(list@).map_values(|s: Seq<char>| "- "@ + s));
    }
    join(&items, "\n")
}

/// The note of a forced release, as it is passed on: no more than 4096 bytes of
/// it, or nothing.
pub open spec fn note_text(note: Option<String>) -> Seq<char> {
    let text = match note {
        Some(n) => clipped(n@, 4096),
        None => Seq::empty(),
    };
    if text.len() == 0 {
        Seq::empty()
    } else {
        "**Note:** "@ + text
    }
}

fn write_note(note: &Option<String>) -> (r: String)
    ensures
        r@ == note_text(*note),
{
    match note {
        Some(n) => {
            let text = clip(n.as_str(), 4096);
            if text.as_str().unicode_len() == 0 {
                String::new()
            } else {
                "**Note:** ".to_owned().concat(text.as_str())
            }
        },
        None => String::new(),
    }
}

/// The message to the agent whose reservation was released by force.
pub open spec fn body_text(call: ForceCall) -> Seq<char> {
    "Your file reservation on `"@ + call.case.reservation.path_pattern@ + "` (id="@ + decimal(
        call.case.request.file_reservation_id as int,
    ) + ") was force-released by **"@ + call.case.request.agent_name@
        + "**.\n\n**Observed signals:**\n"@ + bullets(texts(call.signals@))
        + "\n\n**Details:**\n"@ + details_text(call) + "\n\n"@ + note_text(call.case.request.note)
        + "\n\nYou can re-acquire the reservation if still needed."@
}

fn write_body(call: &ForceCall) -> (r: String)
    ensures
        r@ == body_text(*call),
{
    let bullets = write_bullets(&call.signals);
    let details = write_details(call);
    let note = write_note(&call.case.request.note);
    "Your file reservation on `".to_owned().concat(
        call.case.reservation.path_pattern.as_str(),
    ).concat("` (id=").concat(
        signed_text(call.case.request.file_reservation_id).as_str(),
    ).concat(") was force-released by **").concat(call.case.request.agent_name.as_str()).concat(
        "**.\n\n**Observed signals:**\n",
    ).concat(bullets.as_str()).concat("\n\n**Details:**\n").concat(details.as_str()).concat(
        "\n\n",
    ).concat(note.as_str()).concat("\n\nYou can re-acquire the reservation if still needed.")
}

/// Whether the holder is to be notified: the request wants it, the holder still
/// exists, and is not the one who asks.
pub open spec fn wants_notification(call: ForceCall) -> bool {
    &&& call.case.request.notify
    &&& call.holder matches Some(holder) && holder.name@ != call.case.request.agent_name@
}

/// Whether `notification` is the message that is due, if one is: from the agent
/// that asked to the holder, of normal importance, in no thread, without
/// attachments, and with no acknowledgement asked for.
pub open spec fn is_notification(notification: Option<Notification>, call: ForceCall) -> bool {
    match notification {
        Some(message) => {
            &&& wants_notification(call)
            &&& message.project_id == id_or_zero(call.case.project.id)
            &&& message.sender_id == id_or_zero(call.case.actor.id)
            &&& message.recipient_id == id_or_zero(call.holder->0.id)
            &&& message.recipient_kind@ == "to"@
            &&& message.thread_id is None
            &&& message.importance@ == "normal"@
            &&& !message.ack_required
            &&& message.attachments@ == "[]"@
            &&& message.subject@ == "[file-reservations] Released stale lock on "@
                + call.case.reservation.path_pattern@
            &&& message.body@ == body_text(call)
        },
        None => !wants_notification(call),
    }
}

fn notification(call: &ForceCall) -> (r: Option<Notification>)
    ensures
        is_notification(r, *call),
{
    if !call.case.request.notify {
        return None;
    }
    match &call.holder {
        Some(holder) => {
            if same_text(holder.name.as_str(), call.case.request.agent_name.as_str()) {
                return None;
            }
            Some(
                Notification {
                    project_id: row_id(call.case.project.id),
                    sender_id: row_id(call.case.actor.id),
                    recipient_id: row_id(holder.id),
                    recipient_kind: "to".to_owned(),
                    subject: "[file-reservations] Released stale lock on ".to_owned().concat(
                        call.case.reservation.path_pattern.as_str(),
                    ),
                    body: write_body(call),
                    thread_id: None,
                    importance: "normal".to_owned(),
                    ack_required: false,
                    attachments: "[]".to_owned(),
                },
            )
        },
        None => None,
    }
}

/// Whether `r` is what a forced release becomes once the reservation was read
/// again.
pub open spec fn is_released_verdict(
    r: Result<ForceReleased, McpError>,
    waiting: ForceReadBack,
    out: DbOutcome<Vec<FileReservationRow>>,
) -> bool {
    let call = waiting.call;
    let id = call.case.request.file_reservation_id;
    match out {
        DbOutcome::Done(rows) => match read_back_ts(rows@, id) {
            Some(ts) => r matches Ok(done) && {
                &&& done.call == call
                &&& done.released == waiting.released
                &&& done.released_ts == ts
                &&& done.write matches Some(write)
                &&& writes_records(
                    write,
                    call.case.project.slug@,
                    seq![forced_record(call, ts)],
                    "forced reservation release archive write project="@
                        + call.case.project.slug@,
                )
                &&& is_notification(done.notification, call)
            },
            None => r is Err && is_tool_error(
                r->Err_0,
                "INCONSISTENT_STATE"@,
                "Reservation release committed but released_ts could not be read back."@,
                false,
                id_tree(id),
            ),
        },
        _ => r == Err::<ForceReleased, McpError>(outcome_error(out)),
    }
}

impl ForceReadBack {
    /// Takes the reservation as it was read again.
    pub fn read_back(self, out: DbOutcome<Vec<FileReservationRow>>) -> (r: Result<
        ForceReleased,
        McpError,
    >)
        ensures
            is_released_verdict(r, self, out),
    {
        let call = self.call;
        let id: i64 = call.case.request.file_reservation_id;
        let rows = match db_outcome_to_mcp_result(out) {
            Ok(rows) => rows,
            Err(error) => return Err(error),
        };
        let released_ts = match find_release(rows, id) {
            Some(ts) => ts,
            None => {
                return Err(
                    legacy_tool_error(
                        "INCONSISTENT_STATE",
                        "Reservation release committed but released_ts could not be read back.",
                        false,
                        id_data(id),
                    ),
                );
            },
        };
        let name = holder_name(&call);
        let record = active_reservation_artifact_json(
            call.case.project.human_key.as_str(),
            name.as_str(),
            &call.case.reservation,
        );
        let record = with(record, "released_ts", json_text(released_ts.iso.as_str()));
        let mut records: Vec<Value> = Vec::new();
        records.push(record);
        proof {
            assert(json_trees(records@) =~= seq![forced_record(call, released_ts)]);
        }
        let write = archive_write(
            &call.case.project,
            records,
            "forced reservation release archive write project=",
        );
        let notification = notification(&call);
        Ok(ForceReleased { call, released: self.released, released_ts, write, notification })
    }
}

/// The text of an optional time, or `null`.
pub open spec fn optional_ts(ts: Option<Timestamp>) -> JsonTree {
    match ts {
        Some(t) => JsonTree::Text(t.iso@),
        None => JsonTree::Null,
    }
}

fn optional_ts_value(ts: &Option<Timestamp>) -> (r: Value)
    ensures
        json_tree(r) == optional_ts(*ts),
{
    match ts {
        Some(t) => json_text(t.iso.as_str()),
        None => json_null(),
    }
}

/// A message, as the database holds it.
#[derive(Debug, Clone)]
pub struct MessageRow {
    pub id: Option<i64>,
    pub subject: String,
    pub body_md: String,
    pub thread_id: Option<String>,
    pub importance: String,
    pub ack_required: i64,
    pub created_ts: Timestamp,
}

/// Whether the holder was notified: a message was due, and the database created it.
/// `created` is how its creation ended, where it was tried.
pub open spec fn was_notified(
    done: ForceReleased,
    created: Option<DbOutcome<MessageRow>>,
) -> bool {
    done.notification is Some && (created matches Some(DbOutcome::Done(_)))
}

/// What is answered to a forced release.
pub open spec fn forced_tree(done: ForceReleased, notified: bool) -> JsonTree {
    let call = done.call;
    let row = call.case.reservation;
    JsonTree::Object(
        map![
            "released"@ => JsonTree::Int(done.released as int),
            "released_at"@ => JsonTree::Text(done.released_ts.iso@),
            "reservation"@ => JsonTree::Object(
                map![
                    "id"@ => JsonTree::Int(call.case.request.file_reservation_id as int),
                    "agent"@ => JsonTree::Text(holder_text(call)),
                    "path_pattern"@ => JsonTree::Text(row.path_pattern@),
                    "exclusive"@ => JsonTree::Bool(row.exclusive != 0),
                    "reason"@ => JsonTree::Text(row.reason@),
                    "created_ts"@ => JsonTree::Text(row.created_ts.iso@),
                    "expires_ts"@ => JsonTree::Text(row.expires_ts.iso@),
                    "released_ts"@ => JsonTree::Text(done.released_ts.iso@),
                    "stale_reasons"@ => text_list(texts(call.signals@)),
                    "last_agent_activity_ts"@ => optional_ts(last_active(call.holder)),
                    "last_mail_activity_ts"@ => optional_ts(call.mail),
                    "last_filesystem_activity_ts"@ => optional_ts(call.activity.fs_activity),
                    "last_git_activity_ts"@ => optional_ts(call.activity.git_activity),
                    "notified"@ => JsonTree::Bool(notified),
                ],
            ),
        ],
    )
}

impl ForceReleased {
    /// Whether the holder was notified. `created` is how the creation of the message
    /// ended, where it was tried.
    pub fn notified(&self, created: &Option<DbOutcome<MessageRow>>) -> (r: bool)
        ensures
            r == was_notified(*self, *created),
    {
        self.notification.is_some() && match created {
            Some(DbOutcome::Done(_)) => true,
            _ => false,
        }
    }

    /// The answer to the forced release, which stands whether or not the holder
    /// could be notified. `created` is how the creation of the message ended, where
    /// it was tried.
    pub fn answer(&self, created: &Option<DbOutcome<MessageRow>>) -> (r: String)
        ensures
            r@ == json_encoding(forced_tree(*self, was_notified(*self, *created))),
    {
        let notified = self.notified(created);
        let call = &self.call;
        let row = &call.case.reservation;
        let name = holder_name(call);
        let agent_ts = match &call.holder {
            Some(holder) => json_text(holder.last_active_ts.iso.as_str()),
            None => json_null(),
        };
        let inner = with(json_object(), "id", json_int(call.case.request.file_reservation_id));
        let inner = with(inner, "agent", json_text(name.as_str()));
        let inner = with(inner, "path_pattern", json_text(row.path_pattern.as_str()));
        let inner = with(inner, "exclusive", json_bool(row.exclusive != 0));
        let inner = with(inner, "reason", json_text(row.reason.as_str()));
        let inner = with(inner, "created_ts", json_text(row.created_ts.iso.as_str()));
        let inner = with(inner, "expires_ts", json_text(row.expires_ts.iso.as_str()));
        let inner = with(inner, "released_ts", json_text(self.released_ts.iso.as_str()));
        let inner = with(inner, "stale_reasons", json_texts(&call.signals));
        let inner = with(inner, "last_agent_activity_ts", agent_ts);
        let inner = with(inner, "last_mail_activity_ts", optional_ts_value(&call.mail));
        let inner = with(
            inner,
            "last_filesystem_activity_ts",
            optional_ts_value(&call.activity.fs_activity),
        );
        let inner = with(
            inner,
            "last_git_activity_ts",
            optional_ts_value(&call.activity.git_activity),
        );
        let inner = with(inner, "notified", json_bool(notified));
        let answer = with(json_object(), "released", json_count(self.released));
        let answer = with(answer, "released_at", json_text(self.released_ts.iso.as_str()));
        let answer = with(answer, "reservation", inner);
        json_string(&answer)
    }
}

/// The archive record of the message to the holder.
pub open spec fn message_tree(done: ForceReleased, message: MessageRow) -> JsonTree {
    let case = done.call.case;
    JsonTree::Object(
        map![
            "id"@ => JsonTree::Int(id_or_zero(message.id) as int),
            "from"@ => JsonTree::Text(case.request.agent_name@),
            "to"@ => JsonTree::List(seq![JsonTree::Text(holder_text(done.call))]),
            "cc"@ => JsonTree::List(Seq::empty()),
            "bcc"@ => JsonTree::List(Seq::empty()),
            "subject"@ => JsonTree::Text(message.subject@),
            "created"@ => JsonTree::Text(message.created_ts.iso@),
            "thread_id"@ => optional_text(optional_view(message.thread_id)),
            "project"@ => JsonTree::Text(case.project.human_key@),
            "project_slug"@ => JsonTree::Text(case.project.slug@),
            "importance"@ => JsonTree::Text(message.importance@),
            "ack_required"@ => JsonTree::Bool(message.ack_required != 0),
            "attachments"@ => JsonTree::List(Seq::empty()),
        ],
    )
}

fn empty_list() -> (r: Value)
    ensures
        json_tree(r) == JsonTree::List(Seq::empty()),
{
    let items: Vec<Value> = Vec::new();
    proof {
        assert(json_trees(items@) =~= Seq::empty());
    }
    json_list(items)
}

impl ForceReleased {
    /// The archive record of the message to the holder, after it was sent as
    /// `message`.
    pub fn message_record(&self, message: &MessageRow) -> (r: Value)
        ensures
            json_tree(r) == message_tree(*self, *message),
    {
        let case = &self.call.case;
        let name = holder_name(&self.call);
        let mut to: Vec<Value> = Vec::new();
        to.push(json_text(name.as_str()));
        proof {
            assert(json_trees(to@) =~= seq![JsonTree::Text(holder_text(self.call))]);
        }
        let record = with(json_object(), "id", json_int(row_id(message.id)));
        let record = with(record, "from", json_text(case.request.agent_name.as_str()));
        let record = with(record, "to", json_list(to));
        let record = with(record, "cc", empty_list());
        let record = with(record, "bcc", empty_list());
        let record = with(record, "subject", json_text(message.subject.as_str()));
        let record = with(record, "created", json_text(message.created_ts.iso.as_str()));
        let record = with(record, "thread_id", json_optional_text(&message.thread_id));
        let record = with(record, "project", json_text(case.project.human_key.as_str()));
        let record = with(record, "project_slug", json_text(case.project.slug.as_str()));
        let record = with(record, "importance", json_text(message.importance.as_str()));
        let record = with(record, "ack_required", json_bool(message.ack_required != 0));
        with(record, "attachments", empty_list())
    }

    /// The name of the holder, to whom the message goes.
    pub fn recipient(&self) -> (r: String)
        ensures
            r@ == holder_text(self.call),
    {
        holder_name(&self.call)
    }
}

/// A reservation that has not expired is released by force only where every sign
/// of activity is old; one that has expired always is.
pub proof fn activity_protects_reservation(
    r: Result<ForceCall, McpError>,
    waiting: ForceActivity,
    activity: PatternActivity,
)
    requires
        is_force_verdict(r, waiting, activity),
    ensures
        r is Ok <==> is_expired(waiting) || is_abandoned(waiting, activity),
        is_expired(waiting) ==> r is Ok,
        !is_expired(waiting) && !is_old(
            last_active(waiting.holder),
            waiting.now,
            waiting.case.inactivity_seconds,
        ) ==> r is Err,
{
}

/// The answer to a forced release says that the holder was notified where the
/// request wants it, the holder still exists and is not the one who asks, and the
/// message was created; and only there. It reports the release either way.
pub proof fn answer_tells_notification(
    done: ForceReleased,
    waiting: ForceReadBack,
    rows: Vec<FileReservationRow>,
    created: Option<DbOutcome<MessageRow>>,
)
    requires
        waiting.released > 0,
        is_released_verdict(Ok(done), waiting, DbOutcome::Done(rows)),
    ensures
        ({
            let answer = forced_tree(done, was_notified(done, created));
            let case = waiting.call.case;
            &&& tree_index(tree_index(answer, "reservation"@), "notified"@) == JsonTree::Bool(
                case.request.notify && (waiting.call.holder matches Some(holder) && holder.name@
                    != case.request.agent_name@) && (created matches Some(DbOutcome::Done(_))),
            )
            &&& tree_index(answer, "released"@) == JsonTree::Int(waiting.released as int)
            &&& waiting.released >= 1
        }),
{
    reveal_strlit("released");
    reveal_strlit("released_at");
    reveal_strlit("reservation");
    reveal_strlit("notified");
    assert("released"@.len() == 8);
    assert("released_at"@.len() == 11);
    assert("reservation"@.len() == 11);
    assert("released_at"@[2] == 'l');
    assert("reservation"@[2] == 's');
    assert("notified"@.len() == 8);
}

/// The archive write of a forced release is that of a released reservation: it is
/// queued for a later try when it fails.
pub proof fn forced_write_is_terminal(
    done: ForceReleased,
    waiting: ForceReadBack,
    out: DbOutcome<Vec<FileReservationRow>>,
)
    requires
        is_released_verdict(Ok(done), waiting, out),
        out is Done,
    ensures
        done.write matches Some(write) && is_terminal_release(write.op),
{
    let write = done.write->0;
    let record = forced_record(done.call, done.released_ts);
    if let WriteOp::FileReservation { reservations, .. } = write.op {
        assert(json_trees(reservations@).len() == reservations@.len());
        assert forall|i: int| 0 <= i < reservations@.len() implies is_release_record(
            json_tree(#[trigger] reservations@[i]),
        ) by {
            assert(json_trees(reservations@)[i] == seq![record][i]);
        }
    }
}

} // verus!
