//! The forced release: what protects a reservation, what is answered, and what its holder
//! is told.

use crate::arith::elapsed_seconds;
use crate::force::{
    activity_line, already_released_tree, body_text, bullets, details_text, forced_record,
    forced_tree, holder_text, id_tree, is_case_verdict, is_force_verdict, is_not_found,
    is_notification, is_old, is_released_verdict, message_tree, note_text, read_back_ts, signals,
    was_notified, ForceActivity, ForceCall, ForceNext, ForceReadBack, ForceReleased, ForceRequest,
    MessageRow, Notification, PatternActivity,
};
use crate::json::{json_encoding, json_tree, json_trees, JsonTree};
use crate::laws::archive::{records_say_it_all, tells_reservation};
use crate::laws::errors::{lists_are_faithful, tool_error_says_it_all};
use crate::laws::text::joining_puts_separators_between;
use crate::model::{
    AgentRow, DbOutcome, FileReservationRow, McpError, McpErrorCode, ProjectRow, Timestamp,
};
use crate::text::{clipped, decimal, joined, texts, utf8_len};
use vstd::prelude::*;

verus! {

/// Whether something happened no longer ago than `seconds`. Ages and limits beyond what
/// 64 bits of microseconds can hold count as the nearest that they can.
pub open spec fn is_recent(ts: Option<Timestamp>, now: i64, seconds: i64) -> bool {
    match ts {
        Some(then) => {
            ||| now - then.micros <= seconds * 1_000_000
            ||| seconds * 1_000_000 >= 0x7fff_ffff_ffff_ffff
            ||| now - then.micros <= -0x8000_0000_0000_0000
        },
        None => false,
    }
}

/// Whether the holder was active within the time of inactivity.
pub open spec fn holder_is_recent(waiting: ForceActivity) -> bool {
    match waiting.holder {
        Some(holder) => is_recent(
            Some(holder.last_active_ts),
            waiting.now,
            waiting.case.inactivity_seconds,
        ),
        None => false,
    }
}

/// A sign of activity is old just where it is not recent; a missing one is old.
pub proof fn old_is_not_recent(ts: Option<Timestamp>, now: i64, seconds: i64)
    ensures
        is_old(ts, now, seconds) <==> !is_recent(ts, now, seconds),
{
}

/// A reservation that has not expired is refused where any one sign is recent, each on
/// its own and whatever the others say: the activity of its holder, the mail, the files,
/// or the repository. Where none is, or the reservation has expired, the release goes on
/// with all that is known.
pub proof fn any_recent_sign_protects(
    r: Result<ForceCall, McpError>,
    waiting: ForceActivity,
    activity: PatternActivity,
)
    requires
        is_force_verdict(r, waiting, activity),
    ensures
        waiting.case.reservation.expires_ts.micros > waiting.now ==> {
            &&& holder_is_recent(waiting) ==> r is Err
            &&& is_recent(waiting.mail, waiting.now, waiting.case.grace_seconds) ==> r is Err
            &&& is_recent(activity.fs_activity, waiting.now, waiting.case.grace_seconds)
                ==> r is Err
            &&& is_recent(activity.git_activity, waiting.now, waiting.case.grace_seconds)
                ==> r is Err
        },
        !holder_is_recent(waiting) && !is_recent(
            waiting.mail,
            waiting.now,
            waiting.case.grace_seconds,
        ) && !is_recent(activity.fs_activity, waiting.now, waiting.case.grace_seconds)
            && !is_recent(activity.git_activity, waiting.now, waiting.case.grace_seconds)
            ==> r is Ok,
        waiting.case.reservation.expires_ts.micros <= waiting.now ==> r is Ok,
        r matches Ok(call) ==> {
            &&& call.case == waiting.case
            &&& call.holder == waiting.holder
            &&& call.now == waiting.now
            &&& call.mail == waiting.mail
            &&& call.activity == activity
        },
{
    let grace = waiting.case.grace_seconds;
    old_is_not_recent(waiting.mail, waiting.now, grace);
    old_is_not_recent(activity.fs_activity, waiting.now, grace);
    old_is_not_recent(activity.git_activity, waiting.now, grace);
    if let Some(holder) = waiting.holder {
        old_is_not_recent(
            Some(holder.last_active_ts),
            waiting.now,
            waiting.case.inactivity_seconds,
        );
    }
}

/// More recent activity on the files never lets a reservation go that was protected.
pub proof fn more_activity_protects_no_less(
    r: Result<ForceCall, McpError>,
    s: Result<ForceCall, McpError>,
    waiting: ForceActivity,
    earlier: PatternActivity,
    later: PatternActivity,
)
    requires
        is_force_verdict(r, waiting, earlier),
        is_force_verdict(s, waiting, later),
        earlier.fs_activity matches Some(a) ==> (later.fs_activity matches Some(b) && b.micros
            >= a.micros),
        earlier.git_activity matches Some(a) ==> (later.git_activity matches Some(b) && b.micros
            >= a.micros),
        r is Err,
    ensures
        s is Err,
{
    any_recent_sign_protects(r, waiting, earlier);
    any_recent_sign_protects(s, waiting, later);
}

/// Whether `text` is what is said of a sign: `when_recent`, or `when_old` and the limit.
pub open spec fn says(
    text: Seq<char>,
    recent: bool,
    when_recent: Seq<char>,
    when_old: Seq<char>,
    seconds: i64,
) -> bool {
    if recent {
        text == when_recent
    } else {
        text == when_old + ">"@ + decimal(seconds as int) + "s"@
    }
}

/// The signals tell of each sign of activity whether it is recent, in the order holder,
/// mail, files, repository; and of the pattern, where no file matches it.
pub proof fn signals_tell_each_sign(waiting: ForceActivity, activity: PatternActivity)
    ensures
        ({
            let grace = waiting.case.grace_seconds;
            let list = signals(waiting, activity);
            &&& activity.matches ==> list.len() == 4
            &&& !activity.matches ==> list.len() == 3 && list[2] == "path_pattern_unmatched"@
            &&& waiting.holder is None ==> list[0] == "agent_missing"@
            &&& waiting.holder is Some ==> says(
                list[0],
                holder_is_recent(waiting),
                "agent_recently_active"@,
                "agent_inactive"@,
                waiting.case.inactivity_seconds,
            )
            &&& says(
                list[1],
                is_recent(waiting.mail, waiting.now, grace),
                "mail_activity_recent"@,
                "no_recent_mail_activity"@,
                grace,
            )
            &&& activity.matches ==> says(
                list[2],
                is_recent(activity.fs_activity, waiting.now, grace),
                "filesystem_activity_recent"@,
                "no_recent_filesystem_activity"@,
                grace,
            )
            &&& activity.matches ==> says(
                list[3],
                is_recent(activity.git_activity, waiting.now, grace),
                "git_activity_recent"@,
                "no_recent_git_activity"@,
                grace,
            )
        }),
{
    let grace = waiting.case.grace_seconds;
    old_is_not_recent(waiting.mail, waiting.now, grace);
    old_is_not_recent(activity.fs_activity, waiting.now, grace);
    old_is_not_recent(activity.git_activity, waiting.now, grace);
    if let Some(holder) = waiting.holder {
        old_is_not_recent(
            Some(holder.last_active_ts),
            waiting.now,
            waiting.case.inactivity_seconds,
        );
    }
}

/// A refusal says that the reservation is in use, which one, and every signal; a release
/// that goes on carries the same signals.
pub proof fn verdict_tells_the_signals(
    r: Result<ForceCall, McpError>,
    waiting: ForceActivity,
    activity: PatternActivity,
)
    requires
        is_force_verdict(r, waiting, activity),
    ensures
        r matches Err(error) ==> {
            let inner = json_tree(error.data->0)->Object_0["error"@]->Object_0;
            let data = inner["data"@]->Object_0;
            &&& error.code == McpErrorCode::ToolExecutionError
            &&& error.data is Some
            &&& inner["type"@] == JsonTree::Text("RESERVATION_ACTIVE"@)
            &&& inner["recoverable"@] == JsonTree::Bool(true)
            &&& data.dom() == set!["file_reservation_id"@, "stale_reasons"@]
            &&& data["file_reservation_id"@] == JsonTree::Int(
                waiting.case.request.file_reservation_id as int,
            )
            &&& data["stale_reasons"@]->List_0.len() == signals(waiting, activity).len()
            &&& forall|i: int|
                0 <= i < signals(waiting, activity).len() ==> (
                #[trigger] data["stale_reasons"@]->List_0[i]) == JsonTree::Text(
                    signals(waiting, activity)[i],
                )
        },
        r matches Ok(call) ==> {
            &&& call.signals@.len() == signals(waiting, activity).len()
            &&& forall|i: int|
                #![trigger call.signals@[i]]
                0 <= i < call.signals@.len() ==> call.signals@[i]@ == signals(waiting, activity)[i]
        },
{
    match r {
        Err(error) => {
            let list = signals(waiting, activity);
            let id = waiting.case.request.file_reservation_id;
            tool_error_says_it_all(
                error,
                "RESERVATION_ACTIVE"@,
                "Reservation still shows recent activity; refusing forced release."@,
                true,
                crate::force::in_use_tree(id, list),
            );
            lists_are_faithful(list, Seq::empty(), Seq::empty(), Seq::empty());
            reveal_strlit("file_reservation_id");
            reveal_strlit("stale_reasons");
            assert("file_reservation_id"@.len() == 19);
            assert("stale_reasons"@.len() == 13);
            let data = crate::force::in_use_tree(id, list)->Object_0;
            assert(data.dom() =~= set!["file_reservation_id"@, "stale_reasons"@]);
        },
        Ok(call) => {
            assert(texts(call.signals@).len() == call.signals@.len());
            assert forall|i: int|
                #![trigger call.signals@[i]]
                0 <= i < call.signals@.len() implies call.signals@[i]@ == signals(
                waiting,
                activity,
            )[i] by {
                assert(texts(call.signals@)[i] == call.signals@[i]@);
            }
        },
    }
}

/// A reservation is looked for by its id in one project: one of another project, or none,
/// is not found; one that was released before is answered with the time of that; and
/// every other one goes on, with the configured limits.
pub proof fn reservation_is_found_in_its_project(
    r: Result<ForceNext, McpError>,
    request: ForceRequest,
    project: ProjectRow,
    actor: AgentRow,
    out: DbOutcome<Vec<FileReservationRow>>,
    inactivity: u64,
    grace: u64,
)
    requires
        is_case_verdict(r, request, project, actor, out, inactivity, grace),
        out is Done,
    ensures
        ({
            let rows = out->Done_0@;
            let last = rows[rows.len() - 1];
            let found = rows.len() > 0 && (project.id == Some(last.project_id) || project.id
                is None && last.project_id == 0);
            &&& !found ==> (r matches Err(error) && is_not_found(
                error,
                request.file_reservation_id,
                project.human_key@,
            ))
            &&& found && last.released_ts is Some ==> (r matches Ok(ForceNext::Answer(text))
                && text@ == json_encoding(already_released_tree(last.released_ts->0.iso@)))
            &&& found && last.released_ts is None ==> {
                &&& r is Ok
                &&& r->Ok_0 matches ForceNext::FindHolder(case)
                &&& case.request == request
                &&& case.project == project
                &&& case.actor == actor
                &&& case.reservation == last
                &&& inactivity <= 0x7fff_ffff_ffff_ffff ==> case.inactivity_seconds == inactivity
                &&& inactivity > 0x7fff_ffff_ffff_ffff ==> case.inactivity_seconds == 1800
                &&& grace <= 0x7fff_ffff_ffff_ffff ==> case.grace_seconds == grace
                &&& grace > 0x7fff_ffff_ffff_ffff ==> case.grace_seconds == 900
            }
        }),
{
}

/// What is answered about a reservation that was not found, or was released before.
pub proof fn refusals_name_the_reservation(
    error: McpError,
    id: i64,
    human_key: Seq<char>,
    released_at: Seq<char>,
)
    ensures
        id_tree(id) is Object,
        id_tree(id)->Object_0.dom() == set!["file_reservation_id"@],
        id_tree(id)->Object_0["file_reservation_id"@] == JsonTree::Int(id as int),
        is_not_found(error, id, human_key) ==> {
            let inner = json_tree(error.data->0)->Object_0["error"@]->Object_0;
            &&& error.code == McpErrorCode::ToolExecutionError
            &&& error.message@ == "File reservation id="@ + decimal(id as int)
                + " not found for project '"@ + human_key + "'."@
            &&& error.data is Some
            &&& inner["type"@] == JsonTree::Text("NOT_FOUND"@)
            &&& inner["recoverable"@] == JsonTree::Bool(true)
            &&& inner["data"@] == id_tree(id)
        },
        already_released_tree(released_at) is Object,
        already_released_tree(released_at)->Object_0.dom() == set![
            "released"@, "released_at"@, "already_released"@,
        ],
        already_released_tree(released_at)->Object_0["released"@] == JsonTree::Int(0),
        already_released_tree(released_at)->Object_0["released_at"@] == JsonTree::Text(released_at),
        already_released_tree(released_at)->Object_0["already_released"@] == JsonTree::Bool(true),
{
    assert(id_tree(id)->Object_0.dom() =~= set!["file_reservation_id"@]);
    if is_not_found(error, id, human_key) {
        tool_error_says_it_all(
            error,
            "NOT_FOUND"@,
            "File reservation id="@ + decimal(id as int) + " not found for project '"@
                + human_key + "'."@,
            true,
            id_tree(id),
        );
    }
    reveal_strlit("released");
    reveal_strlit("released_at");
    reveal_strlit("already_released");
    assert("released"@.len() == 8 && "released_at"@.len() == 11 && "already_released"@.len() == 16);
    assert(already_released_tree(released_at)->Object_0.dom() =~= set![
        "released"@, "released_at"@, "already_released"@,
    ]);
}

/// The time that is read back is that of the first row with the id, and there is none
/// where no row has it. The result is the position of that row.
pub proof fn release_is_read_of_its_row(rows: Seq<FileReservationRow>, id: i64) -> (at: int)
    ensures
        0 <= at <= rows.len(),
        forall|k: int| 0 <= k < at ==> (#[trigger] rows[k]).id != Some(id),
        at < rows.len() ==> rows[at].id == Some(id) && read_back_ts(rows, id)
            == rows[at].released_ts,
        at == rows.len() ==> read_back_ts(rows, id) is None,
    decreases rows.len(),
{
    if rows.len() == 0 {
        0
    } else if rows[0].id == Some(id) {
        0
    } else {
        let rest = rows.drop_first();
        let before = release_is_read_of_its_row(rest, id);
        let at = before + 1;
        assert forall|k: int| 0 <= k < at implies (#[trigger] rows[k]).id != Some(id) by {
            if k > 0 {
                assert(rest[k - 1] == rows[k]);
            }
        }
        if at < rows.len() {
            assert(rest[before] == rows[at]);
        }
        at
    }
}

/// A forced release is done just where the row with its id says when it was released. It
/// then writes one record, of that reservation and its holder, released at that time. The
/// result is the position of the row.
pub proof fn release_is_recorded(
    r: Result<ForceReleased, McpError>,
    waiting: ForceReadBack,
    rows: Vec<FileReservationRow>,
) -> (at: int)
    requires
        is_released_verdict(r, waiting, DbOutcome::Done(rows)),
    ensures
        0 <= at <= rows@.len(),
        forall|k: int|
            0 <= k < at ==> (#[trigger] rows@[k]).id != Some(
                waiting.call.case.request.file_reservation_id,
            ),
        at < rows@.len() ==> rows@[at].id == Some(waiting.call.case.request.file_reservation_id),
        r is Ok <==> at < rows@.len() && rows@[at].released_ts is Some,
        r matches Ok(done) ==> {
            let case = waiting.call.case;
            &&& done.call == waiting.call
            &&& done.released == waiting.released
            &&& Some(done.released_ts) == rows@[at].released_ts
            &&& done.write is Some
            &&& done.write->0.context@ == "forced reservation release archive write project="@
                + case.project.slug@
            &&& done.write->0.op is FileReservation
            &&& done.write->0.op->project_slug@ == case.project.slug@
            &&& done.write->0.op->reservations@.len() == 1
            &&& json_tree(done.write->0.op->reservations@[0]) is Object
            &&& ({
                let members = json_tree(done.write->0.op->reservations@[0])->Object_0;
                &&& tells_reservation(
                    members,
                    case.project.human_key@,
                    holder_text(waiting.call),
                    case.reservation,
                )
                &&& members["released_ts"@] == JsonTree::Text(done.released_ts.iso@)
            })
            &&& is_notification(done.notification, waiting.call)
        },
        r matches Err(error) ==> {
            let inner = json_tree(error.data->0)->Object_0["error"@]->Object_0;
            &&& inner["type"@] == JsonTree::Text("INCONSISTENT_STATE"@)
            &&& inner["recoverable"@] == JsonTree::Bool(false)
            &&& inner["data"@] == id_tree(waiting.call.case.request.file_reservation_id)
        },
{
    let id = waiting.call.case.request.file_reservation_id;
    let at = release_is_read_of_its_row(rows@, id);
    match r {
        Ok(done) => {
            let case = waiting.call.case;
            let record = forced_record(waiting.call, done.released_ts);
            let values = done.write->0.op->reservations@;
            assert(json_trees(values).len() == values.len());
            assert(json_trees(values)[0] == json_tree(values[0]));
            assert(json_tree(values[0]) == record);
            records_say_it_all(case.project.human_key@, holder_text(waiting.call), case.reservation);
            reveal_strlit("id");
            reveal_strlit("project");
            reveal_strlit("agent");
            reveal_strlit("path_pattern");
            reveal_strlit("exclusive");
            reveal_strlit("reason");
            reveal_strlit("created_ts");
            reveal_strlit("expires_ts");
            reveal_strlit("released_ts");
            assert("released_ts"@.len() == 11);
            assert("id"@.len() == 2 && "project"@.len() == 7 && "agent"@.len() == 5);
            assert("path_pattern"@.len() == 12 && "exclusive"@.len() == 9 && "reason"@.len() == 6);
            assert("created_ts"@.len() == 10 && "expires_ts"@.len() == 10);
        },
        Err(error) => {
            tool_error_says_it_all(
                error,
                "INCONSISTENT_STATE"@,
                "Reservation release committed but released_ts could not be read back."@,
                false,
                id_tree(id),
            );
        },
    }
    at
}

/// The holder goes by its name, and by its id where it no longer exists.
pub proof fn holder_is_named(call: ForceCall)
    ensures
        call.holder matches Some(holder) ==> holder_text(call) == holder.name@,
        call.holder is None ==> holder_text(call) == "[unknown-agent-"@ + decimal(
            call.case.reservation.agent_id as int,
        ) + "]"@,
{
}

/// Whether `part` stands somewhere in `text`.
pub open spec fn mentions(text: Seq<char>, part: Seq<char>) -> bool {
    exists|i: int| #[trigger] stands_at(text, part, i)
}

/// Whether `part` stands in `text` from `i` on.
pub open spec fn stands_at(text: Seq<char>, part: Seq<char>, i: int) -> bool {
    0 <= i && i + part.len() <= text.len() && text.subrange(i, i + part.len()) == part
}

proof fn mentioned_between(a: Seq<char>, part: Seq<char>, b: Seq<char>)
    ensures
        mentions(a + part + b, part),
        mentions(a + part, part),
{
    let text = a + part + b;
    let i = a.len() as int;
    assert(text.subrange(i, i + part.len()) =~= part);
    assert(stands_at(text, part, i));
    assert((a + part).subrange(i, i + part.len()) =~= part);
    assert(stands_at(a + part, part, i));
}

proof fn mentioned_in_part(a: Seq<char>, text: Seq<char>, b: Seq<char>, part: Seq<char>)
    requires
        mentions(text, part),
    ensures
        mentions(a + text + b, part),
        mentions(text + b, part),
        mentions(a + text, part),
{
    let i = choose|i: int| #[trigger] stands_at(text, part, i);
    let all = a + text + b;
    let j = a.len() + i;
    assert(all.subrange(j, j + part.len()) =~= text.subrange(i, i + part.len()));
    assert(stands_at(all, part, j));
    assert((text + b).subrange(i, i + part.len()) =~= text.subrange(i, i + part.len()));
    assert(stands_at(text + b, part, i));
    assert((a + text).subrange(j, j + part.len()) =~= text.subrange(i, i + part.len()));
    assert(stands_at(a + text, part, j));
}

proof fn joined_mentions_each(parts: Seq<Seq<char>>, separator: Seq<char>, i: int)
    requires
        0 <= i < parts.len(),
    ensures
        mentions(joined(parts, separator), parts[i]),
    decreases parts.len(),
{
    let none = Seq::<char>::empty();
    if parts.len() == 1 {
        mentioned_between(none, parts[0], none);
        assert(none + parts[0] + none =~= parts[0]);
    } else if i == parts.len() - 1 {
        mentioned_between(joined(parts.drop_last(), separator) + separator, parts[i], none);
    } else {
        joined_mentions_each(parts.drop_last(), separator, i);
        let head = joined(parts.drop_last(), separator);
        mentioned_in_part(none, head, separator, parts[i]);
        mentioned_in_part(none, head + separator, parts.last(), parts[i]);
    }
}

/// Each signal stands as an item of its own in the list of signals.
pub proof fn bullets_mention_each(list: Seq<Seq<char>>, i: int)
    requires
        0 <= i < list.len(),
    ensures
        mentions(bullets(list), "- "@ + list[i]),
{
    let items = list.map_values(|s: Seq<char>| "- "@ + s);
    assert(items[i] == "- "@ + list[i]);
    joined_mentions_each(items, "\n"@, i);
}

/// Signals are listed one below the other, each as an item, and nothing else.
pub proof fn bullets_are_one_below_the_other(
    a: Seq<Seq<char>>,
    b: Seq<Seq<char>>,
    signal: Seq<char>,
)
    ensures
        bullets(Seq::empty()).len() == 0,
        bullets(seq![signal]) == "- "@ + signal,
        a.len() > 0 && b.len() > 0 ==> bullets(a + b) == bullets(a) + "\n"@ + bullets(b),
{
    let item = |s: Seq<char>| "- "@ + s;
    assert(seq![signal].map_values(item) =~= seq!["- "@ + signal]);
    assert((a + b).map_values(item) =~= a.map_values(item) + b.map_values(item));
    assert(Seq::<Seq<char>>::empty().map_values(item) =~= Seq::empty());
    joining_puts_separators_between(
        a.map_values(item),
        b.map_values(item),
        "- "@ + signal,
        "\n"@,
    );
}

/// The line on an activity says how many seconds ago it was, and there is none where
/// there was no activity.
pub proof fn activity_lines_tell_the_age(label: Seq<char>, ts: Option<Timestamp>, now: i64)
    ensures
        ts is None ==> activity_line(label, ts, now).len() == 0,
        ts matches Some(then) ==> {
            let line = activity_line(label, ts, now);
            let age = decimal(elapsed_seconds(now, then.micros));
            &&& line.len() == 2 + label.len() + 3 + age.len() + 6
            &&& line.subrange(0, 2) == "- "@
            &&& line.subrange(2, 2 + label.len() as int) == label
            &&& line.subrange(2 + label.len() as int, 5 + label.len() as int) == " \u{2248} "@
            &&& line.subrange(5 + label.len() as int, 5 + label.len() + age.len() as int) == age
            &&& line.subrange(5 + label.len() + age.len() as int, line.len() as int) == "s ago\n"@
        },
{
    reveal_strlit("- ");
    reveal_strlit(" \u{2248} ");
    reveal_strlit("s ago\n");
    if let Some(then) = ts {
        let line = activity_line(label, ts, now);
        let age = decimal(elapsed_seconds(now, then.micros));
        assert(line.subrange(0, 2) =~= "- "@);
        assert(line.subrange(2, 2 + label.len() as int) =~= label);
        assert(line.subrange(2 + label.len() as int, 5 + label.len() as int)
            =~= " \u{2248} "@);
        assert(line.subrange(5 + label.len() as int, 5 + label.len() + age.len() as int) =~= age);
        assert(line.subrange(5 + label.len() + age.len() as int, line.len() as int) =~= "s ago\n"@);
    }
}

/// The details have a line for each activity there was, one for a holder that no longer
/// exists, and the limits, and are no longer than that.
pub proof fn details_mention_each_activity(call: ForceCall)
    ensures
        call.holder matches Some(holder) ==> mentions(
            details_text(call),
            activity_line("last agent activity"@, Some(holder.last_active_ts), call.now),
        ),
        call.holder is None ==> mentions(details_text(call), "- holder agent metadata missing\n"@),
        mentions(details_text(call), activity_line("last mail activity"@, call.mail, call.now)),
        mentions(
            details_text(call),
            activity_line("last filesystem activity"@, call.activity.fs_activity, call.now),
        ),
        mentions(
            details_text(call),
            activity_line("last git commit"@, call.activity.git_activity, call.now),
        ),
        mentions(
            details_text(call),
            "- inactivity threshold="@ + decimal(call.case.inactivity_seconds as int)
                + "s grace="@ + decimal(call.case.grace_seconds as int) + "s"@,
        ),
        details_text(call).len() == (if call.holder is Some {
            activity_line(
                "last agent activity"@,
                Some(call.holder->0.last_active_ts),
                call.now,
            ).len()
        } else {
            "- holder agent metadata missing\n"@.len()
        }) + activity_line("last mail activity"@, call.mail, call.now).len() + activity_line(
            "last filesystem activity"@,
            call.activity.fs_activity,
            call.now,
        ).len() + activity_line("last git commit"@, call.activity.git_activity, call.now).len() + (
        "- inactivity threshold="@ + decimal(call.case.inactivity_seconds as int) + "s grace="@
            + decimal(call.case.grace_seconds as int) + "s"@).len(),
{
    let none = Seq::<char>::empty();
    let agent = match call.holder {
        Some(holder) => activity_line(
            "last agent activity"@,
            Some(holder.last_active_ts),
            call.now,
        ),
        None => "- holder agent metadata missing\n"@,
    };
    let mail = activity_line("last mail activity"@, call.mail, call.now);
    let fs = activity_line("last filesystem activity"@, call.activity.fs_activity, call.now);
    let git = activity_line("last git commit"@, call.activity.git_activity, call.now);
    let limits = "- inactivity threshold="@ + decimal(call.case.inactivity_seconds as int)
        + "s grace="@ + decimal(call.case.grace_seconds as int) + "s"@;
    let all = details_text(call);
    assert(all =~= none + agent + (mail + fs + git + limits));
    mentioned_between(none, agent, mail + fs + git + limits);
    assert(all =~= agent + mail + (fs + git + limits));
    mentioned_between(agent, mail, fs + git + limits);
    assert(all =~= (agent + mail) + fs + (git + limits));
    mentioned_between(agent + mail, fs, git + limits);
    assert(all =~= (agent + mail + fs) + git + limits);
    mentioned_between(agent + mail + fs, git, limits);
    assert(all =~= (agent + mail + fs + git) + limits);
    mentioned_between(agent + mail + fs + git, limits, none);
}

/// A note of at most 4096 bytes is passed on whole; of a longer one, the start that fits;
/// and of none, nothing.
pub proof fn note_is_passed_on(note: Option<String>)
    ensures
        note is None ==> note_text(note).len() == 0,
        note matches Some(n) ==> {
            &&& clipped(n@, 4096).len() == 0 ==> note_text(note).len() == 0
            &&& clipped(n@, 4096).len() > 0 ==> note_text(note) == "**Note:** "@ + clipped(
                n@,
                4096,
            )
            &&& n@.len() > 0 && utf8_len(n@) <= 4096 ==> note_text(note) == "**Note:** "@ + n@
        },
{
}

/// What is left of a text that is too long is its start, takes no more bytes than there
/// are, and could not have one character more.
pub proof fn clipping_keeps_what_fits(s: Seq<char>, limit: nat)
    ensures
        clipped(s, limit).is_prefix_of(s),
        utf8_len(clipped(s, limit)) <= limit,
        clipped(s, limit).len() < s.len() ==> utf8_len(
            s.take(clipped(s, limit).len() as int + 1),
        ) > limit,
    decreases s.len(),
{
    reveal_with_fuel(vstd::utf8::encode_utf8, 2);
    if s.len() == 0 {
        assert(s =~= Seq::empty());
    } else if utf8_len(s) > limit {
        let head = s.drop_last();
        clipping_keeps_what_fits(head, limit);
        let kept = clipped(head, limit);
        assert(head.is_prefix_of(s));
        assert(kept =~= s.take(kept.len() as int));
        if kept.len() < head.len() {
            assert(head.take(kept.len() as int + 1) =~= s.take(kept.len() as int + 1));
        } else {
            assert(s.take(kept.len() as int + 1) =~= s);
        }
    }
}

/// The message names the path, the reservation and the agent that asked, and holds every
/// signal, the details and the note.
pub proof fn message_says_what_happened(call: ForceCall)
    ensures
        mentions(
            body_text(call),
            "Your file reservation on `"@ + call.case.reservation.path_pattern@ + "` (id="@
                + decimal(call.case.request.file_reservation_id as int)
                + ") was force-released by **"@ + call.case.request.agent_name@,
        ),
        forall|i: int|
            #![trigger call.signals@[i]]
            0 <= i < call.signals@.len() ==> mentions(
                body_text(call),
                "- "@ + call.signals@[i]@,
            ),
        mentions(body_text(call), details_text(call)),
        mentions(body_text(call), note_text(call.case.request.note)),
        body_text(call) == "Your file reservation on `"@ + call.case.reservation.path_pattern@
            + "` (id="@ + decimal(call.case.request.file_reservation_id as int)
            + ") was force-released by **"@ + call.case.request.agent_name@
            + "**.\n\n**Observed signals:**\n"@ + bullets(texts(call.signals@))
            + "\n\n**Details:**\n"@ + details_text(call) + "\n\n"@ + note_text(
            call.case.request.note,
        ) + "\n\nYou can re-acquire the reservation if still needed."@,
{
    let none = Seq::<char>::empty();
    let list = bullets(texts(call.signals@));
    let details = details_text(call);
    let note = note_text(call.case.request.note);
    let tail = "\n\nYou can re-acquire the reservation if still needed."@;
    let all = body_text(call);
    let start = "Your file reservation on `"@ + call.case.reservation.path_pattern@ + "` (id="@
        + decimal(call.case.request.file_reservation_id as int) + ") was force-released by **"@
        + call.case.request.agent_name@;
    let to_list = start + "**.\n\n**Observed signals:**\n"@;
    let after_list = to_list + list;
    let to_details = after_list + "\n\n**Details:**\n"@;
    let after_details = to_details + details;
    let to_note = after_details + "\n\n"@;
    let after_note = to_note + note;
    assert(all == after_note + tail);
    mentioned_between(none, start, none);
    assert(none + start =~= start);
    still_mentioned(start, "**.\n\n**Observed signals:**\n"@, start);
    still_mentioned(to_list, list, start);
    still_mentioned_after_list(after_list, details, note, tail, start);
    assert forall|i: int|
        #![trigger call.signals@[i]]
        0 <= i < call.signals@.len() implies mentions(all, "- "@ + call.signals@[i]@) by {
        let item = "- "@ + call.signals@[i]@;
        assert(texts(call.signals@)[i] == call.signals@[i]@);
        bullets_mention_each(texts(call.signals@), i);
        mentioned_in_part(to_list, list, none, item);
        still_mentioned_after_list(after_list, details, note, tail, item);
    }
    mentioned_between(to_details, details, none);
    still_mentioned(after_details, "\n\n"@, details);
    still_mentioned(to_note, note, details);
    still_mentioned(after_note, tail, details);
    mentioned_between(to_note, note, none);
    still_mentioned(after_note, tail, note);
}

proof fn still_mentioned(text: Seq<char>, more: Seq<char>, part: Seq<char>)
    requires
        mentions(text, part),
    ensures
        mentions(text + more, part),
{
    mentioned_in_part(Seq::empty(), text, more, part);
}

proof fn still_mentioned_after_list(
    text: Seq<char>,
    details: Seq<char>,
    note: Seq<char>,
    tail: Seq<char>,
    part: Seq<char>,
)
    requires
        mentions(text, part),
    ensures
        mentions(
            text + "\n\n**Details:**\n"@ + details + "\n\n"@ + note + tail,
            part,
        ),
{
    still_mentioned(text, "\n\n**Details:**\n"@, part);
    still_mentioned(text + "\n\n**Details:**\n"@, details, part);
    still_mentioned(text + "\n\n**Details:**\n"@ + details, "\n\n"@, part);
    still_mentioned(text + "\n\n**Details:**\n"@ + details + "\n\n"@, note, part);
    still_mentioned(text + "\n\n**Details:**\n"@ + details + "\n\n"@ + note, tail, part);
}

/// Whether `n` is the id, or zero where there is none.
pub open spec fn is_id(n: i64, id: Option<i64>) -> bool {
    id == Some(n) || id is None && n == 0
}

/// A message is sent just where the request wants it, the holder still exists and goes by
/// another name than the one who asks: from that one to the holder.
pub proof fn holder_is_notified(notification: Option<Notification>, call: ForceCall)
    requires
        is_notification(notification, call),
    ensures
        notification is Some <==> call.case.request.notify && call.holder is Some
            && call.holder->0.name@ != call.case.request.agent_name@,
        notification matches Some(message) ==> {
            &&& is_id(message.project_id, call.case.project.id)
            &&& is_id(message.sender_id, call.case.actor.id)
            &&& is_id(message.recipient_id, call.holder->0.id)
            &&& message.recipient_kind@ == "to"@
            &&& message.importance@ == "normal"@
            &&& message.attachments@ == "[]"@
            &&& message.thread_id is None
            &&& !message.ack_required
            &&& message.subject@ == "[file-reservations] Released stale lock on "@
                + call.case.reservation.path_pattern@
            &&& message.body@ == body_text(call)
        },
{
}

/// Whether `tree` is the text of a time, or `null` where there is none.
pub open spec fn tells_time(tree: JsonTree, ts: Option<Timestamp>) -> bool {
    match ts {
        Some(then) => tree == JsonTree::Text(then.iso@),
        None => tree == JsonTree::Null,
    }
}

/// The answer says how many were released and when, and of the reservation all that the
/// database and the signs of activity say.
pub proof fn forced_answer_says_it_all(done: ForceReleased, notified: bool)
    ensures
        forced_tree(done, notified) is Object,
        forced_tree(done, notified)->Object_0.dom() == set![
            "released"@, "released_at"@, "reservation"@,
        ],
        forced_tree(done, notified)->Object_0["released"@] == JsonTree::Int(done.released as int),
        forced_tree(done, notified)->Object_0["released_at"@] == JsonTree::Text(
            done.released_ts.iso@,
        ),
        forced_tree(done, notified)->Object_0["reservation"@] is Object,
        ({
            let call = done.call;
            let row = call.case.reservation;
            let inner = forced_tree(done, notified)->Object_0["reservation"@]->Object_0;
            &&& inner.dom() == set![
                "id"@, "agent"@, "path_pattern"@, "exclusive"@, "reason"@, "created_ts"@,
                "expires_ts"@, "released_ts"@, "stale_reasons"@, "last_agent_activity_ts"@,
                "last_mail_activity_ts"@, "last_filesystem_activity_ts"@,
                "last_git_activity_ts"@, "notified"@,
            ]
            &&& inner["id"@] == JsonTree::Int(call.case.request.file_reservation_id as int)
            &&& inner["agent"@] == JsonTree::Text(holder_text(call))
            &&& inner["path_pattern"@] == JsonTree::Text(row.path_pattern@)
            &&& inner["exclusive"@] == JsonTree::Bool(row.exclusive != 0)
            &&& inner["reason"@] == JsonTree::Text(row.reason@)
            &&& inner["created_ts"@] == JsonTree::Text(row.created_ts.iso@)
            &&& inner["expires_ts"@] == JsonTree::Text(row.expires_ts.iso@)
            &&& inner["released_ts"@] == JsonTree::Text(done.released_ts.iso@)
            &&& inner["stale_reasons"@]->List_0.len() == call.signals@.len()
            &&& forall|i: int|
                #![trigger call.signals@[i]]
                0 <= i < call.signals@.len() ==> inner["stale_reasons"@]->List_0[i]
                    == JsonTree::Text(call.signals@[i]@)
            &&& call.holder is Some ==> tells_time(
                inner["last_agent_activity_ts"@],
                Some(call.holder->0.last_active_ts),
            )
            &&& call.holder is None ==> tells_time(inner["last_agent_activity_ts"@], None)
            &&& tells_time(inner["last_mail_activity_ts"@], call.mail)
            &&& tells_time(inner["last_filesystem_activity_ts"@], call.activity.fs_activity)
            &&& tells_time(inner["last_git_activity_ts"@], call.activity.git_activity)
            &&& inner["notified"@] == JsonTree::Bool(notified)
        }),
{
    let call = done.call;
    let tree = forced_tree(done, notified)->Object_0;
    let inner = tree["reservation"@]->Object_0;
    lists_are_faithful(texts(call.signals@), Seq::empty(), Seq::empty(), call.signals@);
    reveal_strlit("released");
    reveal_strlit("released_at");
    reveal_strlit("reservation");
    reveal_strlit("id");
    reveal_strlit("agent");
    reveal_strlit("path_pattern");
    reveal_strlit("exclusive");
    reveal_strlit("reason");
    reveal_strlit("created_ts");
    reveal_strlit("expires_ts");
    reveal_strlit("released_ts");
    reveal_strlit("stale_reasons");
    reveal_strlit("last_agent_activity_ts");
    reveal_strlit("last_mail_activity_ts");
    reveal_strlit("last_filesystem_activity_ts");
    reveal_strlit("last_git_activity_ts");
    reveal_strlit("notified");
    assert("released"@.len() == 8 && "released_at"@.len() == 11 && "reservation"@.len() == 11);
    assert("released_at"@[2] == 'l' && "reservation"@[2] == 's');
    assert("id"@.len() == 2 && "agent"@.len() == 5 && "path_pattern"@.len() == 12);
    assert("exclusive"@.len() == 9 && "reason"@.len() == 6 && "created_ts"@.len() == 10);
    assert("expires_ts"@.len() == 10 && "released_ts"@.len() == 11);
    assert("created_ts"@[0] == 'c' && "expires_ts"@[0] == 'e');
    assert("stale_reasons"@.len() == 13 && "last_agent_activity_ts"@.len() == 22);
    assert("last_mail_activity_ts"@.len() == 21 && "last_filesystem_activity_ts"@.len() == 27);
    assert("last_git_activity_ts"@.len() == 20 && "notified"@.len() == 8);
    assert(tree.dom() =~= set!["released"@, "released_at"@, "reservation"@]);
    assert(inner.dom() =~= set![
        "id"@, "agent"@, "path_pattern"@, "exclusive"@, "reason"@, "created_ts"@,
        "expires_ts"@, "released_ts"@, "stale_reasons"@, "last_agent_activity_ts"@,
        "last_mail_activity_ts"@, "last_filesystem_activity_ts"@,
        "last_git_activity_ts"@, "notified"@,
    ]);
    assert forall|i: int|
        #![trigger call.signals@[i]]
        0 <= i < call.signals@.len() implies inner["stale_reasons"@]->List_0[i]
        == JsonTree::Text(call.signals@[i]@) by {
        assert(texts(call.signals@)[i] == call.signals@[i]@);
    }
}

/// The holder counts as notified where a message was due and the database created it,
/// and nowhere else.
pub proof fn notified_means_created(done: ForceReleased, created: Option<DbOutcome<MessageRow>>)
    ensures
        done.notification is None ==> !was_notified(done, created),
        created is None ==> !was_notified(done, created),
        created is Some && done.notification is Some ==> (was_notified(done, created)
            <==> created->0 is Done),
{
}

/// The record of the message names its sender and its one recipient, and says what the
/// database says of it.
pub proof fn message_record_says_it_all(done: ForceReleased, message: MessageRow)
    ensures
        message_tree(done, message) is Object,
        ({
            let case = done.call.case;
            let members = message_tree(done, message)->Object_0;
            &&& members.dom() == set![
                "id"@, "from"@, "to"@, "cc"@, "bcc"@, "subject"@, "created"@, "thread_id"@,
                "project"@, "project_slug"@, "importance"@, "ack_required"@, "attachments"@,
            ]
            &&& message.id matches Some(id) ==> members["id"@] == JsonTree::Int(id as int)
            &&& message.id is None ==> members["id"@] == JsonTree::Int(0)
            &&& members["from"@] == JsonTree::Text(case.request.agent_name@)
            &&& members["to"@] is List
            &&& members["to"@]->List_0.len() == 1
            &&& members["to"@]->List_0[0] == JsonTree::Text(holder_text(done.call))
            &&& members["cc"@] is List && members["cc"@]->List_0.len() == 0
            &&& members["bcc"@] is List && members["bcc"@]->List_0.len() == 0
            &&& members["subject"@] == JsonTree::Text(message.subject@)
            &&& members["created"@] == JsonTree::Text(message.created_ts.iso@)
            &&& message.thread_id matches Some(thread) ==> members["thread_id"@]
                == JsonTree::Text(thread@)
            &&& message.thread_id is None ==> members["thread_id"@] == JsonTree::Null
            &&& members["project"@] == JsonTree::Text(case.project.human_key@)
            &&& members["project_slug"@] == JsonTree::Text(case.project.slug@)
            &&& members["importance"@] == JsonTree::Text(message.importance@)
            &&& members["ack_required"@] == JsonTree::Bool(message.ack_required != 0)
            &&& members["attachments"@] is List && members["attachments"@]->List_0.len() == 0
        }),
{
    let members = message_tree(done, message)->Object_0;
    reveal_strlit("id");
    reveal_strlit("from");
    reveal_strlit("to");
    reveal_strlit("cc");
    reveal_strlit("bcc");
    reveal_strlit("subject");
    reveal_strlit("created");
    reveal_strlit("thread_id");
    reveal_strlit("project");
    reveal_strlit("project_slug");
    reveal_strlit("importance");
    reveal_strlit("ack_required");
    reveal_strlit("attachments");
    assert("id"@.len() == 2 && "to"@.len() == 2 && "cc"@.len() == 2);
    assert("id"@[0] == 'i' && "to"@[0] == 't' && "cc"@[0] == 'c');
    assert("from"@.len() == 4 && "bcc"@.len() == 3 && "thread_id"@.len() == 9);
    assert("subject"@.len() == 7 && "created"@.len() == 7 && "project"@.len() == 7);
    assert("subject"@[0] == 's' && "created"@[0] == 'c' && "project"@[0] == 'p');
    assert("project_slug"@.len() == 12 && "ack_required"@.len() == 12);
    assert("project_slug"@[0] == 'p' && "ack_required"@[0] == 'a');
    assert("importance"@.len() == 10 && "attachments"@.len() == 11);
    assert(members.dom() =~= set![
        "id"@, "from"@, "to"@, "cc"@, "bcc"@, "subject"@, "created"@, "thread_id"@,
        "project"@, "project_slug"@, "importance"@, "ack_required"@, "attachments"@,
    ]);
}

} // verus!
