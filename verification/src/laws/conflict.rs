//! The conflict check: what it refuses, whom it asks for, and what it answers for each
//! path.

use crate::conflict::{
    answer_for, answers_match, count_true, distinct, first_flaw, first_unmatchable,
    first_unverifiable, is_caller_verdict, is_check_answer, is_check_verdict, is_malformed,
    is_match_verdict, is_paths_verdict, is_scan_verdict, lease_before, listed_count, listed_holder,
    name_of, others, overlapping, overlapping_is_complete, path_flaw, payload_too_large_tree,
    placed, reservation_error_tree, same_lease, snapshot_too_large_tree, too_many_paths_tree,
    total_bytes, ConflictCheck, ConflictCheckCaller, ConflictMatch, ConflictScan, PathFlaw,
    ReservationConflictSnapshot, SnapshotReservation,
};
use crate::errors::fail_closed_tree;
use crate::filter::{is_relative_run, PathStop};
use crate::json::{json_tree, text_list, JsonTree};
use crate::laws::acquire::{is_rising, rising_push};
use crate::laws::errors::{error_data_says_it_all, lists_are_faithful, tool_error_says_it_all};
use crate::laws::lookup::answered_views_are_faithful;
use crate::machine::Machine;
use crate::model::{
    conflict_views, DbOutcome, McpError, McpErrorCode, ReservationConflict,
    ReservationConflictCheckResponse,
};
use crate::patterns::{invalidity, PatternFacts};
use crate::text::{debug_text, decimal, text_before, texts, trimmed, utf8_len};
use vstd::prelude::*;

verus! {

/// Whether `error` refuses the check of `paths`: it is of this type, and its data says
/// that nothing is cleared, and names every path as one not to edit.
pub open spec fn refuses(
    error: McpError,
    kind: Seq<char>,
    recoverable: bool,
    paths: Seq<String>,
) -> bool {
    let inner = json_tree(error.data->0)->Object_0["error"@]->Object_0;
    let data = inner["data"@]->Object_0;
    &&& error.code == McpErrorCode::ToolExecutionError
    &&& error.data is Some
    &&& inner["type"@] == JsonTree::Text(kind)
    &&& inner["recoverable"@] == JsonTree::Bool(recoverable)
    &&& inner["data"@] is Object
    &&& data["fail_closed"@] == JsonTree::Bool(true)
    &&& data["do_not_edit"@] is List
    &&& data["do_not_edit"@]->List_0.len() == paths.len()
    &&& forall|i: int|
        #![trigger paths[i]]
        0 <= i < paths.len() ==> data["do_not_edit"@]->List_0[i] == JsonTree::Text(paths[i]@)
}

/// Whether the data of `error` has the number `n` under `key`.
pub open spec fn tells_number(error: McpError, key: Seq<char>, n: int) -> bool {
    json_tree(error.data->0)->Object_0["error"@]->Object_0["data"@]->Object_0[key]
        == JsonTree::Int(n)
}

proof fn refusal(
    error: McpError,
    kind: Seq<char>,
    message: Seq<char>,
    recoverable: bool,
    data: JsonTree,
    paths: Seq<String>,
    id: i64,
)
    requires
        crate::errors::is_tool_error(error, kind, message, recoverable, data),
        data == fail_closed_tree(paths) || data == too_many_paths_tree(paths) || data
            == payload_too_large_tree(paths) || data == snapshot_too_large_tree(paths) || data
            == reservation_error_tree(id, paths),
    ensures
        refuses(error, kind, recoverable, paths),
        error.message@ == message,
        data == too_many_paths_tree(paths) ==> tells_number(error, "count"@, paths.len() as int)
            && tells_number(error, "max"@, 200),
        data == payload_too_large_tree(paths) ==> tells_number(
            error,
            "payload_bytes"@,
            total_bytes(paths) as int,
        ) && tells_number(error, "max"@, 65_536),
        data == snapshot_too_large_tree(paths) ==> tells_number(error, "max"@, 10_000),
        data == reservation_error_tree(id, paths) ==> tells_number(
            error,
            "reservation_id"@,
            id as int,
        ),
{
    tool_error_says_it_all(error, kind, message, recoverable, data);
    error_data_says_it_all(kind, paths);
    lists_are_faithful(texts(paths), Seq::empty(), Seq::empty(), paths);
    reveal_strlit("fail_closed");
    reveal_strlit("do_not_edit");
    reveal_strlit("count");
    reveal_strlit("max");
    reveal_strlit("payload_bytes");
    reveal_strlit("reservation_id");
    assert("fail_closed"@[0] == 'f' && "do_not_edit"@[0] == 'd');
    assert("fail_closed"@.len() == 11 && "do_not_edit"@.len() == 11);
    assert("count"@.len() == 5 && "max"@.len() == 3 && "payload_bytes"@.len() == 13);
    assert("reservation_id"@.len() == 14);
    assert forall|i: int|
        #![trigger paths[i]]
        0 <= i < paths.len() implies data->Object_0["do_not_edit"@]->List_0[i]
        == JsonTree::Text(paths[i]@) by {
        assert(texts(paths)[i] == paths[i]@);
        assert(text_list(texts(paths))->List_0[i] == JsonTree::Text(texts(paths)[i]));
    }
}

/// The bytes of some paths together are those of each, added up.
pub proof fn bytes_add_up(a: Seq<String>, b: Seq<String>, path: String)
    ensures
        total_bytes(Seq::empty()) == 0,
        total_bytes(seq![path]) == utf8_len(path@),
        total_bytes(a + b) == total_bytes(a) + total_bytes(b),
    decreases b.len(),
{
    reveal_with_fuel(total_bytes, 2);
    assert(seq![path].drop_last() =~= Seq::empty());
    if b.len() == 0 {
        assert(a + b =~= a);
    } else {
        assert((a + b).drop_last() =~= a + b.drop_last());
        bytes_add_up(a, b.drop_last(), path);
    }
}

/// Whether a path can be checked by itself: it has at most 4096 bytes and no NUL.
pub open spec fn is_checkable(path: Seq<char>) -> bool {
    &&& utf8_len(path) <= 4096
    &&& forall|i: int| 0 <= i < path.len() ==> #[trigger] path[i] != '\0'
}

proof fn flaws_are_told(path: Seq<char>)
    ensures
        path_flaw(path) is None <==> is_checkable(path),
        path_flaw(path) matches Some(PathFlaw::TooLong) <==> utf8_len(path) > 4096,
{
    if is_checkable(path) {
        assert(!path.contains('\0'));
    }
    if utf8_len(path) <= 4096 && !is_checkable(path) {
        let i = choose|i: int| 0 <= i < path.len() && #[trigger] path[i] == '\0';
        assert(path.contains('\0'));
    }
}

proof fn first_flaw_position(paths: Seq<String>) -> (at: int)
    ensures
        0 <= at <= paths.len(),
        forall|k: int| 0 <= k < at ==> is_checkable((#[trigger] paths[k])@),
        at < paths.len() ==> !is_checkable(paths[at]@) && first_flaw(paths) == path_flaw(
            paths[at]@,
        ),
        at == paths.len() ==> first_flaw(paths) is None,
    decreases paths.len(),
{
    if paths.len() == 0 {
        0
    } else {
        let head = paths.drop_last();
        let before = first_flaw_position(head);
        flaws_are_told(paths.last()@);
        if before < head.len() {
            flaws_are_told(head[before]@);
        }
        assert forall|k: int| 0 <= k < before implies is_checkable((#[trigger] paths[k])@) by {
            assert(head[k] == paths[k]);
        }
        if before < head.len() {
            before
        } else if is_checkable(paths.last()@) {
            paths.len() as int
        } else {
            paths.len() - 1
        }
    }
}

/// A check takes from 1 to 200 paths, each of at most 4096 bytes and without NUL, of at
/// most 65536 bytes together, and no others. What it refuses says why; of paths that
/// cannot be checked by themselves the first decides. The result is its position.
pub proof fn paths_are_judged_in_order(r: Result<(), McpError>, paths: Seq<String>) -> (at: int)
    requires
        is_paths_verdict(r, paths),
    ensures
        0 <= at <= paths.len(),
        forall|k: int| 0 <= k < at ==> is_checkable((#[trigger] paths[k])@),
        at < paths.len() ==> !is_checkable(paths[at]@),
        r is Ok <==> 0 < paths.len() <= 200 && at == paths.len() && total_bytes(paths) <= 65_536,
        r matches Err(error) ==> {
            &&& paths.len() == 0 ==> refuses(error, "EMPTY_PATHS"@, true, paths)
            &&& paths.len() > 200 ==> refuses(error, "TOO_MANY_PATHS"@, true, paths)
                && tells_number(error, "count"@, paths.len() as int) && tells_number(
                error,
                "max"@,
                200,
            )
            &&& 0 < paths.len() <= 200 && at < paths.len() && utf8_len(paths[at]@) > 4096
                ==> refuses(error, "PATH_TOO_LONG"@, true, paths)
            &&& 0 < paths.len() <= 200 && at < paths.len() && utf8_len(paths[at]@) <= 4096
                ==> refuses(error, "INVALID_PATH"@, true, paths)
            &&& 0 < paths.len() <= 200 && at == paths.len() ==> refuses(
                error,
                "PAYLOAD_TOO_LARGE"@,
                true,
                paths,
            ) && tells_number(error, "payload_bytes"@, total_bytes(paths) as int)
                && tells_number(error, "max"@, 65_536)
        },
{
    let at = first_flaw_position(paths);
    if at < paths.len() {
        flaws_are_told(paths[at]@);
    }
    if let Err(error) = r {
        let closed = fail_closed_tree(paths);
        if paths.len() == 0 {
            refusal(error, "EMPTY_PATHS"@, "paths list cannot be empty"@, true, closed, paths, 0);
        } else if paths.len() > 200 {
            refusal(
                error,
                "TOO_MANY_PATHS"@,
                "Maximum 200 paths per conflict check, got "@ + decimal(paths.len() as int),
                true,
                too_many_paths_tree(paths),
                paths,
                0,
            );
        } else if at == paths.len() {
            refusal(
                error,
                "PAYLOAD_TOO_LARGE"@,
                "Combined paths exceed the 65536-byte conflict-check limit"@,
                true,
                payload_too_large_tree(paths),
                paths,
                0,
            );
        } else if utf8_len(paths[at]@) > 4096 {
            refusal(
                error,
                "PATH_TOO_LONG"@,
                "Path exceeds the 4096-byte conflict-check limit"@,
                true,
                closed,
                paths,
                0,
            );
        } else {
            refusal(error, "INVALID_PATH"@, "Path contains a NUL byte"@, true, closed, paths, 0);
        }
    }
    at
}

/// Whether a request asks for an anonymous check.
pub open spec fn asks_anonymously(caller_mode: Option<String>) -> bool {
    caller_mode is Some && trimmed(caller_mode->0@) == "anonymous"@
}

/// Whether a request asks for a check in the name of an agent.
pub open spec fn asks_by_name(caller_mode: Option<String>) -> bool {
    caller_mode is None || trimmed(caller_mode->0@) == "named"@
}

/// Whether an agent can go by `name`, which has no white space around it.
pub open spec fn is_usable_name(name: Seq<char>) -> bool {
    &&& 0 < name.len()
    &&& utf8_len(name) <= 256
    &&& forall|i: int| 0 <= i < name.len() ==> #[trigger] name[i] != '\0'
}

proof fn nul_is_a_character(s: Seq<char>)
    ensures
        s.contains('\0') <==> exists|i: int| 0 <= i < s.len() && #[trigger] s[i] == '\0',
{
    if s.contains('\0') {
        let i = choose|i: int| 0 <= i < s.len() && s[i] == '\0';
        assert(s[i] == '\0');
    }
}

/// A check is made in the name of an agent unless it is asked for anonymously in so many
/// words; a name and anonymity exclude each other, and one of them there has to be.
pub proof fn caller_is_who_is_named(
    r: Result<ConflictCheckCaller, McpError>,
    agent_name: Option<String>,
    caller_mode: Option<String>,
    paths: Seq<String>,
)
    requires
        is_caller_verdict(r, agent_name, caller_mode, paths),
    ensures
        r is Ok <==> {
            ||| asks_anonymously(caller_mode) && agent_name is None
            ||| asks_by_name(caller_mode) && agent_name is Some && is_usable_name(
                trimmed(agent_name->0@),
            )
        },
        r matches Ok(caller) ==> {
            &&& asks_anonymously(caller_mode) ==> caller is Anonymous
            &&& asks_by_name(caller_mode) ==> (caller matches ConflictCheckCaller::Named(name)
                && name@ == trimmed(agent_name->0@))
        },
        r matches Err(error) ==> {
            &&& asks_by_name(caller_mode) && agent_name is None ==> refuses(
                error,
                "MISSING_AGENT_NAME"@,
                true,
                paths,
            )
            &&& asks_by_name(caller_mode) && agent_name is Some ==> refuses(
                error,
                "INVALID_AGENT_NAME"@,
                true,
                paths,
            )
            &&& asks_anonymously(caller_mode) ==> refuses(
                error,
                "AMBIGUOUS_CALLER_MODE"@,
                true,
                paths,
            )
            &&& !asks_by_name(caller_mode) && !asks_anonymously(caller_mode) ==> refuses(
                error,
                "INVALID_CALLER_MODE"@,
                true,
                paths,
            ) && error.message@ == "caller_mode must be 'named' or 'anonymous', got "@
                + debug_text(trimmed(caller_mode->0@))
        },
{
    reveal_strlit("named");
    reveal_strlit("anonymous");
    assert("named"@.len() == 5 && "anonymous"@.len() == 9);
    if let Some(name) = agent_name {
        nul_is_a_character(trimmed(name@));
    }
    if let Err(error) = r {
        let data = fail_closed_tree(paths);
        if asks_by_name(caller_mode) && agent_name is None {
            refusal(
                error,
                "MISSING_AGENT_NAME"@,
                "agent_name is required unless caller_mode is explicitly 'anonymous'"@,
                true,
                data,
                paths,
                0,
            );
        } else if asks_by_name(caller_mode) {
            refusal(
                error,
                "INVALID_AGENT_NAME"@,
                "agent_name must be non-empty, NUL-free, and at most 256 bytes"@,
                true,
                data,
                paths,
                0,
            );
        } else if asks_anonymously(caller_mode) {
            refusal(
                error,
                "AMBIGUOUS_CALLER_MODE"@,
                "agent_name must be omitted when caller_mode is 'anonymous'"@,
                true,
                data,
                paths,
                0,
            );
        } else {
            refusal(
                error,
                "INVALID_CALLER_MODE"@,
                "caller_mode must be 'named' or 'anonymous', got "@ + debug_text(
                    trimmed(caller_mode->0@),
                ),
                true,
                data,
                paths,
                0,
            );
        }
    }
}

/// A request is checked on its paths first, then on the key of its project, then on its
/// caller; one that passes keeps all of them.
pub proof fn request_is_checked_in_order(
    r: Result<ConflictCheck, McpError>,
    project_key: Seq<char>,
    agent_name: Option<String>,
    paths: Vec<String>,
    caller_mode: Option<String>,
)
    requires
        is_check_verdict(r, project_key, agent_name, paths, caller_mode),
    ensures
        ({
            let good_paths = is_paths_verdict(Ok(()), paths@);
            let key = trimmed(project_key);
            let good_key = key.len() > 0 && is_checkable(key);
            let named = asks_by_name(caller_mode) && agent_name is Some && is_usable_name(
                trimmed(agent_name->0@),
            );
            let anonymous = asks_anonymously(caller_mode) && agent_name is None;
            &&& r is Ok <==> good_paths && good_key && (named || anonymous)
            &&& r matches Ok(check) ==> {
                &&& check.project_key@ == key
                &&& check.paths == paths
                &&& anonymous ==> check.caller is Anonymous
                &&& named ==> (check.caller matches ConflictCheckCaller::Named(name) && name@
                    == trimmed(agent_name->0@))
            }
            &&& r matches Err(error) ==> {
                &&& !good_paths ==> is_paths_verdict(Err(error), paths@)
                &&& good_paths && !good_key ==> refuses(
                    error,
                    "INVALID_PROJECT_KEY"@,
                    true,
                    paths@,
                )
                &&& good_paths && good_key ==> is_caller_verdict(
                    Err(error),
                    agent_name,
                    caller_mode,
                    paths@,
                )
            }
        }),
{
    let key = trimmed(project_key);
    nul_is_a_character(key);
    match r {
        Ok(check) => {
            caller_is_who_is_named(Ok(check.caller), agent_name, caller_mode, paths@);
        },
        Err(error) => {
            if is_paths_verdict(Ok(()), paths@) && !(key.len() > 0 && is_checkable(key)) {
                refusal(
                    error,
                    "INVALID_PROJECT_KEY"@,
                    "project_key must be non-empty, NUL-free, and at most 4096 bytes"@,
                    true,
                    fail_closed_tree(paths@),
                    paths@,
                    0,
                );
            } else if is_paths_verdict(Ok(()), paths@) {
                caller_is_who_is_named(Err(error), agent_name, caller_mode, paths@);
            }
        },
    }
}

/// A snapshot that was read whole is checked as it is; one with too many rows ends the
/// check.
pub proof fn whole_snapshot_is_checked(
    r: Result<ConflictScan, McpError>,
    check: ConflictCheck,
    snapshot: ReservationConflictSnapshot,
    machine: Machine,
)
    requires
        is_scan_verdict(r, check, DbOutcome::Done(snapshot), machine),
    ensures
        r is Ok <==> !snapshot.overflow,
        r matches Ok(scan) ==> scan.paths == check.paths && scan.snapshot == snapshot
            && is_relative_run(scan.run, snapshot.human_key@, check.paths@, machine),
        r matches Err(error) ==> refuses(
            error,
            "RESERVATION_SNAPSHOT_TOO_LARGE"@,
            true,
            check.paths@,
        ) && tells_number(error, "max"@, 10_000),
{
    if let Err(error) = r {
        refusal(
            error,
            "RESERVATION_SNAPSHOT_TOO_LARGE"@,
            "Active reservation snapshot exceeds the safe 10000-row bound"@,
            true,
            snapshot_too_large_tree(check.paths@),
            check.paths@,
            0,
        );
    }
}

/// Whether no text before position `k` equals the one there.
pub open spec fn is_first(list: Seq<Seq<char>>, k: int) -> bool {
    forall|j: int| 0 <= j < k ==> #[trigger] list[j] != list[k]
}

/// The distinct texts of a list are those that no earlier one equals, in order. The
/// result gives their positions.
pub proof fn distinct_texts_come_first(list: Seq<Seq<char>>) -> (at: Seq<int>)
    ensures
        at.len() == distinct(list).len(),
        is_rising(at),
        forall|i: int|
            #![trigger at[i]]
            0 <= i < at.len() ==> 0 <= at[i] < list.len() && distinct(list)[i] == list[at[i]],
        forall|k: int|
            0 <= k < list.len() ==> (at.contains(k) <==> #[trigger] is_first(list, k)),
    decreases list.len(),
{
    if list.len() == 0 {
        Seq::empty()
    } else {
        let head = list.drop_last();
        let last = list.len() - 1;
        let before = distinct_texts_come_first(head);
        crate::conflict::distinct_names_each_once(head);
        assert(distinct(head).contains(list[last]) <==> !is_first(list, last)) by {
            if !is_first(list, last) {
                let j = choose|j: int| 0 <= j < last && #[trigger] list[j] == list[last];
                assert(head[j] == list[last]);
                assert(head.contains(list[last]));
            }
            if head.contains(list[last]) {
                let j = choose|j: int| 0 <= j < head.len() && head[j] == list[last];
                assert(list[j] == list[last]);
            }
        }
        let at = if is_first(list, last) {
            before.push(last)
        } else {
            before
        };
        assert forall|k: int| 0 <= k < list.len() implies (at.contains(k) <==> #[trigger] is_first(
            list,
            k,
        )) by {
            if k < last {
                assert(is_first(list, k) <==> is_first(head, k)) by {
                    if is_first(list, k) {
                        assert forall|j: int| 0 <= j < k implies #[trigger] head[j] != head[k] by {
                            assert(list[j] != list[k]);
                        }
                    }
                    if is_first(head, k) {
                        assert forall|j: int| 0 <= j < k implies #[trigger] list[j] != list[k] by {
                            assert(head[j] != head[k]);
                        }
                    }
                }
                if before.contains(k) {
                    let i = choose|i: int| 0 <= i < before.len() && before[i] == k;
                    assert(at[i] == k);
                }
                if at.contains(k) {
                    let i = choose|i: int| 0 <= i < at.len() && at[i] == k;
                    assert(before[i] == k);
                }
            } else if is_first(list, last) {
                assert(at[at.len() - 1] == last);
            } else if at.contains(k) {
                let i = choose|i: int| 0 <= i < at.len() && at[i] == k;
                assert(before[i] < last);
            }
        }
        at
    }
}

/// Whether a path or a stored pattern can be matched: the engine takes it, and nothing
/// is wrong with it.
pub open spec fn is_matchable(pattern: Seq<char>, facts: PatternFacts) -> bool {
    facts.is_matchable && invalidity(pattern, facts) is None
}

/// Whether a stored pattern can be matched: it is one that could be asked for.
pub open spec fn is_sound(pattern: Seq<char>, facts: PatternFacts) -> bool {
    &&& pattern.len() > 0
    &&& is_checkable(pattern)
    &&& is_matchable(pattern, facts)
}

proof fn sound_is_not_malformed(pattern: Seq<char>, facts: PatternFacts)
    ensures
        is_malformed(pattern, facts) <==> !is_sound(pattern, facts),
{
    nul_is_a_character(pattern);
}

proof fn first_unmatchable_position(patterns: Seq<String>, facts: Seq<PatternFacts>) -> (at: int)
    ensures
        0 <= at <= patterns.len(),
        forall|k: int| 0 <= k < at ==> is_matchable((#[trigger] patterns[k])@, facts[k]),
        at < patterns.len() ==> !is_matchable(patterns[at]@, facts[at]) && first_unmatchable(
            patterns,
            facts,
        ) == Some(at),
        at == patterns.len() ==> first_unmatchable(patterns, facts) is None,
    decreases patterns.len(),
{
    if patterns.len() == 0 {
        0
    } else {
        let head = patterns.drop_last();
        let before = first_unmatchable_position(head, facts);
        assert forall|k: int| 0 <= k < before implies is_matchable(
            (#[trigger] patterns[k])@,
            facts[k],
        ) by {
            assert(head[k] == patterns[k]);
        }
        let last = patterns.len() - 1;
        if before < head.len() {
            before
        } else if is_matchable(patterns[last]@, facts[last]) {
            patterns.len() as int
        } else {
            last
        }
    }
}

/// Whether the reservation of another agent can be checked: its holder is known and its
/// pattern can be matched.
pub open spec fn is_checked(
    reservation: SnapshotReservation,
    facts: PatternFacts,
    caller: Option<i64>,
) -> bool {
    ||| caller is Some && caller->0 == reservation.agent_id
    ||| reservation.agent_name is Some && is_sound(reservation.path_pattern@, facts)
}

proof fn first_unverifiable_position(
    reservations: Seq<SnapshotReservation>,
    facts: Seq<PatternFacts>,
    caller: Option<i64>,
) -> (at: int)
    ensures
        0 <= at <= reservations.len(),
        forall|k: int| 0 <= k < at ==> is_checked(#[trigger] reservations[k], facts[k], caller),
        at < reservations.len() ==> !is_checked(reservations[at], facts[at], caller)
            && first_unverifiable(reservations, facts, caller) == Some(at),
        at == reservations.len() ==> first_unverifiable(reservations, facts, caller) is None,
    decreases reservations.len(),
{
    if reservations.len() == 0 {
        0
    } else {
        let head = reservations.drop_last();
        let before = first_unverifiable_position(head, facts, caller);
        assert forall|k: int| 0 <= k < before implies is_checked(
            #[trigger] reservations[k],
            facts[k],
            caller,
        ) by {
            assert(head[k] == reservations[k]);
        }
        let last = reservations.len() - 1;
        sound_is_not_malformed(reservations[last].path_pattern@, facts[last]);
        if before < head.len() {
            before
        } else if is_checked(reservations[last], facts[last], caller) {
            reservations.len() as int
        } else {
            last
        }
    }
}

/// The reservations of others are all but the caller's, in order. The result gives their
/// positions.
pub proof fn only_the_caller_is_left_out(
    reservations: Seq<SnapshotReservation>,
    caller: Option<i64>,
) -> (at: Seq<int>)
    ensures
        at.len() == others(reservations, caller).len(),
        is_rising(at),
        forall|i: int|
            #![trigger at[i]]
            0 <= i < at.len() ==> 0 <= at[i] < reservations.len() && others(
                reservations,
                caller,
            )[i] == reservations[at[i]],
        forall|k: int|
            #![trigger reservations[k]]
            0 <= k < reservations.len() ==> (at.contains(k) <==> caller is None || caller->0
                != reservations[k].agent_id),
    decreases reservations.len(),
{
    reveal(Seq::filter);
    if reservations.len() == 0 {
        Seq::empty()
    } else {
        let head = reservations.drop_last();
        let last = reservations.len() - 1;
        let before = only_the_caller_is_left_out(head, caller);
        let other = caller is None || caller->0 != reservations[last].agent_id;
        let at = if other {
            before.push(last)
        } else {
            before
        };
        assert forall|k: int|
            #![trigger reservations[k]]
            0 <= k < reservations.len() implies (at.contains(k) <==> caller is None || caller->0
            != reservations[k].agent_id) by {
            if k < last {
                assert(head[k] == reservations[k]);
                if before.contains(k) {
                    let i = choose|i: int| 0 <= i < before.len() && before[i] == k;
                    assert(at[i] == k);
                }
                if at.contains(k) {
                    let i = choose|i: int| 0 <= i < at.len() && at[i] == k;
                    assert(before[i] == k);
                }
            } else if other {
                assert(at[at.len() - 1] == last);
            } else if at.contains(k) {
                let i = choose|i: int| 0 <= i < at.len() && at[i] == k;
                assert(before[i] < last);
            }
        }
        assert forall|i: int|
            #![trigger at[i]]
            0 <= i < at.len() implies 0 <= at[i] < reservations.len() && others(
            reservations,
            caller,
        )[i] == reservations[at[i]] by {
            if i < before.len() {
                assert(at[i] == before[i]);
                assert(head[before[i]] == reservations[before[i]]);
            }
        }
        at
    }
}

/// A check goes on just where every path lies below the project and can be matched, and
/// so can the reservation of every agent but the caller, whose holder is known. It then
/// has every path once, and the reservations of all but the caller. The first path that
/// cannot be matched is refused before one outside the project, and paths before
/// reservations. The result gives the positions of the first path and of the first
/// reservation that cannot be told.
pub proof fn check_goes_on_where_all_is_known(
    r: Result<ConflictMatch, McpError>,
    scan: ConflictScan,
    facts: Seq<PatternFacts>,
    held: Seq<PatternFacts>,
) -> (at: (int, int))
    requires
        is_match_verdict(r, scan, facts, held),
    ensures
        0 <= at.0 <= scan.run.relatives@.len(),
        0 <= at.1 <= scan.snapshot.reservations@.len(),
        forall|k: int|
            0 <= k < at.0 ==> is_matchable((#[trigger] scan.run.relatives@[k])@, facts[k]),
        at.0 < scan.run.relatives@.len() ==> !is_matchable(
            scan.run.relatives@[at.0]@,
            facts[at.0],
        ),
        forall|k: int|
            0 <= k < at.1 ==> is_checked(
                #[trigger] scan.snapshot.reservations@[k],
                held[k],
                scan.snapshot.caller_agent_id,
            ),
        at.1 < scan.snapshot.reservations@.len() ==> !is_checked(
            scan.snapshot.reservations@[at.1],
            held[at.1],
            scan.snapshot.caller_agent_id,
        ),
        r is Ok <==> at.0 == scan.run.relatives@.len() && scan.run.stop is None && at.1
            == scan.snapshot.reservations@.len(),
        r matches Ok(matching) ==> {
            &&& texts(matching.paths@) == distinct(texts(scan.run.relatives@))
            &&& matching.holders@ == others(
                scan.snapshot.reservations@,
                scan.snapshot.caller_agent_id,
            )
            &&& matching.human_key == scan.snapshot.human_key
            &&& matching.captured_ts == scan.snapshot.captured_ts
        },
        r matches Err(error) ==> {
            let n = scan.run.relatives@.len() as int;
            &&& at.0 < n ==> refuses(error, "INVALID_PATH_PATTERN"@, true, scan.paths@)
                && error.message@ == "Malformed conflict-check path pattern: "@ + debug_text(
                scan.paths@[at.0]@,
            )
            &&& at.0 == n && scan.run.stop == Some(PathStop::Outside) ==> refuses(
                error,
                "INVALID_PATH"@,
                true,
                scan.paths@,
            )
            &&& at.0 == n && scan.run.stop == Some(PathStop::ProjectRoot) ==> refuses(
                error,
                "INVALID_PATH_PATTERN"@,
                true,
                scan.paths@,
            ) && error.message@ == "Malformed conflict-check path pattern: "@ + debug_text(
                scan.paths@[n]@,
            )
            &&& at.0 == n && scan.run.stop is None ==> {
                let reservation = scan.snapshot.reservations@[at.1];
                &&& tells_number(error, "reservation_id"@, reservation.id as int)
                &&& reservation.agent_name is None ==> refuses(
                    error,
                    "UNRESOLVED_RESERVATION_HOLDER"@,
                    false,
                    scan.paths@,
                )
                &&& reservation.agent_name is Some ==> refuses(
                    error,
                    "MALFORMED_ACTIVE_RESERVATION"@,
                    false,
                    scan.paths@,
                )
            }
        },
{
    let n = scan.run.relatives@.len() as int;
    let i = first_unmatchable_position(scan.run.relatives@, facts);
    let j = first_unverifiable_position(
        scan.snapshot.reservations@,
        held,
        scan.snapshot.caller_agent_id,
    );
    if let Err(error) = r {
        let closed = fail_closed_tree(scan.paths@);
        if i < n {
            refusal(
                error,
                "INVALID_PATH_PATTERN"@,
                "Malformed conflict-check path pattern: "@ + debug_text(scan.paths@[i]@),
                true,
                closed,
                scan.paths@,
                0,
            );
        } else if scan.run.stop == Some(PathStop::Outside) {
            refusal(
                error,
                "INVALID_PATH"@,
                "Path is outside the project root or contains invalid traversal"@,
                true,
                closed,
                scan.paths@,
                0,
            );
        } else if scan.run.stop == Some(PathStop::ProjectRoot) {
            refusal(
                error,
                "INVALID_PATH_PATTERN"@,
                "Malformed conflict-check path pattern: "@ + debug_text(scan.paths@[n]@),
                true,
                closed,
                scan.paths@,
                0,
            );
        } else {
            let reservation = scan.snapshot.reservations@[j];
            let id = reservation.id;
            if reservation.agent_name is None {
                refusal(
                    error,
                    "UNRESOLVED_RESERVATION_HOLDER"@,
                    "Active reservation "@ + decimal(id as int)
                        + " has no authoritative holder identity"@,
                    false,
                    reservation_error_tree(id, scan.paths@),
                    scan.paths@,
                    id,
                );
            } else {
                refusal(
                    error,
                    "MALFORMED_ACTIVE_RESERVATION"@,
                    "Active reservation "@ + decimal(id as int)
                        + " contains a malformed path pattern; conflict status is unverifiable"@,
                    false,
                    reservation_error_tree(id, scan.paths@),
                    scan.paths@,
                    id,
                );
            }
        }
    }
    (i, j)
}

/// How many of `row` are true.
pub open spec fn how_many(row: Seq<bool>) -> nat
    decreases row.len(),
{
    if row.len() == 0 {
        0
    } else if row[0] {
        1 + how_many(row.drop_first())
    } else {
        how_many(row.drop_first())
    }
}

proof fn how_many_push(row: Seq<bool>, item: bool)
    ensures
        how_many(row.push(item)) == how_many(row) + (if item {
            1nat
        } else {
            0
        }),
    decreases row.len(),
{
    reveal_with_fuel(how_many, 2);
    if row.len() == 0 {
        assert(row.push(item).drop_first() =~= Seq::empty());
    } else {
        assert(row.push(item).drop_first() =~= row.drop_first().push(item));
        how_many_push(row.drop_first(), item);
    }
}

proof fn all_that_are_true_count(row: Seq<bool>)
    ensures
        count_true(row) == how_many(row),
    decreases row.len(),
{
    if row.len() > 0 {
        all_that_are_true_count(row.drop_last());
        how_many_push(row.drop_last(), row.last());
        assert(row.drop_last().push(row.last()) =~= row);
    }
}

/// How many reservations overlap the first `n` paths, all together.
pub open spec fn how_many_in_all(overlaps: Seq<Vec<bool>>, n: int) -> nat
    decreases n,
{
    if n <= 0 {
        0
    } else {
        how_many_in_all(overlaps, n - 1) + how_many(overlaps[n - 1]@)
    }
}

/// The name of an agent is that on the last of its reservations that has one.
pub proof fn name_is_on_the_last_reservation(holders: Seq<SnapshotReservation>, id: i64)
    ensures
        forall|k: int|
            #![trigger holders[k]]
            0 <= k < holders.len() && holders[k].agent_id == id && holders[k].agent_name is Some
                && (forall|q: int|
                k < q < holders.len() && (#[trigger] holders[q]).agent_id == id
                    ==> holders[q].agent_name is None) ==> name_of(holders, id) == Some(
                holders[k].agent_name->0@,
            ),
        name_of(holders, id) is None ==> forall|k: int|
            0 <= k < holders.len() && (#[trigger] holders[k]).agent_id == id
                ==> holders[k].agent_name is None,
    decreases holders.len(),
{
    if holders.len() > 0 {
        let head = holders.drop_last();
        let last = holders.len() - 1;
        name_is_on_the_last_reservation(head, id);
        assert forall|k: int|
            #![trigger holders[k]]
            0 <= k < holders.len() && holders[k].agent_id == id && holders[k].agent_name is Some
                && (forall|q: int|
                k < q < holders.len() && (#[trigger] holders[q]).agent_id == id
                    ==> holders[q].agent_name is None) implies name_of(holders, id) == Some(
            holders[k].agent_name->0@,
        ) by {
            if k < last {
                assert(head[k] == holders[k]);
                assert(!(holders[last].agent_id == id && holders[last].agent_name is Some));
                assert forall|q: int|
                    k < q < head.len() && (#[trigger] head[q]).agent_id == id implies
                    head[q].agent_name is None by {
                    assert(head[q] == holders[q]);
                }
            }
        }
        if name_of(holders, id) is None {
            assert forall|k: int|
                0 <= k < holders.len() && (#[trigger] holders[k]).agent_id == id implies
                holders[k].agent_name is None by {
                if k < last {
                    assert(head[k] == holders[k]);
                }
            }
        }
    }
}

/// Whether two reservations are of one agent on one pattern.
pub open spec fn is_same_lease(a: SnapshotReservation, b: SnapshotReservation) -> bool {
    a.agent_id == b.agent_id && a.path_pattern@ == b.path_pattern@
}

/// Whether `list` names the reservations that overlap a path, as `row` says: by pattern
/// and then by agent, of each agent on each pattern the first, every one of them and no
/// other.
pub open spec fn names_overlapping(
    list: Seq<usize>,
    holders: Seq<SnapshotReservation>,
    row: Seq<bool>,
) -> bool {
    &&& forall|i: int, j: int|
        #![trigger list[i], list[j]]
        0 <= i < j < list.len() ==> {
            let a = holders[list[i] as int];
            let b = holders[list[j] as int];
            ||| text_before(a.path_pattern@, b.path_pattern@)
            ||| a.path_pattern@ == b.path_pattern@ && a.agent_id < b.agent_id
        }
    &&& forall|i: int|
        #![trigger list[i]]
        0 <= i < list.len() ==> {
            &&& 0 <= list[i] < row.len()
            &&& row[list[i] as int]
            &&& forall|k: int|
                0 <= k < list[i] && #[trigger] row[k] ==> !is_same_lease(
                    holders[k],
                    holders[list[i] as int],
                )
        }
    &&& forall|k: int|
        0 <= k < row.len() && #[trigger] row[k] ==> exists|i: int|
            0 <= i < list.len() && is_same_lease(holders[#[trigger] list[i] as int], holders[k])
}

proof fn placed_member(holders: Seq<SnapshotReservation>, list: Seq<usize>, k: usize, i: int)
    requires
        0 <= i < placed(holders, list, k).len(),
    ensures
        list.contains(placed(holders, list, k)[i]) || placed(holders, list, k)[i] == k,
    decreases list.len(),
{
    if list.len() > 0 && lease_before(holders[list[0] as int], holders[k as int]) {
        if i == 0 {
            assert(list.contains(list[0]));
        } else {
            let rest = list.drop_first();
            placed_member(holders, rest, k, i - 1);
            assert(placed(holders, list, k)[i] == placed(holders, rest, k)[i - 1]);
            if rest.contains(placed(holders, rest, k)[i - 1]) {
                let n = choose|n: int|
                    0 <= n < rest.len() && rest[n] == placed(holders, rest, k)[i - 1];
                assert(list[n + 1] == rest[n]);
            }
        }
    } else if list.len() > 0 && same_lease(holders[list[0] as int], holders[k as int]) {
        assert(list.contains(list[i]));
    } else if i > 0 {
        assert(placed(holders, list, k)[i] == list[i - 1]);
        assert(list.contains(list[i - 1]));
    }
}

proof fn placed_is_fresh(
    holders: Seq<SnapshotReservation>,
    list: Seq<usize>,
    k: usize,
    q: int,
)
    requires
        crate::conflict::is_ordered(holders, list),
        0 <= q < list.len(),
        same_lease(holders[list[q] as int], holders[k as int]),
    ensures
        placed(holders, list, k) == list,
    decreases list.len(),
{
    let item = holders[k as int];
    let first = holders[list[0] as int];
    if q == 0 {
        crate::text::text_order_irreflexive(item.path_pattern@);
    } else {
        let rest = list.drop_first();
        assert(lease_before(holders[list[0] as int], holders[list[q] as int]));
        assert(rest[q - 1] == list[q]);
        assert(crate::conflict::is_ordered(holders, rest)) by {
            assert forall|i: int, j: int| 0 <= i < j < rest.len() implies lease_before(
                holders[#[trigger] rest[i] as int],
                holders[#[trigger] rest[j] as int],
            ) by {
                assert(rest[i] == list[i + 1] && rest[j] == list[j + 1]);
            }
        }
        placed_is_fresh(holders, rest, k, q - 1);
        assert(seq![list[0]] + rest =~= list);
    }
}

proof fn overlapping_are_first(holders: Seq<SnapshotReservation>, row: Seq<bool>)
    requires
        row.len() <= holders.len() <= usize::MAX,
    ensures
        forall|i: int, k: int|
            #![trigger overlapping(holders, row)[i], row[k]]
            0 <= i < overlapping(holders, row).len() && 0 <= k < overlapping(holders, row)[i]
                && row[k] ==> !same_lease(
                holders[k],
                holders[overlapping(holders, row)[i] as int],
            ),
    decreases row.len(),
{
    if row.len() > 0 {
        let head = row.drop_last();
        let last = (row.len() - 1) as usize;
        let before = overlapping(holders, head);
        overlapping_are_first(holders, head);
        overlapping_is_complete(holders, head);
        let list = overlapping(holders, row);
        assert forall|i: int, k: int|
            #![trigger list[i], row[k]]
            0 <= i < list.len() && 0 <= k < list[i] && row[k] implies !same_lease(
            holders[k],
            holders[list[i] as int],
        ) by {
            if row.last() {
                placed_member(holders, before, last, i);
            } else {
                assert(before.contains(list[i]));
            }
            if before.contains(list[i]) {
                let n = choose|n: int| 0 <= n < before.len() && before[n] == list[i];
                let q = before[n] as int;
                assert(0 <= q < head.len());
                assert(head[k] == row[k]);
            } else {
                assert(list[i] == last);
                assert(head[k] == row[k]);
                if same_lease(holders[k], holders[last as int]) {
                    assert(crate::conflict::has_lease(holders, before, k as usize));
                    let q = choose|q: int|
                        0 <= q < before.len() && same_lease(
                            holders[#[trigger] before[q] as int],
                            holders[k as usize as int],
                        );
                    placed_is_fresh(holders, before, last, q);
                    assert(list == before);
                    assert(before.contains(list[i]));
                }
            }
        }
    }
}

proof fn overlapping_are_named(holders: Seq<SnapshotReservation>, row: Seq<bool>)
    requires
        row.len() <= holders.len() <= usize::MAX,
    ensures
        names_overlapping(overlapping(holders, row), holders, row),
{
    let list = overlapping(holders, row);
    overlapping_is_complete(holders, row);
    overlapping_are_first(holders, row);
    assert forall|i: int|
        #![trigger list[i]]
        0 <= i < list.len() implies {
        &&& 0 <= list[i] < row.len()
        &&& row[list[i] as int]
        &&& forall|k: int|
            0 <= k < list[i] && #[trigger] row[k] ==> !is_same_lease(
                holders[k],
                holders[list[i] as int],
            )
    } by {
        let k = overlapping(holders, row)[i] as int;
        assert(0 <= k < row.len() && row[k]);
        assert forall|q: int| 0 <= q < list[i] && #[trigger] row[q] implies !is_same_lease(
            holders[q],
            holders[list[i] as int],
        ) by {
            assert(!same_lease(holders[q], holders[list[i] as int]));
        }
    }
    assert forall|k: int| 0 <= k < row.len() && #[trigger] row[k] implies exists|i: int|
        0 <= i < list.len() && is_same_lease(holders[#[trigger] list[i] as int], holders[k]) by {
        assert(crate::conflict::has_lease(holders, list, k as usize));
        let i = choose|i: int|
            0 <= i < list.len() && same_lease(
                holders[#[trigger] list[i] as int],
                holders[k as usize as int],
            );
        assert(is_same_lease(holders[list[i] as int], holders[k]));
    }
}

/// How many holders `conflicts` list all together.
pub open spec fn all_listed(conflicts: Seq<ReservationConflict>) -> nat
    decreases conflicts.len(),
{
    if conflicts.len() == 0 {
        0
    } else {
        all_listed(conflicts.drop_last()) + conflicts.last().holders@.len()
    }
}

/// Whether `conflict` lists, of the reservations that `list` names, as many as still may
/// be: 50 for a path, and 1000 in all, `listed` of which are taken.
pub open spec fn lists_as_many_as_may_be(
    conflict: ReservationConflict,
    list: Seq<usize>,
    holders: Seq<SnapshotReservation>,
    listed: nat,
) -> bool {
    &&& conflict.holders@.len() <= list.len()
    &&& conflict.holders@.len() <= 50
    &&& conflict.holders@.len() + listed <= 1000
    &&& conflict.holders@.len() == list.len() || conflict.holders@.len() == 50
        || conflict.holders@.len() + listed == 1000
    &&& forall|h: int|
        #![trigger conflict.holders@[h]]
        0 <= h < conflict.holders@.len() ==> {
            let held = holders[list[h] as int];
            &&& name_of(holders, held.agent_id) is Some ==> conflict.holders@[h].agent@
                == name_of(holders, held.agent_id)->0
            &&& conflict.holders@[h].path_pattern@ == held.path_pattern@
            &&& conflict.holders@[h].exclusive
            &&& conflict.holders@[h].expires_ts@ == held.expires_ts.iso@
        }
}

/// Whether `conflicts` and `clear` answer for the first `n` paths: each of them once, in
/// order. `at` are the positions of those in conflict, and of those that are clear.
pub open spec fn splits(
    at: (Seq<int>, Seq<int>),
    conflicts: Seq<ReservationConflict>,
    clear: Seq<Seq<char>>,
    paths: Seq<String>,
    overlaps: Seq<Vec<bool>>,
    n: int,
) -> bool {
    &&& at.0.len() == conflicts.len()
    &&& at.1.len() == clear.len()
    &&& is_rising(at.0)
    &&& is_rising(at.1)
    &&& forall|j: int|
        #![trigger at.0[j]]
        0 <= j < at.0.len() ==> 0 <= at.0[j] < n && conflicts[j].path@ == paths[at.0[j]]@
            && how_many(overlaps[at.0[j]]@) > 0
    &&& forall|j: int|
        #![trigger at.1[j]]
        0 <= j < at.1.len() ==> 0 <= at.1[j] < n && clear[j] == paths[at.1[j]]@ && how_many(
            overlaps[at.1[j]]@,
        ) == 0
    &&& forall|i: int| 0 <= i < n ==> #[trigger] at.0.contains(i) || at.1.contains(i)
}

proof fn none_is_true(row: Seq<bool>)
    ensures
        how_many(row) == 0 <==> forall|k: int| 0 <= k < row.len() ==> !#[trigger] row[k],
    decreases row.len(),
{
    if row.len() > 0 {
        let head = row.drop_last();
        none_is_true(head);
        how_many_push(head, row.last());
        assert(head.push(row.last()) =~= row);
        if how_many(row) == 0 {
            assert forall|k: int| 0 <= k < row.len() implies !#[trigger] row[k] by {
                if k < head.len() {
                    assert(!head[k]);
                }
            }
        }
        if forall|k: int| 0 <= k < row.len() ==> !#[trigger] row[k] {
            assert forall|k: int| 0 <= k < head.len() implies !#[trigger] head[k] by {
                assert(!row[k]);
            }
            assert(!row[row.len() - 1]);
        }
    }
}

proof fn conflict_lists_its_holders(
    conflict: ReservationConflict,
    list: Seq<usize>,
    holders: Seq<SnapshotReservation>,
    listed: nat,
    n: nat,
)
    requires
        conflict@.holders == list.take(n as int).map_values(|k: usize| listed_holder(holders, k)),
        n == listed_count(list.len(), listed),
        listed <= 1000,
    ensures
        lists_as_many_as_may_be(conflict, list, holders, listed),
        conflict.holders@.len() == n,
{
    let views = conflict@.holders;
    assert(views == crate::model::holder_views(conflict.holders@));
    assert(views.len() == conflict.holders@.len());
    assert forall|h: int|
        #![trigger conflict.holders@[h]]
        0 <= h < conflict.holders@.len() implies {
        let held = holders[list[h] as int];
        &&& name_of(holders, held.agent_id) is Some ==> conflict.holders@[h].agent@ == name_of(
            holders,
            held.agent_id,
        )->0
        &&& conflict.holders@[h].path_pattern@ == held.path_pattern@
        &&& conflict.holders@[h].exclusive
        &&& conflict.holders@[h].expires_ts@ == held.expires_ts.iso@
    } by {
        assert(views[h] == conflict.holders@[h]@);
        assert(views[h] == listed_holder(holders, list[h]));
    }
}

/// Whether one of `conflicts`, which are those of the paths at `at`, lists fewer than it
/// could.
pub open spec fn is_cut_short(
    conflicts: Seq<ReservationConflict>,
    at: Seq<int>,
    holders: Seq<SnapshotReservation>,
    overlaps: Seq<Vec<bool>>,
) -> bool {
    exists|j: int|
        #![trigger conflicts[j]]
        0 <= j < conflicts.len() && conflicts[j].holders@.len() < overlapping(
            holders,
            overlaps[at[j]]@,
        ).len()
}

proof fn cut_short_push(
    conflicts: Seq<ReservationConflict>,
    last: ReservationConflict,
    at: Seq<int>,
    n: int,
    holders: Seq<SnapshotReservation>,
    overlaps: Seq<Vec<bool>>,
)
    requires
        at.len() == conflicts.len(),
    ensures
        is_cut_short(conflicts.push(last), at.push(n), holders, overlaps) <==> is_cut_short(
            conflicts,
            at,
            holders,
            overlaps,
        ) || last.holders@.len() < overlapping(holders, overlaps[n]@).len(),
{
    let all = conflicts.push(last);
    let more = at.push(n);
    let end = conflicts.len() as int;
    assert(all[end] == last && more[end] == n);
    if is_cut_short(conflicts, at, holders, overlaps) {
        let j = choose|j: int|
            #![trigger conflicts[j]]
            0 <= j < conflicts.len() && conflicts[j].holders@.len() < overlapping(
                holders,
                overlaps[at[j]]@,
            ).len();
        assert(all[j] == conflicts[j] && more[j] == at[j]);
    }
    if is_cut_short(all, more, holders, overlaps) {
        let j = choose|j: int|
            #![trigger all[j]]
            0 <= j < all.len() && all[j].holders@.len() < overlapping(
                holders,
                overlaps[more[j]]@,
            ).len();
        if j < end {
            assert(all[j] == conflicts[j] && more[j] == at[j]);
        }
    }
}

proof fn split_push(
    at: (Seq<int>, Seq<int>),
    conflicts: Seq<ReservationConflict>,
    clear: Seq<Seq<char>>,
    paths: Seq<String>,
    overlaps: Seq<Vec<bool>>,
    n: int,
    last: ReservationConflict,
)
    requires
        splits(at, conflicts, clear, paths, overlaps, n),
        0 <= n < paths.len(),
    ensures
        how_many(overlaps[n]@) == 0 ==> splits(
            (at.0, at.1.push(n)),
            conflicts,
            clear.push(paths[n]@),
            paths,
            overlaps,
            n + 1,
        ),
        how_many(overlaps[n]@) > 0 && last.path@ == paths[n]@ ==> splits(
            (at.0.push(n), at.1),
            conflicts.push(last),
            clear,
            paths,
            overlaps,
            n + 1,
        ),
{
    rising_push(at.0, n);
    rising_push(at.1, n);
    assert forall|i: int| 0 <= i < n + 1 implies (#[trigger] at.0.contains(i) || at.1.push(
        n,
    ).contains(i)) && (at.0.push(n).contains(i) || at.1.contains(i)) by {
        if i < n {
            assert(at.0.contains(i) || at.1.contains(i));
        }
    }
    assert forall|i: int| 0 <= i < n + 1 implies #[trigger] at.0.push(n).contains(i)
        || at.1.contains(i) by {
        if i < n {
            assert(at.0.contains(i) || at.1.contains(i));
        }
    }
}

proof fn answer_positions(
    conflicts: Seq<ReservationConflict>,
    paths: Seq<String>,
    holders: Seq<SnapshotReservation>,
    overlaps: Seq<Vec<bool>>,
    n: int,
) -> (at: (Seq<int>, Seq<int>))
    requires
        answers_match(overlaps, paths, holders),
        holders.len() <= usize::MAX,
        0 <= n <= paths.len(),
        conflict_views(conflicts) == answer_for(paths, holders, overlaps, n).conflicts,
    ensures
        splits(at, conflicts, answer_for(paths, holders, overlaps, n).clear, paths, overlaps, n),
        answer_for(paths, holders, overlaps, n).emitted == all_listed(conflicts),
        answer_for(paths, holders, overlaps, n).emitted <= 1000,
        answer_for(paths, holders, overlaps, n).total == how_many_in_all(overlaps, n),
        answer_for(paths, holders, overlaps, n).truncated <==> is_cut_short(
            conflicts,
            at.0,
            holders,
            overlaps,
        ),
        forall|j: int|
            #![trigger conflicts[j]]
            0 <= j < conflicts.len() ==> lists_as_many_as_may_be(
                conflicts[j],
                overlapping(holders, overlaps[at.0[j]]@),
                holders,
                all_listed(conflicts.take(j)),
            ),
    decreases n,
{
    let answer = answer_for(paths, holders, overlaps, n);
    assert(conflict_views(conflicts).len() == conflicts.len());
    if n == 0 {
        (Seq::empty(), Seq::empty())
    } else {
        let row = overlaps[n - 1]@;
        let refs = overlapping(holders, row);
        let prior = answer_for(paths, holders, overlaps, n - 1);
        all_that_are_true_count(row);
        none_is_true(row);
        overlapping_is_complete(holders, row);
        if refs.len() == 0 {
            let before = answer_positions(conflicts, paths, holders, overlaps, n - 1);
            split_push(
                before,
                conflicts,
                prior.clear,
                paths,
                overlaps,
                n - 1,
                arbitrary(),
            );
            (before.0, before.1.push(n - 1))
        } else {
            let head = conflicts.drop_last();
            let end = conflicts.len() - 1;
            let last = conflicts[end];
            assert(conflict_views(conflicts)[end] == last@);
            assert(head.push(last) =~= conflicts);
            assert(conflict_views(head) =~= prior.conflicts) by {
                assert forall|i: int| 0 <= i < head.len() implies conflict_views(head)[i]
                    == prior.conflicts[i] by {
                    assert(conflict_views(conflicts)[i] == prior.conflicts[i]);
                    assert(head[i] == conflicts[i]);
                }
            }
            let before = answer_positions(head, paths, holders, overlaps, n - 1);
            let at = (before.0.push(n - 1), before.1);
            split_push(before, head, prior.clear, paths, overlaps, n - 1, last);
            conflict_lists_its_holders(
                last,
                refs,
                holders,
                prior.emitted,
                listed_count(refs.len(), prior.emitted),
            );
            cut_short_push(head, last, before.0, n - 1, holders, overlaps);
            assert forall|j: int|
                #![trigger conflicts[j]]
                0 <= j < conflicts.len() implies lists_as_many_as_may_be(
                conflicts[j],
                overlapping(holders, overlaps[at.0[j]]@),
                holders,
                all_listed(conflicts.take(j)),
            ) by {
                if j < end {
                    assert(head[j] == conflicts[j]);
                    assert(at.0[j] == before.0[j]);
                    assert(head.take(j) =~= conflicts.take(j));
                } else {
                    assert(conflicts.take(j) =~= head);
                }
            }
            at
        }
    }
}

/// Every path is answered for once, in order: it is clear just where no reservation
/// overlaps it, and else it is in conflict and lists those that do, by pattern and then
/// by agent, as many as the limits allow. The answer says how many overlaps there are,
/// and whether a list was cut short. The result gives the positions of the paths in
/// conflict, and of those that are clear.
pub proof fn every_path_is_answered_for(
    response: ReservationConflictCheckResponse,
    matching: ConflictMatch,
    overlaps: Seq<Vec<bool>>,
) -> (at: (Seq<int>, Seq<int>))
    requires
        is_check_answer(response, matching, overlaps),
        answers_match(overlaps, matching.paths@, matching.holders@),
        matching.holders@.len() <= usize::MAX,
    ensures
        splits(
            at,
            response.conflicts@,
            texts(response.clear_paths@),
            matching.paths@,
            overlaps,
            matching.paths@.len() as int,
        ),
        forall|j: int|
            #![trigger response.conflicts@[j]]
            0 <= j < response.conflicts@.len() ==> {
                let list = overlapping(matching.holders@, overlaps[at.0[j]]@);
                &&& names_overlapping(list, matching.holders@, overlaps[at.0[j]]@)
                &&& lists_as_many_as_may_be(
                    response.conflicts@[j],
                    list,
                    matching.holders@,
                    all_listed(response.conflicts@.take(j)),
                )
            },
        response.conflict_free <==> response.conflicts@.len() == 0,
        response.checked_paths == matching.paths@.len(),
        how_many_in_all(overlaps, matching.paths@.len() as int) <= usize::MAX
            ==> response.total_conflicting_reservations == how_many_in_all(
            overlaps,
            matching.paths@.len() as int,
        ),
        how_many_in_all(overlaps, matching.paths@.len() as int) > usize::MAX
            ==> response.total_conflicting_reservations == usize::MAX,
        response.output_truncated <==> is_cut_short(
            response.conflicts@,
            at.0,
            matching.holders@,
            overlaps,
        ),
        response.project == matching.human_key,
        response.snapshot_ts == matching.captured_ts.iso,
        response.authoritative_source@ == "database_snapshot"@,
        response.read_only,
{
    let n = matching.paths@.len() as int;
    answered_views_are_faithful(Seq::empty(), response.conflicts@);
    let at = answer_positions(
        response.conflicts@,
        matching.paths@,
        matching.holders@,
        overlaps,
        n,
    );
    assert forall|j: int|
        #![trigger response.conflicts@[j]]
        0 <= j < response.conflicts@.len() implies names_overlapping(
        overlapping(matching.holders@, overlaps[at.0[j]]@),
        matching.holders@,
        overlaps[at.0[j]]@,
    ) by {
        assert(0 <= at.0[j] < n);
        overlapping_are_named(matching.holders@, overlaps[at.0[j]]@);
    }
    at
}

} // verus!
