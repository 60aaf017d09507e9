//! The read-only check of paths against the active reservations: a request is
//! checked, a snapshot of the reservations is read, and the answer says for each
//! path who holds it.

use crate::errors::{
    acquire_outcome, envelope_members, fail_closed_data, fail_closed_tree, is_acquire_outcome,
    is_tool_error, legacy_tool_error, tool_error_names_its_type,
};
use crate::filter::{is_relative_run, relative_paths, PathStop, RelativePaths};
use crate::json::{
    json_bool, json_count, json_int, json_object, json_texts, json_tree, text_list,
    tree_index, with, JsonTree,
};
use crate::machine::Machine;
use crate::model::{
    canonical_name, conflict_views, holder_views, name_or, ConflictHolder, ConflictView, DbOutcome,
    HolderView, McpError, ReservationConflict, ReservationConflictCheckResponse, Timestamp,
};
use crate::patterns::{invalid_file_reservation_pattern, invalidity, PatternFacts};
use crate::text::{
    before, byte_len, debug_quoted, debug_text, decimal, has_char, same_text, signed_text,
    text_before, text_order_asymmetric, text_order_irreflexive, text_order_total,
    text_order_transitive, texts, trim, trimmed, unsigned_text, utf8_len,
};
use std::collections::HashMap;
use vstd::prelude::*;

verus! {

/// The most paths that one check takes.
pub const MAX_CONFLICT_CHECK_PATHS: usize = 200;

/// The most bytes of one path.
pub const MAX_CONFLICT_CHECK_PATH_BYTES: usize = 4_096;

/// The most bytes of all paths together.
pub const MAX_CONFLICT_CHECK_PAYLOAD_BYTES: usize = 65_536;

/// The most active reservations that a snapshot may hold.
pub const MAX_CONFLICT_CHECK_SNAPSHOT_ROWS: usize = 10_000;

/// The most holders that are listed for one path.
pub const MAX_CONFLICT_HOLDERS_PER_PATH: usize = 50;

/// The most holders that are listed in one answer.
pub const MAX_CONFLICT_HOLDERS_TOTAL: usize = 1_000;

/// On whose behalf a check is made.
#[derive(Debug, Clone)]
pub enum ConflictCheckCaller {
    Named(String),
    Anonymous,
}

/// The number of bytes of `paths` together.
pub open spec fn total_bytes(paths: Seq<String>) -> nat
    decreases paths.len(),
{
    if paths.len() == 0 {
        0
    } else {
        total_bytes(paths.drop_last()) + utf8_len(paths.last()@)
    }
}

/// What is wrong with a path by itself.
pub enum PathFlaw {
    TooLong,
    HasNul,
}

/// What is wrong with `path` by itself, if anything is.
pub open spec fn path_flaw(path: Seq<char>) -> Option<PathFlaw> {
    if utf8_len(path) > MAX_CONFLICT_CHECK_PATH_BYTES {
        Some(PathFlaw::TooLong)
    } else if path.contains('\0') {
        Some(PathFlaw::HasNul)
    } else {
        None
    }
}

/// What is wrong with the first path that is wrong by itself, if one is.
pub open spec fn first_flaw(paths: Seq<String>) -> Option<PathFlaw>
    decreases paths.len(),
{
    if paths.len() == 0 {
        None
    } else {
        match first_flaw(paths.drop_last()) {
            Some(flaw) => Some(flaw),
            None => path_flaw(paths.last()@),
        }
    }
}

/// The data of the error about too many paths.
pub open spec fn too_many_paths_tree(paths: Seq<String>) -> JsonTree {
    JsonTree::Object(
        map![
            "fail_closed"@ => JsonTree::Bool(true),
            "count"@ => JsonTree::Int(paths.len() as int),
            "max"@ => JsonTree::Int(200),
            "do_not_edit"@ => text_list(texts(paths)),
        ],
    )
}

/// The data of the error about too many bytes.
pub open spec fn payload_too_large_tree(paths: Seq<String>) -> JsonTree {
    JsonTree::Object(
        map![
            "fail_closed"@ => JsonTree::Bool(true),
            "payload_bytes"@ => JsonTree::Int(total_bytes(paths) as int),
            "max"@ => JsonTree::Int(65_536),
            "do_not_edit"@ => text_list(texts(paths)),
        ],
    )
}

/// Whether `r` is what the check says of its paths: there is one and no more than
/// 200, each is short enough and has no NUL, and together they are short enough.
pub open spec fn is_paths_verdict(r: Result<(), McpError>, paths: Seq<String>) -> bool {
    if paths.len() == 0 {
        r is Err && is_tool_error(
            r->Err_0,
            "EMPTY_PATHS"@,
            "paths list cannot be empty"@,
            true,
            fail_closed_tree(paths),
        )
    } else if paths.len() > MAX_CONFLICT_CHECK_PATHS {
        r is Err && is_tool_error(
            r->Err_0,
            "TOO_MANY_PATHS"@,
            "Maximum 200 paths per conflict check, got "@ + decimal(paths.len() as int),
            true,
            too_many_paths_tree(paths),
        )
    } else {
        match first_flaw(paths) {
            Some(PathFlaw::TooLong) => r is Err && is_tool_error(
                r->Err_0,
                "PATH_TOO_LONG"@,
                "Path exceeds the 4096-byte conflict-check limit"@,
                true,
                fail_closed_tree(paths),
            ),
            Some(PathFlaw::HasNul) => r is Err && is_tool_error(
                r->Err_0,
                "INVALID_PATH"@,
                "Path contains a NUL byte"@,
                true,
                fail_closed_tree(paths),
            ),
            None => if total_bytes(paths) > MAX_CONFLICT_CHECK_PAYLOAD_BYTES {
                r is Err && is_tool_error(
                    r->Err_0,
                    "PAYLOAD_TOO_LARGE"@,
                    "Combined paths exceed the 65536-byte conflict-check limit"@,
                    true,
                    payload_too_large_tree(paths),
                )
            } else {
                r is Ok
            },
        }
    }
}

proof fn first_flaw_of_prefix(paths: Seq<String>, n: int)
    requires
        0 <= n <= paths.len(),
        first_flaw(paths.take(n)) is Some,
    ensures
        first_flaw(paths) == first_flaw(paths.take(n)),
    decreases paths.len(),
{
    if n == paths.len() {
        assert(paths.take(n) =~= paths);
    } else {
        assert(paths.drop_last().take(n) =~= paths.take(n));
        first_flaw_of_prefix(paths.drop_last(), n);
    }
}

/// Checks the number, the length and the characters of the paths of a check.
pub fn validate_conflict_check_paths(paths: &Vec<String>) -> (r: Result<(), McpError>)
    ensures
        is_paths_verdict(r, paths@),
{
    if paths.len() == 0 {
        return Err(
            legacy_tool_error(
                "EMPTY_PATHS",
                "paths list cannot be empty",
                true,
                fail_closed_data(paths),
            ),
        );
    }
    if paths.len() > MAX_CONFLICT_CHECK_PATHS {
        let count: u64 = paths.len() as u64;
        let data = with(json_object(), "fail_closed", json_bool(true));
        let data = with(data, "count", json_count(count));
        let data = with(data, "max", json_int(200));
        let data = with(data, "do_not_edit", json_texts(paths));
        let message = "Maximum 200 paths per conflict check, got ".to_owned().concat(
            unsigned_text(count).as_str(),
        );
        return Err(legacy_tool_error("TOO_MANY_PATHS", message.as_str(), true, data));
    }
    let mut bytes: usize = 0;
    let mut i: usize = 0;
    while i < paths.len()
        invariant
            i <= paths.len() <= 200,
            bytes == total_bytes(paths@.take(i as int)),
            bytes <= 4_096 * i,
            first_flaw(paths@.take(i as int)) is None,
        decreases paths.len() - i,
    {
        proof {
            assert(paths@.take(i + 1).drop_last() =~= paths@.take(i as int));
        }
        let length: usize = byte_len(paths[i].as_str());
        if length > MAX_CONFLICT_CHECK_PATH_BYTES {
            proof {
                first_flaw_of_prefix(paths@, i + 1);
            }
            return Err(
                legacy_tool_error(
                    "PATH_TOO_LONG",
                    "Path exceeds the 4096-byte conflict-check limit",
                    true,
                    fail_closed_data(paths),
                ),
            );
        }
        if has_char(paths[i].as_str(), '\0') {
            proof {
                first_flaw_of_prefix(paths@, i + 1);
            }
            return Err(
                legacy_tool_error(
                    "INVALID_PATH",
                    "Path contains a NUL byte",
                    true,
                    fail_closed_data(paths),
                ),
            );
        }
        bytes = bytes + length;
        i = i + 1;
    }
    proof {
        assert(paths@.take(paths.len() as int) =~= paths@);
    }
    if bytes > MAX_CONFLICT_CHECK_PAYLOAD_BYTES {
        let data = with(json_object(), "fail_closed", json_bool(true));
        let data = with(data, "payload_bytes", json_count(bytes as u64));
        let data = with(data, "max", json_int(65_536));
        let data = with(data, "do_not_edit", json_texts(paths));
        return Err(
            legacy_tool_error(
                "PAYLOAD_TOO_LARGE",
                "Combined paths exceed the 65536-byte conflict-check limit",
                true,
                data,
            ),
        );
    }
    Ok(())
}

/// Whether a caller may go by this name.
pub open spec fn is_caller_name(name: Seq<char>) -> bool {
    name.len() > 0 && utf8_len(name) <= 256 && !name.contains('\0')
}

/// Whether `r` is the caller that a request names: by name, unless it asks for
/// an anonymous check.
pub open spec fn is_caller_verdict(
    r: Result<ConflictCheckCaller, McpError>,
    agent_name: Option<String>,
    caller_mode: Option<String>,
    paths: Seq<String>,
) -> bool {
    let named = match caller_mode {
        Some(mode) => trimmed(mode@) == "named"@,
        None => true,
    };
    let anonymous = caller_mode matches Some(mode) && trimmed(mode@) == "anonymous"@;
    let data = fail_closed_tree(paths);
    if named {
        match agent_name {
            Some(name) => if is_caller_name(trimmed(name@)) {
                r matches Ok(ConflictCheckCaller::Named(caller)) && caller@ == trimmed(name@)
            } else {
                r is Err && is_tool_error(
                    r->Err_0,
                    "INVALID_AGENT_NAME"@,
                    "agent_name must be non-empty, NUL-free, and at most 256 bytes"@,
                    true,
                    data,
                )
            },
            None => r is Err && is_tool_error(
                r->Err_0,
                "MISSING_AGENT_NAME"@,
                "agent_name is required unless caller_mode is explicitly 'anonymous'"@,
                true,
                data,
            ),
        }
    } else if anonymous {
        match agent_name {
            Some(_) => r is Err && is_tool_error(
                r->Err_0,
                "AMBIGUOUS_CALLER_MODE"@,
                "agent_name must be omitted when caller_mode is 'anonymous'"@,
                true,
                data,
            ),
            None => r == Ok::<ConflictCheckCaller, McpError>(ConflictCheckCaller::Anonymous),
        }
    } else {
        r is Err && is_tool_error(
            r->Err_0,
            "INVALID_CALLER_MODE"@,
            "caller_mode must be 'named' or 'anonymous', got "@ + debug_text(
                trimmed(caller_mode->0@),
            ),
            true,
            data,
        )
    }
}

/// The caller that a request names. A name is taken without the white space
/// around it.
pub fn resolve_conflict_check_caller(
    agent_name: &Option<String>,
    caller_mode: &Option<String>,
    paths: &Vec<String>,
) -> (r: Result<ConflictCheckCaller, McpError>)
    ensures
        is_caller_verdict(r, *agent_name, *caller_mode, paths@),
{
    proof {
        reveal_strlit("named");
        reveal_strlit("anonymous");
        assert("named"@.len() == 5);
        assert("anonymous"@.len() == 9);
    }
    let mode: Option<String> = match caller_mode {
        Some(text) => Some(trim(text.as_str())),
        None => None,
    };
    let named = match &mode {
        Some(text) => same_text(text.as_str(), "named"),
        None => true,
    };
    if named {
        return match agent_name {
            Some(name) => {
                let caller = trim(name.as_str());
                if caller.as_str().unicode_len() == 0 || byte_len(caller.as_str()) > 256 || has_char(
                    caller.as_str(),
                    '\0',
                ) {
                    Err(
                        legacy_tool_error(
                            "INVALID_AGENT_NAME",
                            "agent_name must be non-empty, NUL-free, and at most 256 bytes",
                            true,
                            fail_closed_data(paths),
                        ),
                    )
                } else {
                    Ok(ConflictCheckCaller::Named(caller))
                }
            },
            None => Err(
                legacy_tool_error(
                    "MISSING_AGENT_NAME",
                    "agent_name is required unless caller_mode is explicitly 'anonymous'",
                    true,
                    fail_closed_data(paths),
                ),
            ),
        };
    }
    match mode {
        Some(text) => {
            if same_text(text.as_str(), "anonymous") {
                match agent_name {
                    Some(_) => Err(
                        legacy_tool_error(
                            "AMBIGUOUS_CALLER_MODE",
                            "agent_name must be omitted when caller_mode is 'anonymous'",
                            true,
                            fail_closed_data(paths),
                        ),
                    ),
                    None => Ok(ConflictCheckCaller::Anonymous),
                }
            } else {
                let message =
                    "caller_mode must be 'named' or 'anonymous', got ".to_owned().concat(
                    debug_quoted(text.as_str()).as_str(),
                );
                Err(
                    legacy_tool_error(
                        "INVALID_CALLER_MODE",
                        message.as_str(),
                        true,
                        fail_closed_data(paths),
                    ),
                )
            }
        },
        None => Ok(ConflictCheckCaller::Anonymous),
    }
}

/// A check that waits for the snapshot of the active exclusive reservations of
/// the project `project_key`, with the identity of `caller`.
#[derive(Debug, Clone)]
pub struct ConflictCheck {
    pub project_key: String,
    pub caller: ConflictCheckCaller,
    pub paths: Vec<String>,
}

/// Whether a project may be asked for by this key.
pub open spec fn is_project_key(key: Seq<char>) -> bool {
    key.len() > 0 && utf8_len(key) <= MAX_CONFLICT_CHECK_PATH_BYTES && !key.contains('\0')
}

/// Whether `r` is what a request for a check becomes. The paths are judged
/// first, then the project key, then the caller.
pub open spec fn is_check_verdict(
    r: Result<ConflictCheck, McpError>,
    project_key: Seq<char>,
    agent_name: Option<String>,
    paths: Vec<String>,
    caller_mode: Option<String>,
) -> bool {
    match r {
        Ok(check) => {
            &&& is_paths_verdict(Ok(()), paths@)
            &&& is_project_key(trimmed(project_key))
            &&& is_caller_verdict(Ok(check.caller), agent_name, caller_mode, paths@)
            &&& check.project_key@ == trimmed(project_key)
            &&& check.paths == paths
        },
        Err(error) => if !is_paths_verdict(Ok(()), paths@) {
            is_paths_verdict(Err(error), paths@)
        } else if !is_project_key(trimmed(project_key)) {
            is_tool_error(
                error,
                "INVALID_PROJECT_KEY"@,
                "project_key must be non-empty, NUL-free, and at most 4096 bytes"@,
                true,
                fail_closed_tree(paths@),
            )
        } else {
            is_caller_verdict(Err(error), agent_name, caller_mode, paths@)
        },
    }
}

/// Checks a request for a conflict check, and says which snapshot it needs. The
/// project key and a caller's name are taken without the white space around
/// them.
pub fn check_file_reservation_conflicts(
    project_key: &str,
    agent_name: &Option<String>,
    paths: Vec<String>,
    caller_mode: &Option<String>,
) -> (r: Result<ConflictCheck, McpError>)
    ensures
        is_check_verdict(r, project_key@, *agent_name, paths, *caller_mode),
{
    match validate_conflict_check_paths(&paths) {
        Ok(()) => {},
        Err(error) => return Err(error),
    }
    let key = trim(project_key);
    if key.as_str().unicode_len() == 0 || byte_len(key.as_str()) > MAX_CONFLICT_CHECK_PATH_BYTES
        || has_char(key.as_str(), '\0') {
        return Err(
            legacy_tool_error(
                "INVALID_PROJECT_KEY",
                "project_key must be non-empty, NUL-free, and at most 4096 bytes",
                true,
                fail_closed_data(&paths),
            ),
        );
    }
    match resolve_conflict_check_caller(agent_name, caller_mode, &paths) {
        Ok(caller) => Ok(ConflictCheck { project_key: key, caller, paths }),
        Err(error) => Err(error),
    }
}

/// An active exclusive reservation, as a snapshot holds it.
#[derive(Debug, Clone)]
pub struct SnapshotReservation {
    pub id: i64,
    pub agent_id: i64,
    pub agent_name: Option<String>,
    pub path_pattern: String,
    pub expires_ts: Timestamp,
}

/// The active exclusive reservations of a project at one time, and the id of the
/// caller, if there is a named one.
#[derive(Debug, Clone)]
pub struct ReservationConflictSnapshot {
    pub human_key: String,
    pub caller_agent_id: Option<i64>,
    pub reservations: Vec<SnapshotReservation>,
    pub overflow: bool,
    pub captured_ts: Timestamp,
}

/// A check that waits for what the pattern engine says of `run.relatives`, and of
/// the pattern of each reservation of `snapshot`.
#[derive(Debug, Clone)]
pub struct ConflictScan {
    pub paths: Vec<String>,
    pub snapshot: ReservationConflictSnapshot,
    pub run: RelativePaths,
}

/// The data of the error about a snapshot with too many rows.
pub open spec fn snapshot_too_large_tree(paths: Seq<String>) -> JsonTree {
    JsonTree::Object(
        map![
            "fail_closed"@ => JsonTree::Bool(true),
            "max"@ => JsonTree::Int(10_000),
            "do_not_edit"@ => text_list(texts(paths)),
        ],
    )
}

/// Whether `r` is what a check becomes once the snapshot was read.
pub open spec fn is_scan_verdict(
    r: Result<ConflictScan, McpError>,
    check: ConflictCheck,
    out: DbOutcome<ReservationConflictSnapshot>,
    machine: Machine,
) -> bool {
    match out {
        DbOutcome::Done(snapshot) => if snapshot.overflow {
            r is Err && is_tool_error(
                r->Err_0,
                "RESERVATION_SNAPSHOT_TOO_LARGE"@,
                "Active reservation snapshot exceeds the safe 10000-row bound"@,
                true,
                snapshot_too_large_tree(check.paths@),
            )
        } else {
            r matches Ok(scan) && {
                &&& scan.paths == check.paths
                &&& scan.snapshot == snapshot
                &&& is_relative_run(scan.run, snapshot.human_key@, check.paths@, machine)
            }
        },
        _ => r is Err && is_acquire_outcome::<ReservationConflictSnapshot>(
            Err(r->Err_0),
            out,
            check.paths@,
            "check_file_reservation_conflicts"@,
        ),
    }
}

impl ConflictCheck {
    /// The check, with the caller by its canonical name.
    pub fn named(self, canonical: Option<String>) -> (r: ConflictCheck)
        ensures
            r.project_key == self.project_key,
            r.paths == self.paths,
            match self.caller {
                ConflictCheckCaller::Named(name) => r.caller == ConflictCheckCaller::Named(
                    name_or(canonical, name),
                ),
                ConflictCheckCaller::Anonymous => r.caller == ConflictCheckCaller::Anonymous,
            },
    {
        let caller = match self.caller {
            ConflictCheckCaller::Named(name) => ConflictCheckCaller::Named(
                canonical_name(canonical, name),
            ),
            ConflictCheckCaller::Anonymous => ConflictCheckCaller::Anonymous,
        };
        ConflictCheck { project_key: self.project_key, caller, paths: self.paths }
    }

    /// Takes the snapshot. A snapshot that could not be read, or that is not
    /// complete, ends the check.
    pub fn read_snapshot(
        self,
        out: DbOutcome<ReservationConflictSnapshot>,
        machine: &Machine,
    ) -> (r: Result<ConflictScan, McpError>)
        ensures
            is_scan_verdict(r, self, out, *machine),
            r matches Ok(scan) ==> scan.wf(),
    {
        let snapshot = match acquire_outcome(out, &self.paths, "check_file_reservation_conflicts") {
            Ok(snapshot) => snapshot,
            Err(error) => return Err(error),
        };
        if snapshot.overflow {
            let data = with(json_object(), "fail_closed", json_bool(true));
            let data = with(data, "max", json_int(10_000));
            let data = with(data, "do_not_edit", json_texts(&self.paths));
            return Err(
                legacy_tool_error(
                    "RESERVATION_SNAPSHOT_TOO_LARGE",
                    "Active reservation snapshot exceeds the safe 10000-row bound",
                    true,
                    data,
                ),
            );
        }
        let run = relative_paths(snapshot.human_key.as_str(), &self.paths, machine);
        Ok(ConflictScan { paths: self.paths, snapshot, run })
    }
}

/// The position of the first path whose pattern cannot be matched, if there is
/// one.
pub open spec fn first_unmatchable(patterns: Seq<String>, facts: Seq<PatternFacts>) -> Option<int>
    decreases patterns.len(),
{
    if patterns.len() == 0 {
        None
    } else {
        match first_unmatchable(patterns.drop_last(), facts) {
            Some(i) => Some(i),
            None => {
                let i = patterns.len() - 1;
                if invalidity(patterns[i]@, facts[i]) is Some || !facts[i].is_matchable {
                    Some(i)
                } else {
                    None
                }
            },
        }
    }
}

proof fn first_unmatchable_of_prefix(patterns: Seq<String>, facts: Seq<PatternFacts>, n: int)
    requires
        0 <= n <= patterns.len(),
        first_unmatchable(patterns.take(n), facts) is Some,
    ensures
        first_unmatchable(patterns, facts) == first_unmatchable(patterns.take(n), facts),
    decreases patterns.len(),
{
    if n == patterns.len() {
        assert(patterns.take(n) =~= patterns);
    } else {
        assert(patterns.drop_last().take(n) =~= patterns.take(n));
        first_unmatchable_of_prefix(patterns.drop_last(), facts, n);
    }
}

fn find_unmatchable(patterns: &Vec<String>, facts: &Vec<PatternFacts>) -> (r: Option<usize>)
    requires
        facts@.len() == patterns@.len(),
    ensures
        match r {
            Some(i) => first_unmatchable(patterns@, facts@) == Some(i as int) && i
                < patterns@.len(),
            None => first_unmatchable(patterns@, facts@) is None,
        },
{
    let mut i: usize = 0;
    while i < patterns.len()
        invariant
            i <= patterns.len(),
            facts@.len() == patterns@.len(),
            first_unmatchable(patterns@.take(i as int), facts@) is None,
        decreases patterns.len() - i,
    {
        proof {
            assert(patterns@.take(i + 1).drop_last() =~= patterns@.take(i as int));
        }
        let flaw = invalid_file_reservation_pattern(patterns[i].as_str(), &facts[i]);
        if flaw.is_some() || !facts[i].is_matchable {
            proof {
                first_unmatchable_of_prefix(patterns@, facts@, i + 1);
            }
            return Some(i);
        }
        i = i + 1;
    }
    proof {
        assert(patterns@.take(patterns.len() as int) =~= patterns@);
    }
    None
}

/// The texts of `list`, each only where it comes first.
pub open spec fn distinct(list: Seq<Seq<char>>) -> Seq<Seq<char>>
    decreases list.len(),
{
    if list.len() == 0 {
        list
    } else {
        let before = distinct(list.drop_last());
        if before.contains(list.last()) {
            before
        } else {
            before.push(list.last())
        }
    }
}

/// Whether `list` has the text `s`.
pub fn has_item(list: &Vec<String>, s: &str) -> (r: bool)
    ensures
        r == texts(list@).contains(s@),
{
    let mut i: usize = 0;
    while i < list.len()
        invariant
            i <= list.len(),
            forall|k: int| 0 <= k < i ==> (#[trigger] list@[k])@ != s@,
        decreases list.len() - i,
    {
        if same_text(list[i].as_str(), s) {
            proof {
                assert(texts(list@)[i as int] == s@);
            }
            return true;
        }
        i = i + 1;
    }
    proof {
        assert forall|k: int| 0 <= k < list.len() implies texts(list@)[k] != s@ by {
            assert(list@[k]@ != s@);
        }
    }
    false
}

/// The strings of `list`, each only where it comes first.
pub fn distinct_paths(list: &Vec<String>) -> (r: Vec<String>)
    ensures
        texts(r@) == distinct(texts(list@)),
{
    let mut out: Vec<String> = Vec::new();
    let mut i: usize = 0;
    proof {
        assert(texts(list@).take(0) =~= Seq::empty());
        assert(texts(out@) =~= Seq::empty());
    }
    while i < list.len()
        invariant
            i <= list.len(),
            texts(out@) == distinct(texts(list@).take(i as int)),
        decreases list.len() - i,
    {
        proof {
            assert(texts(list@).take(i + 1).drop_last() =~= texts(list@).take(i as int));
            assert(texts(list@).take(i + 1).last() == list@[i as int]@);
        }
        if !has_item(&out, list[i].as_str()) {
            let ghost had = texts(out@);
            out.push(list[i].clone());
            proof {
                assert(texts(out@) =~= had.push(list@[i as int]@));
            }
        }
        i = i + 1;
    }
    proof {
        assert(texts(list@).take(list.len() as int) =~= texts(list@));
    }
    out
}

/// The distinct texts of a list are its texts, each once.
pub proof fn distinct_names_each_once(list: Seq<Seq<char>>)
    ensures
        distinct(list).no_duplicates(),
        forall|s: Seq<char>| #[trigger] distinct(list).contains(s) <==> list.contains(s),
    decreases list.len(),
{
    if list.len() > 0 {
        let head = list.drop_last();
        let before = distinct(head);
        let all = distinct(list);
        distinct_names_each_once(head);
        assert forall|s: Seq<char>| #[trigger] all.contains(s) <==> list.contains(s) by {
            if all.contains(s) {
                let n = choose|n: int| 0 <= n < all.len() && all[n] == s;
                if n < before.len() {
                    assert(before[n] == s);
                    assert(before.contains(s));
                    let m = choose|m: int| 0 <= m < head.len() && head[m] == s;
                    assert(list[m] == s);
                } else {
                    assert(list[list.len() - 1] == s);
                }
            }
            if list.contains(s) {
                let m = choose|m: int| 0 <= m < list.len() && list[m] == s;
                if m < head.len() {
                    assert(head[m] == s);
                    assert(head.contains(s));
                    assert(before.contains(s));
                }
                if before.contains(s) {
                    let n = choose|n: int| 0 <= n < before.len() && before[n] == s;
                    assert(all[n] == s);
                } else {
                    assert(all[all.len() - 1] == s);
                }
            }
        }
    }
}

/// Whether the pattern of a stored reservation cannot be matched.
pub open spec fn is_malformed(pattern: Seq<char>, facts: PatternFacts) -> bool {
    ||| pattern.len() == 0
    ||| utf8_len(pattern) > MAX_CONFLICT_CHECK_PATH_BYTES
    ||| pattern.contains('\0')
    ||| invalidity(pattern, facts) is Some
    ||| !facts.is_matchable
}

/// Whether `reservation` is the caller's own.
pub open spec fn is_callers(reservation: SnapshotReservation, caller: Option<i64>) -> bool {
    caller == Some(reservation.agent_id)
}

/// Whether a reservation of another agent makes the check fail: its holder is
/// not known, or its pattern cannot be matched.
pub open spec fn is_unverifiable(
    reservation: SnapshotReservation,
    facts: PatternFacts,
    caller: Option<i64>,
) -> bool {
    &&& !is_callers(reservation, caller)
    &&& reservation.agent_name is None || is_malformed(reservation.path_pattern@, facts)
}

/// The position of the first reservation that makes the check fail, if one does.
pub open spec fn first_unverifiable(
    reservations: Seq<SnapshotReservation>,
    facts: Seq<PatternFacts>,
    caller: Option<i64>,
) -> Option<int>
    decreases reservations.len(),
{
    if reservations.len() == 0 {
        None
    } else {
        match first_unverifiable(reservations.drop_last(), facts, caller) {
            Some(i) => Some(i),
            None => {
                let i = reservations.len() - 1;
                if is_unverifiable(reservations[i], facts[i], caller) {
                    Some(i)
                } else {
                    None
                }
            },
        }
    }
}

proof fn first_unverifiable_of_prefix(
    reservations: Seq<SnapshotReservation>,
    facts: Seq<PatternFacts>,
    caller: Option<i64>,
    n: int,
)
    requires
        0 <= n <= reservations.len(),
        first_unverifiable(reservations.take(n), facts, caller) is Some,
    ensures
        first_unverifiable(reservations, facts, caller) == first_unverifiable(
            reservations.take(n),
            facts,
            caller,
        ),
    decreases reservations.len(),
{
    if n == reservations.len() {
        assert(reservations.take(n) =~= reservations);
    } else {
        assert(reservations.drop_last().take(n) =~= reservations.take(n));
        first_unverifiable_of_prefix(reservations.drop_last(), facts, caller, n);
    }
}

fn find_unverifiable(
    reservations: &Vec<SnapshotReservation>,
    facts: &Vec<PatternFacts>,
    caller: Option<i64>,
) -> (r: Option<usize>)
    requires
        facts@.len() == reservations@.len(),
    ensures
        match r {
            Some(i) => first_unverifiable(reservations@, facts@, caller) == Some(i as int) && i
                < reservations@.len(),
            None => first_unverifiable(reservations@, facts@, caller) is None,
        },
{
    let mut i: usize = 0;
    while i < reservations.len()
        invariant
            i <= reservations.len(),
            facts@.len() == reservations@.len(),
            first_unverifiable(reservations@.take(i as int), facts@, caller) is None,
        decreases reservations.len() - i,
    {
        let reservation = &reservations[i];
        proof {
            assert(reservations@.take(i + 1).drop_last() =~= reservations@.take(i as int));
        }
        if !own(reservation, caller) && (reservation.agent_name.is_none() || malformed(
            reservation.path_pattern.as_str(),
            &facts[i],
        )) {
            proof {
                first_unverifiable_of_prefix(reservations@, facts@, caller, i + 1);
            }
            return Some(i);
        }
        i = i + 1;
    }
    proof {
        assert(reservations@.take(reservations.len() as int) =~= reservations@);
    }
    None
}

fn own(reservation: &SnapshotReservation, caller: Option<i64>) -> (r: bool)
    ensures
        r == is_callers(*reservation, caller),
{
    match caller {
        Some(id) => id == reservation.agent_id,
        None => false,
    }
}

fn malformed(pattern: &str, facts: &PatternFacts) -> (r: bool)
    ensures
        r == is_malformed(pattern@, *facts),
{
    pattern.unicode_len() == 0 || byte_len(pattern) > MAX_CONFLICT_CHECK_PATH_BYTES || has_char(
        pattern,
        '\0',
    ) || invalid_file_reservation_pattern(pattern, facts).is_some() || !facts.is_matchable
}

/// A check that waits for the pattern engine to say, of each of `paths` and each
/// of `holders`, whether their patterns overlap.
#[derive(Debug, Clone)]
pub struct ConflictMatch {
    pub paths: Vec<String>,
    pub holders: Vec<SnapshotReservation>,
    pub human_key: String,
    pub captured_ts: Timestamp,
}

/// The data of an error about one reservation.
pub open spec fn reservation_error_tree(id: i64, paths: Seq<String>) -> JsonTree {
    JsonTree::Object(
        map![
            "fail_closed"@ => JsonTree::Bool(true),
            "reservation_id"@ => JsonTree::Int(id as int),
            "do_not_edit"@ => text_list(texts(paths)),
        ],
    )
}

fn reservation_error_data(id: i64, paths: &Vec<String>) -> (r: serde_json::Value)
    ensures
        json_tree(r) == reservation_error_tree(id, paths@),
{
    let data = with(json_object(), "fail_closed", json_bool(true));
    let data = with(data, "reservation_id", json_int(id));
    with(data, "do_not_edit", json_texts(paths))
}

/// Whether `error` says that a path of the request cannot be matched.
pub open spec fn is_malformed_path_error(error: McpError, path: Seq<char>, paths: Seq<String>) -> bool {
    is_tool_error(
        error,
        "INVALID_PATH_PATTERN"@,
        "Malformed conflict-check path pattern: "@ + debug_text(path),
        true,
        fail_closed_tree(paths),
    )
}

/// Whether `error` says why the status of a stored reservation cannot be told.
pub open spec fn is_unverifiable_error(
    error: McpError,
    reservation: SnapshotReservation,
    paths: Seq<String>,
) -> bool {
    if reservation.agent_name is None {
        is_tool_error(
            error,
            "UNRESOLVED_RESERVATION_HOLDER"@,
            "Active reservation "@ + decimal(reservation.id as int)
                + " has no authoritative holder identity"@,
            false,
            reservation_error_tree(reservation.id, paths),
        )
    } else {
        is_tool_error(
            error,
            "MALFORMED_ACTIVE_RESERVATION"@,
            "Active reservation "@ + decimal(reservation.id as int)
                + " contains a malformed path pattern; conflict status is unverifiable"@,
            false,
            reservation_error_tree(reservation.id, paths),
        )
    }
}

/// The reservations of others than the caller, in order.
pub open spec fn others(
    reservations: Seq<SnapshotReservation>,
    caller: Option<i64>,
) -> Seq<SnapshotReservation> {
    reservations.filter(|reservation: SnapshotReservation| !is_callers(reservation, caller))
}

/// Whether `r` is what a check becomes once the pattern engine has spoken: the
/// first path that is wrong decides, then the first reservation whose status
/// cannot be told.
pub open spec fn is_match_verdict(
    r: Result<ConflictMatch, McpError>,
    scan: ConflictScan,
    facts: Seq<PatternFacts>,
    held: Seq<PatternFacts>,
) -> bool {
    let caller = scan.snapshot.caller_agent_id;
    match first_unmatchable(scan.run.relatives@, facts) {
        Some(i) => r is Err && is_malformed_path_error(r->Err_0, scan.paths@[i]@, scan.paths@),
        None => match scan.run.stop {
            Some(PathStop::Outside) => r is Err && is_tool_error(
                r->Err_0,
                "INVALID_PATH"@,
                "Path is outside the project root or contains invalid traversal"@,
                true,
                fail_closed_tree(scan.paths@),
            ),
            Some(PathStop::ProjectRoot) => r is Err && is_malformed_path_error(
                r->Err_0,
                scan.paths@[scan.run.relatives@.len() as int]@,
                scan.paths@,
            ),
            None => match first_unverifiable(scan.snapshot.reservations@, held, caller) {
                Some(i) => r is Err && is_unverifiable_error(
                    r->Err_0,
                    scan.snapshot.reservations@[i],
                    scan.paths@,
                ),
                None => r matches Ok(matching) && {
                    &&& texts(matching.paths@) == distinct(texts(scan.run.relatives@))
                    &&& matching.holders@ == others(scan.snapshot.reservations@, caller)
                    &&& matching.human_key == scan.snapshot.human_key
                    &&& matching.captured_ts == scan.snapshot.captured_ts
                },
            },
        },
    }
}

impl ConflictScan {
    /// Whether the run of relative paths is one of `paths`.
    pub open spec fn wf(self) -> bool {
        &&& self.run.relatives@.len() <= self.paths@.len()
        &&& self.run.stop is Some ==> self.run.relatives@.len() < self.paths@.len()
    }

    /// Takes what the pattern engine says of the relative paths, and of the
    /// patterns of the reservations. A pattern that cannot be matched, on either
    /// side, ends the check.
    pub fn screen(self, facts: &Vec<PatternFacts>, held: &Vec<PatternFacts>) -> (r: Result<
        ConflictMatch,
        McpError,
    >)
        requires
            self.wf(),
            facts@.len() == self.run.relatives@.len(),
            held@.len() == self.snapshot.reservations@.len(),
        ensures
            is_match_verdict(r, self, facts@, held@),
            r matches Ok(matching) ==> matching.wf(),
    {
        let paths = self.paths;
        let snapshot = self.snapshot;
        let flawed: Option<usize> = match find_unmatchable(&self.run.relatives, facts) {
            Some(i) => Some(i),
            None => match self.run.stop {
                Some(PathStop::ProjectRoot) => Some(self.run.relatives.len()),
                _ => None,
            },
        };
        if let Some(i) = flawed {
            let message = "Malformed conflict-check path pattern: ".to_owned().concat(
                debug_quoted(paths[i].as_str()).as_str(),
            );
            return Err(
                legacy_tool_error(
                    "INVALID_PATH_PATTERN",
                    message.as_str(),
                    true,
                    fail_closed_data(&paths),
                ),
            );
        }
        if self.run.stop.is_some() {
            return Err(
                legacy_tool_error(
                    "INVALID_PATH",
                    "Path is outside the project root or contains invalid traversal",
                    true,
                    fail_closed_data(&paths),
                ),
            );
        }
        let distinct = distinct_paths(&self.run.relatives);
        let caller = snapshot.caller_agent_id;
        if let Some(i) = find_unverifiable(&snapshot.reservations, held, caller) {
            let reservation = &snapshot.reservations[i];
            let lead = "Active reservation ".to_owned().concat(
                signed_text(reservation.id).as_str(),
            );
            let data = reservation_error_data(reservation.id, &paths);
            if reservation.agent_name.is_none() {
                let message = lead.concat(" has no authoritative holder identity");
                return Err(
                    legacy_tool_error(
                        "UNRESOLVED_RESERVATION_HOLDER",
                        message.as_str(),
                        false,
                        data,
                    ),
                );
            }
            let message = lead.concat(
                " contains a malformed path pattern; conflict status is unverifiable",
            );
            return Err(
                legacy_tool_error("MALFORMED_ACTIVE_RESERVATION", message.as_str(), false, data),
            );
        }
        let ghost all = snapshot.reservations@;
        let ghost keep = |reservation: SnapshotReservation| !is_callers(reservation, caller);
        let mut holders: Vec<SnapshotReservation> = Vec::new();
        proof {
            reveal(Seq::filter);
            assert(all.take(0) =~= Seq::empty());
        }
        for reservation in it: snapshot.reservations.into_iter()
            invariant
                it.seq() == all,
                keep == (|reservation: SnapshotReservation| !is_callers(reservation, caller)),
                holders@ == all.take(it.index()).filter(keep),
        {
            proof {
                reveal(Seq::filter);
                assert(all.take(it.index() + 1).drop_last() =~= all.take(it.index()));
            }
            if !own(&reservation, caller) {
                holders.push(reservation);
            }
        }
        proof {
            assert(all.take(all.len() as int) =~= all);
            verified_others(all, held@, caller);
        }
        Ok(
            ConflictMatch {
                paths: distinct,
                holders,
                human_key: snapshot.human_key,
                captured_ts: snapshot.captured_ts,
            },
        )
    }
}

/// Whether two reservations are those of one agent on one pattern.
pub open spec fn same_lease(a: SnapshotReservation, b: SnapshotReservation) -> bool {
    a.path_pattern@ == b.path_pattern@ && a.agent_id == b.agent_id
}

/// The order in which holders are listed: by pattern, then by agent.
pub open spec fn lease_before(a: SnapshotReservation, b: SnapshotReservation) -> bool {
    ||| text_before(a.path_pattern@, b.path_pattern@)
    ||| a.path_pattern@ == b.path_pattern@ && a.agent_id < b.agent_id
}

/// The list of reservations `list`, which is in order, with reservation `k` in
/// its place; a second reservation of one agent on one pattern is left out.
pub open spec fn placed(
    holders: Seq<SnapshotReservation>,
    list: Seq<usize>,
    k: usize,
) -> Seq<usize>
    decreases list.len(),
{
    if list.len() == 0 {
        seq![k]
    } else if lease_before(holders[list[0] as int], holders[k as int]) {
        seq![list[0]] + placed(holders, list.drop_first(), k)
    } else if same_lease(holders[list[0] as int], holders[k as int]) {
        list
    } else {
        seq![k] + list
    }
}

/// The reservations that overlap a path, in the order in which they are listed.
/// `row` says of each of `holders` whether it overlaps.
pub open spec fn overlapping(holders: Seq<SnapshotReservation>, row: Seq<bool>) -> Seq<usize>
    decreases row.len(),
{
    if row.len() == 0 {
        Seq::empty()
    } else {
        let before = overlapping(holders, row.drop_last());
        if row.last() {
            placed(holders, before, (row.len() - 1) as usize)
        } else {
            before
        }
    }
}

/// How many of `row` are true.
pub open spec fn count_true(row: Seq<bool>) -> nat
    decreases row.len(),
{
    if row.len() == 0 {
        0
    } else {
        count_true(row.drop_last()) + (if row.last() {
            1nat
        } else {
            0
        })
    }
}

/// The name of an agent among `holders`: that on its last reservation.
pub open spec fn name_of(holders: Seq<SnapshotReservation>, agent_id: i64) -> Option<Seq<char>>
    decreases holders.len(),
{
    if holders.len() == 0 {
        None
    } else if holders.last().agent_id == agent_id && holders.last().agent_name is Some {
        Some(holders.last().agent_name->0@)
    } else {
        name_of(holders.drop_last(), agent_id)
    }
}

/// How one reservation is listed.
pub open spec fn listed_holder(holders: Seq<SnapshotReservation>, k: usize) -> HolderView {
    HolderView {
        agent: name_of(holders, holders[k as int].agent_id)->0,
        path_pattern: holders[k as int].path_pattern@,
        exclusive: true,
        expires_ts: holders[k as int].expires_ts.iso@,
    }
}

/// The answer for the first paths of a check.
pub struct AnswerView {
    pub conflicts: Seq<ConflictView>,
    pub clear: Seq<Seq<char>>,
    pub total: nat,
    pub emitted: nat,
    pub truncated: bool,
}

/// The lesser of two numbers.
pub open spec fn least(a: nat, b: nat) -> nat {
    if a <= b {
        a
    } else {
        b
    }
}

/// How many of `count` holders are listed for a path, after `emitted` were.
pub open spec fn listed_count(count: nat, emitted: nat) -> nat {
    least(least(count, 50), if emitted <= 1_000 {
        (1_000 - emitted) as nat
    } else {
        0
    })
}

/// The answer for the first `n` paths. A path that no reservation overlaps is
/// clear; another one is listed with its holders, at most 50 of them and 1000 in
/// all.
pub open spec fn answer_for(
    paths: Seq<String>,
    holders: Seq<SnapshotReservation>,
    overlaps: Seq<Vec<bool>>,
    n: int,
) -> AnswerView
    decreases n,
{
    if n <= 0 {
        AnswerView {
            conflicts: Seq::empty(),
            clear: Seq::empty(),
            total: 0,
            emitted: 0,
            truncated: false,
        }
    } else {
        let before = answer_for(paths, holders, overlaps, n - 1);
        let refs = overlapping(holders, overlaps[n - 1]@);
        let path = paths[n - 1]@;
        let total = before.total + count_true(overlaps[n - 1]@);
        if refs.len() == 0 {
            AnswerView { clear: before.clear.push(path), total, ..before }
        } else {
            let listed = listed_count(refs.len(), before.emitted);
            AnswerView {
                conflicts: before.conflicts.push(
                    ConflictView {
                        path,
                        holders: refs.take(listed as int).map_values(
                            |k: usize| listed_holder(holders, k),
                        ),
                    },
                ),
                clear: before.clear,
                total,
                emitted: before.emitted + listed,
                truncated: before.truncated || listed < refs.len(),
            }
        }
    }
}

proof fn placed_after(
    holders: Seq<SnapshotReservation>,
    list: Seq<usize>,
    k: usize,
    n: int,
)
    requires
        0 <= n <= list.len(),
        forall|i: int|
            0 <= i < n ==> lease_before(holders[#[trigger] list[i] as int], holders[k as int]),
    ensures
        placed(holders, list, k) == list.take(n) + placed(holders, list.skip(n), k),
    decreases n,
{
    if n == 0 {
        assert(list.take(0) + placed(holders, list.skip(0), k) =~= placed(holders, list, k)) by {
            assert(list.skip(0) =~= list);
        }
    } else {
        let rest = list.drop_first();
        assert(lease_before(holders[list[0] as int], holders[k as int]));
        assert forall|i: int| 0 <= i < n - 1 implies lease_before(
            holders[#[trigger] rest[i] as int],
            holders[k as int],
        ) by {
            assert(rest[i] == list[i + 1]);
        }
        placed_after(holders, rest, k, n - 1);
        assert(rest.skip(n - 1) =~= list.skip(n));
        assert(seq![list[0]] + rest.take(n - 1) =~= list.take(n));
        assert(seq![list[0]] + (rest.take(n - 1) + placed(holders, list.skip(n), k))
            =~= list.take(n) + placed(holders, list.skip(n), k));
    }
}

fn is_lease_before(a: &SnapshotReservation, b: &SnapshotReservation) -> (r: bool)
    ensures
        r == lease_before(*a, *b),
{
    if before(a.path_pattern.as_str(), b.path_pattern.as_str()) {
        return true;
    }
    same_text(a.path_pattern.as_str(), b.path_pattern.as_str()) && a.agent_id < b.agent_id
}

fn place(holders: &Vec<SnapshotReservation>, list: &mut Vec<usize>, k: usize)
    requires
        k < holders@.len(),
        forall|i: int| 0 <= i < old(list)@.len() ==> #[trigger] old(list)@[i] < holders@.len(),
    ensures
        final(list)@ == placed(holders@, old(list)@, k),
        forall|i: int| 0 <= i < final(list)@.len() ==> #[trigger] final(list)@[i] < holders@.len(),
        final(list)@.len() <= old(list)@.len() + 1,
{
    let ghost start = list@;
    let mut n: usize = 0;
    while n < list.len() && is_lease_before(&holders[list[n]], &holders[k])
        invariant
            list@ == start,
            n <= list.len(),
            k < holders@.len(),
            forall|i: int| 0 <= i < start.len() ==> #[trigger] start[i] < holders@.len(),
            forall|i: int|
                0 <= i < n ==> lease_before(holders@[#[trigger] start[i] as int], holders@[k as int]),
        ensures
            list@ == start,
            n <= start.len(),
            forall|i: int|
                0 <= i < n ==> lease_before(holders@[#[trigger] start[i] as int], holders@[k as int]),
            n < start.len() ==> !lease_before(holders@[start[n as int] as int], holders@[k as int]),
        decreases list.len() - n,
    {
        n = n + 1;
    }
    proof {
        placed_after(holders@, start, k, n as int);
    }
    if n < list.len() {
        let other = &holders[list[n]];
        if same_text(other.path_pattern.as_str(), holders[k].path_pattern.as_str())
            && other.agent_id == holders[k].agent_id {
            proof {
                assert(start.take(n as int) + start.skip(n as int) =~= start);
            }
            return;
        }
    }
    list.insert(n, k);
    proof {
        assert(list@ =~= start.take(n as int) + (seq![k] + start.skip(n as int)));
        if n == start.len() {
            assert(seq![k] + start.skip(n as int) =~= seq![k]);
        }
    }
}

fn find_overlapping(holders: &Vec<SnapshotReservation>, row: &Vec<bool>) -> (r: Vec<usize>)
    requires
        row@.len() == holders@.len(),
    ensures
        r@ == overlapping(holders@, row@),
        forall|i: int| 0 <= i < r@.len() ==> #[trigger] r@[i] < holders@.len(),
{
    let mut list: Vec<usize> = Vec::new();
    let mut i: usize = 0;
    while i < row.len()
        invariant
            i <= row.len(),
            row@.len() == holders@.len(),
            list@ == overlapping(holders@, row@.take(i as int)),
            forall|k: int| 0 <= k < list@.len() ==> #[trigger] list@[k] < holders@.len(),
        decreases row.len() - i,
    {
        proof {
            assert(row@.take(i + 1).drop_last() =~= row@.take(i as int));
        }
        if row[i] {
            place(holders, &mut list, i);
        }
        i = i + 1;
    }
    proof {
        assert(row@.take(row.len() as int) =~= row@);
    }
    list
}

fn count_overlaps(row: &Vec<bool>) -> (r: usize)
    ensures
        r == count_true(row@),
{
    let mut count: usize = 0;
    let mut i: usize = 0;
    while i < row.len()
        invariant
            i <= row.len(),
            count <= i,
            count == count_true(row@.take(i as int)),
        decreases row.len() - i,
    {
        proof {
            assert(row@.take(i + 1).drop_last() =~= row@.take(i as int));
        }
        if row[i] {
            count = count + 1;
        }
        i = i + 1;
    }
    proof {
        assert(row@.take(row.len() as int) =~= row@);
    }
    count
}

fn holder_names(holders: &Vec<SnapshotReservation>) -> (r: HashMap<i64, String>)
    ensures
        forall|id: i64|
            (#[trigger] r@.contains_key(id)) == (name_of(holders@, id) is Some),
        forall|id: i64|
            #[trigger] r@.contains_key(id) ==> name_of(holders@, id) == Some(r@[id]@),
{
    broadcast use vstd::std_specs::hash::group_hash_axioms;

    let mut names: HashMap<i64, String> = HashMap::new();
    let mut i: usize = 0;
    while i < holders.len()
        invariant
            i <= holders.len(),
            forall|id: i64|
                (#[trigger] names@.contains_key(id)) == (name_of(holders@.take(i as int), id)
                    is Some),
            forall|id: i64|
                #[trigger] names@.contains_key(id) ==> name_of(holders@.take(i as int), id)
                    == Some(names@[id]@),
        decreases holders.len() - i,
    {
        proof {
            assert(holders@.take(i + 1).drop_last() =~= holders@.take(i as int));
        }
        if let Some(name) = &holders[i].agent_name {
            names.insert(holders[i].agent_id, name.clone());
        }
        i = i + 1;
    }
    proof {
        assert(holders@.take(holders.len() as int) =~= holders@);
    }
    names
}

proof fn named_holders_have_names(holders: Seq<SnapshotReservation>, k: int)
    requires
        0 <= k < holders.len(),
        holders[k].agent_name is Some,
    ensures
        name_of(holders, holders[k].agent_id) is Some,
    decreases holders.len(),
{
    if k < holders.len() - 1 {
        named_holders_have_names(holders.drop_last(), k);
    }
}

fn list_holders(
    holders: &Vec<SnapshotReservation>,
    names: &HashMap<i64, String>,
    refs: &Vec<usize>,
    listed: usize,
) -> (r: Vec<ConflictHolder>)
    requires
        listed <= refs@.len(),
        forall|i: int| 0 <= i < refs@.len() ==> #[trigger] refs@[i] < holders@.len(),
        forall|i: int| 0 <= i < holders@.len() ==> (#[trigger] holders@[i]).agent_name is Some,
        forall|id: i64|
            (#[trigger] names@.contains_key(id)) == (name_of(holders@, id) is Some),
        forall|id: i64|
            #[trigger] names@.contains_key(id) ==> name_of(holders@, id) == Some(names@[id]@),
    ensures
        holder_views(r@) == refs@.take(listed as int).map_values(
            |k: usize| listed_holder(holders@, k),
        ),
{
    broadcast use vstd::std_specs::hash::group_hash_axioms;

    let mut out: Vec<ConflictHolder> = Vec::new();
    let mut i: usize = 0;
    while i < listed
        invariant
            i <= listed <= refs@.len(),
            out.len() == i,
            forall|k: int| 0 <= k < refs@.len() ==> #[trigger] refs@[k] < holders@.len(),
            forall|k: int| 0 <= k < holders@.len() ==> (#[trigger] holders@[k]).agent_name is Some,
            forall|id: i64|
                (#[trigger] names@.contains_key(id)) == (name_of(holders@, id) is Some),
            forall|id: i64|
                #[trigger] names@.contains_key(id) ==> name_of(holders@, id) == Some(names@[id]@),
            forall|k: int|
                0 <= k < i ==> (#[trigger] out@[k])@ == listed_holder(holders@, refs@[k]),
        decreases listed - i,
    {
        let entry = &holders[refs[i]];
        proof {
            named_holders_have_names(holders@, refs@[i as int] as int);
            assert(names@.contains_key(entry.agent_id));
        }
        if let Some(name) = names.get(&entry.agent_id) {
            out.push(
                ConflictHolder {
                    agent: name.clone(),
                    path_pattern: entry.path_pattern.clone(),
                    exclusive: true,
                    expires_ts: entry.expires_ts.iso.clone(),
                },
            );
        }
        i = i + 1;
    }
    proof {
        assert(holder_views(out@) =~= refs@.take(listed as int).map_values(
            |k: usize| listed_holder(holders@, k),
        ));
    }
    out
}

/// Whether `overlaps` says of each of `paths` and each of `holders` whether they
/// overlap.
pub open spec fn answers_match(
    overlaps: Seq<Vec<bool>>,
    paths: Seq<String>,
    holders: Seq<SnapshotReservation>,
) -> bool {
    &&& overlaps.len() == paths.len()
    &&& forall|i: int| 0 <= i < overlaps.len() ==> (#[trigger] overlaps[i])@.len() == holders.len()
}

/// Whether `response` is the answer to the check `matching`.
pub open spec fn is_check_answer(
    response: ReservationConflictCheckResponse,
    matching: ConflictMatch,
    overlaps: Seq<Vec<bool>>,
) -> bool {
    let n = matching.paths@.len() as int;
    let answer = answer_for(matching.paths@, matching.holders@, overlaps, n);
    &&& response.conflict_free == (answer.conflicts.len() == 0)
    &&& conflict_views(response.conflicts@) == answer.conflicts
    &&& texts(response.clear_paths@) == answer.clear
    &&& response.checked_paths == n
    &&& response.total_conflicting_reservations == least(answer.total, usize::MAX as nat)
    &&& response.output_truncated == answer.truncated
    &&& response.project == matching.human_key
    &&& response.snapshot_ts == matching.captured_ts.iso
    &&& response.authoritative_source@ == "database_snapshot"@
    &&& response.read_only
}

impl ConflictMatch {
    /// Whether the holder of each reservation is known.
    pub open spec fn wf(self) -> bool {
        forall|i: int|
            0 <= i < self.holders@.len() ==> (#[trigger] self.holders@[i]).agent_name is Some
    }

    /// Answers the check. `overlaps` says of each path and each reservation
    /// whether they overlap.
    pub fn answer(self, overlaps: &Vec<Vec<bool>>) -> (r: ReservationConflictCheckResponse)
        requires
            self.wf(),
            answers_match(overlaps@, self.paths@, self.holders@),
        ensures
            is_check_answer(r, self, overlaps@),
    {
        let names = holder_names(&self.holders);
        let mut conflicts: Vec<ReservationConflict> = Vec::new();
        let mut clear_paths: Vec<String> = Vec::new();
        let mut total: usize = 0;
        let mut emitted: usize = 0;
        let mut truncated: bool = false;
        let mut i: usize = 0;
        proof {
            assert(conflict_views(conflicts@) =~= Seq::empty());
            assert(texts(clear_paths@) =~= Seq::empty());
        }
        while i < self.paths.len()
            invariant
                i <= self.paths.len(),
                self.wf(),
                answers_match(overlaps@, self.paths@, self.holders@),
                forall|id: i64|
                    (#[trigger] names@.contains_key(id)) == (name_of(self.holders@, id) is Some),
                forall|id: i64|
                    #[trigger] names@.contains_key(id) ==> name_of(self.holders@, id) == Some(
                        names@[id]@,
                    ),
                ({
                    let answer = answer_for(self.paths@, self.holders@, overlaps@, i as int);
                    &&& conflict_views(conflicts@) == answer.conflicts
                    &&& texts(clear_paths@) == answer.clear
                    &&& total == least(answer.total, usize::MAX as nat)
                    &&& emitted == answer.emitted
                    &&& truncated == answer.truncated
                }),
                emitted <= 1_000,
            decreases self.paths.len() - i,
        {
            let row = &overlaps[i];
            let refs = find_overlapping(&self.holders, row);
            let found: usize = count_overlaps(row);
            let ghost answer = answer_for(self.paths@, self.holders@, overlaps@, i as int);
            total = total.saturating_add(found);
            if refs.len() == 0 {
                let ghost had = texts(clear_paths@);
                clear_paths.push(self.paths[i].clone());
                proof {
                    assert(texts(clear_paths@) =~= had.push(self.paths@[i as int]@));
                }
            } else {
                let remaining: usize = MAX_CONFLICT_HOLDERS_TOTAL.saturating_sub(emitted);
                let mut listed: usize = refs.len();
                if listed > MAX_CONFLICT_HOLDERS_PER_PATH {
                    listed = MAX_CONFLICT_HOLDERS_PER_PATH;
                }
                if listed > remaining {
                    listed = remaining;
                }
                if listed < refs.len() {
                    truncated = true;
                }
                let holders = list_holders(&self.holders, &names, &refs, listed);
                emitted = emitted + listed;
                let ghost had = conflict_views(conflicts@);
                let conflict = ReservationConflict { path: self.paths[i].clone(), holders };
                conflicts.push(conflict);
                proof {
                    assert(conflict_views(conflicts@) =~= had.push(conflict@));
                }
            }
            i = i + 1;
        }
        ReservationConflictCheckResponse {
            conflict_free: conflicts.len() == 0,
            conflicts,
            clear_paths,
            checked_paths: self.paths.len(),
            total_conflicting_reservations: total,
            output_truncated: truncated,
            project: self.human_key,
            snapshot_ts: self.captured_ts.iso,
            authoritative_source: "database_snapshot".to_owned(),
            read_only: true,
        }
    }
}

/// Whether `list` is in the order in which holders are listed.
pub open spec fn is_ordered(holders: Seq<SnapshotReservation>, list: Seq<usize>) -> bool {
    forall|i: int, j: int|
        0 <= i < j < list.len() ==> lease_before(
            holders[#[trigger] list[i] as int],
            holders[#[trigger] list[j] as int],
        )
}

/// Whether `list` names the lease of reservation `k`.
pub open spec fn has_lease(holders: Seq<SnapshotReservation>, list: Seq<usize>, k: usize) -> bool {
    exists|i: int|
        0 <= i < list.len() && same_lease(holders[#[trigger] list[i] as int], holders[k as int])
}

pub(crate) proof fn lease_order_total(a: SnapshotReservation, b: SnapshotReservation)
    ensures
        lease_before(a, b) || lease_before(b, a) || same_lease(a, b),
{
    text_order_total(a.path_pattern@, b.path_pattern@);
}

pub(crate) proof fn lease_order_asymmetric(a: SnapshotReservation, b: SnapshotReservation)
    requires
        lease_before(a, b),
    ensures
        !lease_before(b, a),
        !same_lease(a, b),
{
    text_order_asymmetric(a.path_pattern@, b.path_pattern@);
    text_order_irreflexive(a.path_pattern@);
}

pub(crate) proof fn lease_order_transitive(
    a: SnapshotReservation,
    b: SnapshotReservation,
    c: SnapshotReservation,
)
    requires
        lease_before(a, b),
        lease_before(b, c),
    ensures
        lease_before(a, c),
{
    if text_before(a.path_pattern@, b.path_pattern@) && text_before(
        b.path_pattern@,
        c.path_pattern@,
    ) {
        text_order_transitive(a.path_pattern@, b.path_pattern@, c.path_pattern@);
    }
}

proof fn placed_keeps_order(holders: Seq<SnapshotReservation>, list: Seq<usize>, k: usize)
    requires
        is_ordered(holders, list),
    ensures
        is_ordered(holders, placed(holders, list, k)),
        has_lease(holders, placed(holders, list, k), k),
        forall|i: int|
            #![trigger placed(holders, list, k)[i]]
            0 <= i < placed(holders, list, k).len() ==> placed(holders, list, k)[i] == k
                || list.contains(placed(holders, list, k)[i]),
        forall|j: usize| list.contains(j) ==> #[trigger] placed(holders, list, k).contains(j),
        placed(holders, list, k).len() > 0,
    decreases list.len(),
{
    let out = placed(holders, list, k);
    if list.len() == 0 {
        assert(out[0] == k);
    } else if lease_before(holders[list[0] as int], holders[k as int]) {
        let rest = list.drop_first();
        assert(is_ordered(holders, rest)) by {
            assert forall|i: int, j: int| 0 <= i < j < rest.len() implies lease_before(
                holders[#[trigger] rest[i] as int],
                holders[#[trigger] rest[j] as int],
            ) by {
                assert(rest[i] == list[i + 1] && rest[j] == list[j + 1]);
            }
        }
        placed_keeps_order(holders, rest, k);
        let tail = placed(holders, rest, k);
        assert forall|i: int| 0 <= i < tail.len() implies lease_before(
            holders[list[0] as int],
            holders[#[trigger] tail[i] as int],
        ) && (tail[i] == k || list.contains(tail[i])) by {
            if tail[i] != k {
                assert(rest.contains(tail[i]));
                let n = choose|n: int| 0 <= n < rest.len() && rest[n] == tail[i];
                assert(list[n + 1] == tail[i]);
                assert(lease_before(holders[list[0] as int], holders[list[n + 1] as int]));
            }
        }
        assert(is_ordered(holders, out)) by {
            assert forall|i: int, j: int| 0 <= i < j < out.len() implies lease_before(
                holders[#[trigger] out[i] as int],
                holders[#[trigger] out[j] as int],
            ) by {
                assert(out[j] == tail[j - 1]);
                if i > 0 {
                    assert(out[i] == tail[i - 1]);
                }
            }
        }
        let w = choose|i: int|
            0 <= i < tail.len() && same_lease(
                holders[#[trigger] tail[i] as int],
                holders[k as int],
            );
        assert(out[w + 1] == tail[w]);
        assert forall|j: usize| list.contains(j) implies #[trigger] out.contains(j) by {
            let n = choose|n: int| 0 <= n < list.len() && list[n] == j;
            if n == 0 {
                assert(out[0] == j);
            } else {
                assert(rest[n - 1] == j);
                assert(rest.contains(j));
                assert(tail.contains(j));
                let m = choose|m: int| 0 <= m < tail.len() && tail[m] == j;
                assert(out[m + 1] == j);
            }
        }
        assert forall|i: int| #![trigger out[i]] 0 <= i < out.len() implies out[i] == k
            || list.contains(out[i]) by {
            if i == 0 {
                assert(list[0] == out[0]);
            } else {
                assert(out[i] == tail[i - 1]);
            }
        }
    } else if same_lease(holders[list[0] as int], holders[k as int]) {
        assert(same_lease(holders[out[0] as int], holders[k as int]));
        assert forall|i: int| #![trigger out[i]] 0 <= i < out.len() implies out[i] == k
            || list.contains(out[i]) by {
            assert(list[i] == out[i]);
        }
    } else {
        lease_order_total(holders[list[0] as int], holders[k as int]);
        assert(out[0] == k);
        assert forall|i: int, j: int| 0 <= i < j < out.len() implies lease_before(
            holders[#[trigger] out[i] as int],
            holders[#[trigger] out[j] as int],
        ) by {
            assert(out[j] == list[j - 1]);
            if i == 0 {
                if j > 1 {
                    assert(lease_before(holders[list[0] as int], holders[list[j - 1] as int]));
                    lease_order_transitive(
                        holders[k as int],
                        holders[list[0] as int],
                        holders[list[j - 1] as int],
                    );
                }
            } else {
                assert(out[i] == list[i - 1]);
            }
        }
        assert forall|j: usize| list.contains(j) implies #[trigger] out.contains(j) by {
            let n = choose|n: int| 0 <= n < list.len() && list[n] == j;
            assert(out[n + 1] == j);
        }
        assert forall|i: int| #![trigger out[i]] 0 <= i < out.len() implies out[i] == k
            || list.contains(out[i]) by {
            if i > 0 {
                assert(list[i - 1] == out[i]);
            }
        }
    }
}

/// The holders of a path are listed in order, by pattern and then by agent, each
/// lease once; each one listed overlaps the path, and the lease of each
/// reservation that does is listed.
pub proof fn overlapping_is_complete(holders: Seq<SnapshotReservation>, row: Seq<bool>)
    requires
        row.len() <= holders.len() <= usize::MAX,
    ensures
        is_ordered(holders, overlapping(holders, row)),
        forall|i: int|
            0 <= i < overlapping(holders, row).len() ==> {
                let k = #[trigger] overlapping(holders, row)[i] as int;
                0 <= k < row.len() && row[k]
            },
        forall|k: int|
            0 <= k < row.len() && #[trigger] row[k] ==> has_lease(
                holders,
                overlapping(holders, row),
                k as usize,
            ),
        overlapping(holders, row).len() == 0 <==> forall|k: int|
            0 <= k < row.len() ==> !#[trigger] row[k],
    decreases row.len(),
{
    let out = overlapping(holders, row);
    if row.len() > 0 {
        let head = row.drop_last();
        let list = overlapping(holders, head);
        overlapping_is_complete(holders, head);
        let last = (row.len() - 1) as usize;
        if row.last() {
            placed_keeps_order(holders, list, last);
            assert(row[row.len() - 1]);
        }
        assert forall|i: int| 0 <= i < out.len() implies {
            let k = #[trigger] out[i] as int;
            0 <= k < row.len() && row[k]
        } by {
            if row.last() {
                if out[i] != last {
                    assert(list.contains(out[i]));
                    let n = choose|n: int| 0 <= n < list.len() && list[n] == out[i];
                    assert(head[list[n] as int]);
                }
            } else {
                assert(head[list[i] as int]);
            }
        }
        assert forall|k: int| 0 <= k < row.len() && #[trigger] row[k] implies has_lease(
            holders,
            out,
            k as usize,
        ) by {
            if k < head.len() {
                assert(head[k]);
                let n = choose|n: int|
                    0 <= n < list.len() && same_lease(
                        holders[#[trigger] list[n] as int],
                        holders[k],
                    );
                if row.last() {
                    assert(list.contains(list[n]));
                    assert(out.contains(list[n]));
                    let m = choose|m: int| 0 <= m < out.len() && out[m] == list[n];
                    assert(same_lease(holders[out[m] as int], holders[k]));
                }
            }
        }
        if out.len() == 0 {
            assert forall|k: int| 0 <= k < row.len() implies !#[trigger] row[k] by {
                if row[k] {
                    assert(has_lease(holders, out, k as usize));
                }
            }
        }
        if forall|k: int| 0 <= k < row.len() ==> !#[trigger] row[k] {
            if out.len() > 0 {
                let k = out[0] as int;
                assert(row[k]);
            }
        }
    }
}

/// Whether a reservation overlaps the path at position `i`.
pub open spec fn is_held(overlaps: Seq<Vec<bool>>, i: int) -> bool {
    exists|k: int| 0 <= k < overlaps[i]@.len() && #[trigger] overlaps[i]@[k]
}

/// How many holders `conflicts` list in all.
pub open spec fn listed_total(conflicts: Seq<ConflictView>) -> nat
    decreases conflicts.len(),
{
    if conflicts.len() == 0 {
        0
    } else {
        listed_total(conflicts.drop_last()) + conflicts.last().holders.len()
    }
}

/// Each path of a check is either clear or in conflict, as no reservation or one
/// overlaps it; and no more than 50 holders are listed for a path, 1000 in all.
pub proof fn answer_splits_paths(
    paths: Seq<String>,
    holders: Seq<SnapshotReservation>,
    overlaps: Seq<Vec<bool>>,
    n: int,
)
    requires
        answers_match(overlaps, paths, holders),
        holders.len() <= usize::MAX,
        0 <= n <= paths.len(),
    ensures
        ({
            let answer = answer_for(paths, holders, overlaps, n);
            &&& answer.conflicts.len() + answer.clear.len() == n
            &&& answer.conflicts.len() == 0 <==> forall|i: int|
                0 <= i < n ==> !#[trigger] is_held(overlaps, i)
            &&& forall|i: int|
                0 <= i < n && !#[trigger] is_held(overlaps, i) ==> answer.clear.contains(
                    paths[i]@,
                )
            &&& forall|i: int|
                0 <= i < n && #[trigger] is_held(overlaps, i) ==> exists|j: int|
                    0 <= j < answer.conflicts.len() && (#[trigger] answer.conflicts[j]).path
                        == paths[i]@
            &&& forall|j: int|
                0 <= j < answer.conflicts.len() ==> (#[trigger] answer.conflicts[j]).holders.len()
                    <= 50
            &&& listed_total(answer.conflicts) == answer.emitted
            &&& answer.emitted <= 1_000
        }),
    decreases n,
{
    let answer = answer_for(paths, holders, overlaps, n);
    if n > 0 {
        answer_splits_paths(paths, holders, overlaps, n - 1);
        let before = answer_for(paths, holders, overlaps, n - 1);
        let row = overlaps[n - 1]@;
        let refs = overlapping(holders, row);
        assert(row.len() == holders.len());
        overlapping_is_complete(holders, row);
        assert(is_held(overlaps, n - 1) == (refs.len() > 0)) by {
            if is_held(overlaps, n - 1) {
                let k = choose|k: int| 0 <= k < row.len() && #[trigger] row[k];
                assert(row[k]);
            }
        }
        if refs.len() == 0 {
            assert(answer.clear[answer.clear.len() - 1] == paths[n - 1]@);
            assert forall|i: int| 0 <= i < n && !#[trigger] is_held(
                overlaps,
                i,
            ) implies answer.clear.contains(paths[i]@) by {
                if i < n - 1 {
                    let m = choose|m: int|
                        0 <= m < before.clear.len() && before.clear[m] == paths[i]@;
                    assert(answer.clear[m] == paths[i]@);
                }
            }
        } else {
            assert(answer.conflicts.drop_last() =~= before.conflicts);
            assert(answer.conflicts[answer.conflicts.len() - 1].path == paths[n - 1]@);
            assert forall|i: int| 0 <= i < n && #[trigger] is_held(overlaps, i) implies exists|
                j: int,
            |
                0 <= j < answer.conflicts.len() && (#[trigger] answer.conflicts[j]).path
                    == paths[i]@ by {
                if i < n - 1 {
                    let j = choose|j: int|
                        0 <= j < before.conflicts.len() && (#[trigger] before.conflicts[j]).path
                            == paths[i]@;
                    assert(answer.conflicts[j] == before.conflicts[j]);
                }
            }
            assert(is_held(overlaps, n - 1));
        }
    }
}

/// Whether `error` says that nothing is to be edited: its data fails closed, and
/// names each of `paths` as one that must not be edited.
pub open spec fn fails_closed(error: McpError, paths: Seq<String>) -> bool {
    &&& error.data is Some
    &&& {
        let data = tree_index(tree_index(json_tree(error.data->0), "error"@), "data"@);
        &&& tree_index(data, "fail_closed"@) == JsonTree::Bool(true)
        &&& tree_index(data, "do_not_edit"@) == text_list(texts(paths))
    }
}

proof fn closed_trees(paths: Seq<String>, id: i64)
    ensures
        forall|tree: JsonTree|
            #![trigger tree_index(tree, "fail_closed"@)]
            tree == fail_closed_tree(paths) || tree == too_many_paths_tree(paths) || tree
                == payload_too_large_tree(paths) || tree == snapshot_too_large_tree(paths) || tree
                == reservation_error_tree(id, paths) ==> {
                &&& tree_index(tree, "fail_closed"@) == JsonTree::Bool(true)
                &&& tree_index(tree, "do_not_edit"@) == text_list(texts(paths))
            },
{
    reveal_strlit("fail_closed");
    reveal_strlit("do_not_edit");
    reveal_strlit("count");
    reveal_strlit("max");
    reveal_strlit("payload_bytes");
    reveal_strlit("reservation_id");
    assert("fail_closed"@.len() == 11);
    assert("do_not_edit"@.len() == 11);
    assert("fail_closed"@[0] == 'f');
    assert("do_not_edit"@[0] == 'd');
    assert("count"@.len() == 5);
    assert("max"@.len() == 3);
    assert("payload_bytes"@.len() == 13);
    assert("reservation_id"@.len() == 14);
}

proof fn closed_error(
    error: McpError,
    kind: Seq<char>,
    message: Seq<char>,
    recoverable: bool,
    data: JsonTree,
    paths: Seq<String>,
    id: i64,
)
    requires
        is_tool_error(error, kind, message, recoverable, data),
        data == fail_closed_tree(paths) || data == too_many_paths_tree(paths) || data
            == payload_too_large_tree(paths) || data == snapshot_too_large_tree(paths) || data
            == reservation_error_tree(id, paths),
    ensures
        fails_closed(error, paths),
{
    tool_error_names_its_type(error, kind, message, recoverable, data);
    closed_trees(paths, id);
    assert(tree_index(data, "fail_closed"@) == JsonTree::Bool(true));
}

/// A request for a check that is refused fails closed.
pub proof fn refused_request_fails_closed(
    error: McpError,
    project_key: Seq<char>,
    agent_name: Option<String>,
    paths: Vec<String>,
    caller_mode: Option<String>,
)
    requires
        is_check_verdict(Err(error), project_key, agent_name, paths, caller_mode),
    ensures
        fails_closed(error, paths@),
{
    let inner = tree_index(json_tree(error.data->0), "error"@);
    let kind = tree_index(inner, "type"@)->Text_0;
    let recoverable = tree_index(inner, "recoverable"@)->Bool_0;
    let data = tree_index(inner, "data"@);
    envelope_members();
    closed_error(error, kind, error.message@, recoverable, data, paths@, 0);
}

/// A check that ends at its snapshot or at a pattern that cannot be matched, on
/// either side, fails closed.
pub proof fn ended_check_fails_closed(
    error: McpError,
    check: ConflictCheck,
    snapshot: ReservationConflictSnapshot,
    machine: Machine,
    scan: ConflictScan,
    facts: Seq<PatternFacts>,
    held: Seq<PatternFacts>,
)
    ensures
        is_scan_verdict(Err(error), check, DbOutcome::Done(snapshot), machine) ==> fails_closed(
            error,
            check.paths@,
        ),
        is_match_verdict(Err(error), scan, facts, held) ==> fails_closed(error, scan.paths@),
{
    let inner = tree_index(json_tree(error.data->0), "error"@);
    let kind = tree_index(inner, "type"@)->Text_0;
    let recoverable = tree_index(inner, "recoverable"@)->Bool_0;
    let data = tree_index(inner, "data"@);
    envelope_members();
    if is_scan_verdict(Err(error), check, DbOutcome::Done(snapshot), machine) {
        closed_error(error, kind, error.message@, recoverable, data, check.paths@, 0);
    }
    if is_match_verdict(Err(error), scan, facts, held) {
        let caller = scan.snapshot.caller_agent_id;
        let id = match first_unverifiable(scan.snapshot.reservations@, held, caller) {
            Some(i) => scan.snapshot.reservations@[i].id,
            None => 0,
        };
        closed_error(error, kind, error.message@, recoverable, data, scan.paths@, id);
    }
}

/// A check goes on with every reservation but the caller's own, and with all of
/// them where the caller is anonymous; and it knows the holder of each.
pub proof fn match_ignores_only_the_caller(
    matching: ConflictMatch,
    scan: ConflictScan,
    facts: Seq<PatternFacts>,
    held: Seq<PatternFacts>,
)
    requires
        is_match_verdict(Ok(matching), scan, facts, held),
    ensures
        matching.wf(),
        forall|i: int|
            0 <= i < matching.holders@.len() ==> !is_callers(
                #[trigger] matching.holders@[i],
                scan.snapshot.caller_agent_id,
            ),
        scan.snapshot.caller_agent_id is None ==> matching.holders@
            == scan.snapshot.reservations@,
{
    let caller = scan.snapshot.caller_agent_id;
    verified_others(scan.snapshot.reservations@, held, caller);
}

pub(crate) proof fn verified_others(
    reservations: Seq<SnapshotReservation>,
    facts: Seq<PatternFacts>,
    caller: Option<i64>,
)
    requires
        first_unverifiable(reservations, facts, caller) is None,
    ensures
        forall|i: int|
            0 <= i < others(reservations, caller).len() ==> {
                &&& (#[trigger] others(reservations, caller)[i]).agent_name is Some
                &&& !is_callers(others(reservations, caller)[i], caller)
            },
        caller is None ==> others(reservations, caller) == reservations,
    decreases reservations.len(),
{
    reveal(Seq::filter);
    if reservations.len() > 0 {
        verified_others(reservations.drop_last(), facts, caller);
        let head = others(reservations.drop_last(), caller);
        let all = others(reservations, caller);
        assert(reservations.drop_last().push(reservations.last()) =~= reservations);
        assert forall|i: int| 0 <= i < all.len() implies {
            &&& (#[trigger] all[i]).agent_name is Some
            &&& !is_callers(all[i], caller)
        } by {
            if i < head.len() {
                assert(all[i] == head[i]);
            }
        }
    }
}

} // verus!
