//! Which of an agent's reservations a release or a renewal is about.

use crate::archive::{id_or_zero, is_released, row_id, row_is_released};
use crate::errors::{is_tool_error, legacy_tool_error, reason_data, reason_tree};
use crate::machine::Machine;
use crate::model::{FileReservationRow, McpError};
use crate::paths::{relativize_path, relativized};
use crate::patterns::{invalid_file_reservation_pattern, invalidity, PatternFacts};
use crate::text::same_text;
use std::collections::HashMap;
use vstd::prelude::*;

verus! {

/// Why a path has no place below the project.
#[derive(Debug, Clone, Copy, PartialEq, Eq, Structural)]
pub enum PathStop {
    /// It leads out of the project.
    Outside,
    /// It is the project itself.
    ProjectRoot,
}

/// The paths of a request, relative to the project, up to the first one that has
/// no place below it.
#[derive(Debug, Clone)]
pub struct RelativePaths {
    pub relatives: Vec<String>,
    pub stop: Option<PathStop>,
}

/// Whether `run` holds the paths below the project at `root` that `paths` starts
/// with, and says why the next one is not among them.
pub open spec fn is_relative_run(
    run: RelativePaths,
    root: Seq<char>,
    paths: Seq<String>,
    machine: Machine,
) -> bool {
    let n = run.relatives@.len() as int;
    &&& n <= paths.len()
    &&& forall|k: int|
        #![trigger run.relatives@[k]]
        0 <= k < n ==> {
            &&& relativized(root, paths[k]@, machine) == Some(run.relatives@[k]@)
            &&& run.relatives@[k]@.len() > 0
        }
    &&& match run.stop {
        None => n == paths.len(),
        Some(PathStop::Outside) => n < paths.len() && relativized(
            root,
            paths[n]@,
            machine,
        ) is None,
        Some(PathStop::ProjectRoot) => n < paths.len() && relativized(root, paths[n]@, machine)
            == Some(Seq::<char>::empty()),
    }
}

/// The paths below the project at `root` that `paths` starts with.
pub fn relative_paths(root: &str, paths: &Vec<String>, machine: &Machine) -> (r: RelativePaths)
    ensures
        is_relative_run(r, root@, paths@, *machine),
{
    let mut relatives: Vec<String> = Vec::new();
    let mut i: usize = 0;
    while i < paths.len()
        invariant
            i <= paths.len(),
            relatives.len() == i,
            forall|k: int|
                #![trigger relatives@[k]]
                0 <= k < i ==> {
                    &&& relativized(root@, paths@[k]@, *machine) == Some(relatives@[k]@)
                    &&& relatives@[k]@.len() > 0
                },
        decreases paths.len() - i,
    {
        match relativize_path(root, paths[i].as_str(), machine) {
            Some(relative) => {
                if relative.as_str().unicode_len() == 0 {
                    proof {
                        assert(relative@ =~= Seq::empty());
                    }
                    return RelativePaths { relatives, stop: Some(PathStop::ProjectRoot) };
                }
                relatives.push(relative);
            },
            None => {
                return RelativePaths { relatives, stop: Some(PathStop::Outside) };
            },
        }
        i = i + 1;
    }
    RelativePaths { relatives, stop: None }
}

/// The position of the first pattern that cannot be matched, if there is one.
pub open spec fn first_invalid(patterns: Seq<String>, facts: Seq<PatternFacts>) -> Option<int>
    decreases patterns.len(),
{
    if patterns.len() == 0 {
        None
    } else {
        match first_invalid(patterns.drop_last(), facts) {
            Some(i) => Some(i),
            None => {
                let i = patterns.len() - 1;
                if invalidity(patterns[i]@, facts[i]) is Some {
                    Some(i)
                } else {
                    None
                }
            },
        }
    }
}

/// The first invalid pattern is invalid, and those before it are not.
pub proof fn first_invalid_is_first(patterns: Seq<String>, facts: Seq<PatternFacts>)
    ensures
        match first_invalid(patterns, facts) {
            Some(i) => {
                &&& 0 <= i < patterns.len()
                &&& invalidity(patterns[i]@, facts[i]) is Some
                &&& forall|k: int|
                    0 <= k < i ==> invalidity(#[trigger] patterns[k]@, facts[k]) is None
            },
            None => forall|k: int|
                0 <= k < patterns.len() ==> invalidity(#[trigger] patterns[k]@, facts[k]) is None,
        },
    decreases patterns.len(),
{
    if patterns.len() > 0 {
        let head = patterns.drop_last();
        first_invalid_is_first(head, facts);
        assert(forall|k: int| 0 <= k < head.len() ==> head[k] == #[trigger] patterns[k]);
    }
}

proof fn first_invalid_of_prefix(patterns: Seq<String>, facts: Seq<PatternFacts>, n: int)
    requires
        0 <= n <= patterns.len(),
        first_invalid(patterns.take(n), facts) is Some,
    ensures
        first_invalid(patterns, facts) == first_invalid(patterns.take(n), facts),
    decreases patterns.len(),
{
    if n == patterns.len() {
        assert(patterns.take(n) =~= patterns);
    } else {
        assert(patterns.drop_last().take(n) =~= patterns.take(n));
        first_invalid_of_prefix(patterns.drop_last(), facts, n);
    }
}

/// The first pattern that cannot be matched, with the reason, if there is one.
pub fn find_invalid_pattern(patterns: &Vec<String>, facts: &Vec<PatternFacts>) -> (r: Option<
    (usize, String),
>)
    requires
        facts@.len() == patterns@.len(),
    ensures
        match r {
            Some((i, message)) => {
                &&& first_invalid(patterns@, facts@) == Some(i as int)
                &&& i < patterns@.len()
                &&& invalidity(patterns@[i as int]@, facts@[i as int]) == Some(message@)
            },
            None => first_invalid(patterns@, facts@) is None,
        },
{
    let mut i: usize = 0;
    while i < patterns.len()
        invariant
            i <= patterns.len(),
            facts@.len() == patterns@.len(),
            first_invalid(patterns@.take(i as int), facts@) is None,
        decreases patterns.len() - i,
    {
        proof {
            assert(patterns@.take(i + 1).drop_last() =~= patterns@.take(i as int));
        }
        if let Some(message) = invalid_file_reservation_pattern(patterns[i].as_str(), &facts[i]) {
            proof {
                first_invalid_of_prefix(patterns@, facts@, i + 1);
            }
            return Some((i, message));
        }
        i = i + 1;
    }
    proof {
        assert(patterns@.take(patterns.len() as int) =~= patterns@);
    }
    None
}

/// Whether `error` says that a path leads out of the project.
pub open spec fn is_outside_error(error: McpError) -> bool {
    is_tool_error(
        error,
        "INVALID_PATH"@,
        "Path is outside the project root. File reservations must be within the project directory."@,
        true,
        reason_tree("path_outside_project"@),
    )
}

/// Whether `error` says that a path is the project itself.
pub open spec fn is_root_error(error: McpError, message: Seq<char>) -> bool {
    is_tool_error(error, "INVALID_PATH"@, message, true, reason_tree("targets_project_root"@))
}

/// Whether `error` says that a pattern cannot be matched.
pub open spec fn is_pattern_error(error: McpError, message: Seq<char>) -> bool {
    is_tool_error(error, "INVALID_PATH"@, message, true, reason_tree("invalid_pattern"@))
}

/// Whether `r` is what becomes of the paths of a request: the first that cannot
/// be reserved decides. `root_message` is what is said of the project itself.
pub open spec fn is_usable_paths(
    r: Result<Vec<String>, McpError>,
    run: RelativePaths,
    facts: Seq<PatternFacts>,
    root_message: Seq<char>,
) -> bool {
    match first_invalid(run.relatives@, facts) {
        Some(i) => r is Err && is_pattern_error(
            r->Err_0,
            invalidity(run.relatives@[i]@, facts[i])->0,
        ),
        None => match run.stop {
            Some(PathStop::Outside) => r is Err && is_outside_error(r->Err_0),
            Some(PathStop::ProjectRoot) => r is Err && is_root_error(r->Err_0, root_message),
            None => r == Ok::<Vec<String>, McpError>(run.relatives),
        },
    }
}

/// The paths of a request, where each one can be reserved. `facts` is what the
/// pattern engine says of `run.relatives`, one by one.
pub fn usable_paths(run: RelativePaths, facts: &Vec<PatternFacts>, root_message: &str) -> (r: Result<
    Vec<String>,
    McpError,
>)
    requires
        facts@.len() == run.relatives@.len(),
    ensures
        is_usable_paths(r, run, facts@, root_message@),
{
    if let Some((_, message)) = find_invalid_pattern(&run.relatives, facts) {
        return Err(
            legacy_tool_error(
                "INVALID_PATH",
                message.as_str(),
                true,
                reason_data("invalid_pattern"),
            ),
        );
    }
    match run.stop {
        Some(PathStop::Outside) => Err(
            legacy_tool_error(
                "INVALID_PATH",
                "Path is outside the project root. File reservations must be within the project directory.",
                true,
                reason_data("path_outside_project"),
            ),
        ),
        Some(PathStop::ProjectRoot) => Err(
            legacy_tool_error(
                "INVALID_PATH",
                root_message,
                true,
                reason_data("targets_project_root"),
            ),
        ),
        None => Ok(run.relatives),
    }
}

/// What is said of a filter path that is the project itself.
pub open spec fn filter_root_message() -> Seq<char> {
    "Cannot target the project root directory itself. Please use more specific patterns."@
}

/// The filter paths below the project at `root`, if there is a filter.
pub fn relative_filter_paths(root: &str, paths: &Option<Vec<String>>, machine: &Machine) -> (r:
    Option<RelativePaths>)
    ensures
        match (r, *paths) {
            (Some(run), Some(list)) => is_relative_run(run, root@, list@, *machine),
            (None, None) => true,
            _ => false,
        },
{
    match paths {
        Some(list) => Some(relative_paths(root, list, machine)),
        None => None,
    }
}

/// The patterns of a run of relative paths; none where there is no filter.
pub open spec fn run_patterns(run: Option<RelativePaths>) -> Seq<String> {
    match run {
        Some(paths) => paths.relatives@,
        None => Seq::empty(),
    }
}

/// Whether `r` is what becomes of the filter paths `run`.
pub open spec fn is_normalized_filter(
    r: Result<Option<Vec<String>>, McpError>,
    run: Option<RelativePaths>,
    facts: Seq<PatternFacts>,
) -> bool {
    match run {
        None => r == Ok::<Option<Vec<String>>, McpError>(None),
        Some(paths) => match r {
            Ok(Some(list)) => is_usable_paths(Ok(list), paths, facts, filter_root_message()),
            Ok(None) => false,
            Err(error) => is_usable_paths(Err(error), paths, facts, filter_root_message()),
        },
    }
}

/// The filter paths, where each one can be matched. `facts` is what the pattern
/// engine says of the paths of `run`, one by one.
pub fn normalize_filter_paths(run: Option<RelativePaths>, facts: &Vec<PatternFacts>) -> (r: Result<
    Option<Vec<String>>,
    McpError,
>)
    requires
        facts@.len() == run_patterns(run).len(),
    ensures
        is_normalized_filter(r, run, facts@),
{
    match run {
        None => Ok(None),
        Some(paths) => match usable_paths(
            paths,
            facts,
            "Cannot target the project root directory itself. Please use more specific patterns.",
        ) {
            Ok(list) => Ok(Some(list)),
            Err(error) => Err(error),
        },
    }
}

/// Whether one of `paths` is the pattern of `row`, or overlaps it.
pub open spec fn path_filter_matches(
    row: FileReservationRow,
    paths: Seq<String>,
    overlaps: Seq<bool>,
) -> bool {
    exists|k: int|
        #![trigger paths[k]]
        0 <= k < paths.len() && (row.path_pattern@ == paths[k]@ || overlaps[k])
}

/// Whether the reservation of `row` is one that the agent still holds and that
/// the filters pick. `overlaps` says of each of `paths` whether it overlaps the
/// pattern of `row`.
pub open spec fn is_picked(
    row: FileReservationRow,
    agent_id: i64,
    paths: Option<Vec<String>>,
    ids: Option<Vec<i64>>,
    overlaps: Seq<bool>,
) -> bool {
    &&& !is_released(row)
    &&& row.agent_id == agent_id
    &&& ids matches Some(list) ==> list@.contains(id_or_zero(row.id))
    &&& paths matches Some(list) ==> path_filter_matches(row, list@, overlaps)
}

/// The number of answers of the pattern engine that a filter needs for a row.
pub open spec fn filter_len(paths: Option<Vec<String>>) -> nat {
    match paths {
        Some(list) => list@.len(),
        None => 0,
    }
}

fn has_id(ids: &Vec<i64>, id: i64) -> (r: bool)
    ensures
        r == ids@.contains(id),
{
    let mut i: usize = 0;
    while i < ids.len()
        invariant
            i <= ids.len(),
            forall|k: int| 0 <= k < i ==> ids@[k] != id,
        decreases ids.len() - i,
    {
        if ids[i] == id {
            return true;
        }
        i = i + 1;
    }
    false
}

fn matches_path(row: &FileReservationRow, paths: &Vec<String>, overlaps: &Vec<bool>) -> (r: bool)
    requires
        overlaps@.len() == paths@.len(),
    ensures
        r == path_filter_matches(*row, paths@, overlaps@),
{
    let mut i: usize = 0;
    while i < paths.len()
        invariant
            i <= paths.len(),
            overlaps@.len() == paths@.len(),
            forall|k: int| 0 <= k < i ==> row.path_pattern@ != (#[trigger] paths@[k])@,
            forall|k: int| 0 <= k < i ==> !#[trigger] overlaps@[k],
        decreases paths.len() - i,
    {
        let same = same_text(row.path_pattern.as_str(), paths[i].as_str());
        let overlapping: bool = overlaps[i];
        if same || overlapping {
            return true;
        }
        i = i + 1;
    }
    false
}

/// Whether the reservation of `row` is one that the agent still holds and that
/// the filters pick.
pub fn renewal_filter_matches(
    row: &FileReservationRow,
    agent_id: i64,
    paths: &Option<Vec<String>>,
    ids: &Option<Vec<i64>>,
    overlaps: &Vec<bool>,
) -> (r: bool)
    requires
        overlaps@.len() == filter_len(*paths),
    ensures
        r == is_picked(*row, agent_id, *paths, *ids, overlaps@),
{
    if row_is_released(row) {
        return false;
    }
    if row.agent_id != agent_id {
        return false;
    }
    if let Some(list) = ids {
        if !has_id(list, row_id(row.id)) {
            return false;
        }
    }
    if let Some(list) = paths {
        if !matches_path(row, list, overlaps) {
            return false;
        }
    }
    true
}

/// Whether `overlaps` answers for each row and each filter path.
pub open spec fn answers_filter(
    overlaps: Seq<Vec<bool>>,
    rows: Seq<FileReservationRow>,
    paths: Option<Vec<String>>,
) -> bool {
    &&& overlaps.len() == rows.len()
    &&& forall|i: int|
        0 <= i < overlaps.len() ==> (#[trigger] overlaps[i])@.len() == filter_len(paths)
}

/// The ids of the rows that the filters pick, in order.
pub open spec fn picked_ids(
    rows: Seq<FileReservationRow>,
    agent_id: i64,
    paths: Option<Vec<String>>,
    ids: Option<Vec<i64>>,
    overlaps: Seq<Vec<bool>>,
) -> Seq<i64>
    decreases rows.len(),
{
    if rows.len() == 0 {
        Seq::empty()
    } else {
        let before = picked_ids(rows.drop_last(), agent_id, paths, ids, overlaps);
        let i = rows.len() - 1;
        if is_picked(rows[i], agent_id, paths, ids, overlaps[i]@) && rows[i].id is Some {
            before.push(rows[i].id->0)
        } else {
            before
        }
    }
}

/// The ids of the rows that the filters pick.
pub fn pick_ids(
    rows: &Vec<FileReservationRow>,
    agent_id: i64,
    paths: &Option<Vec<String>>,
    ids: &Option<Vec<i64>>,
    overlaps: &Vec<Vec<bool>>,
) -> (r: Vec<i64>)
    requires
        answers_filter(overlaps@, rows@, *paths),
    ensures
        r@ == picked_ids(rows@, agent_id, *paths, *ids, overlaps@),
{
    let mut out: Vec<i64> = Vec::new();
    let mut i: usize = 0;
    while i < rows.len()
        invariant
            i <= rows.len(),
            answers_filter(overlaps@, rows@, *paths),
            out@ == picked_ids(rows@.take(i as int), agent_id, *paths, *ids, overlaps@),
        decreases rows.len() - i,
    {
        proof {
            assert(rows@.take(i + 1).drop_last() =~= rows@.take(i as int));
            assert(overlaps@[i as int]@.len() == filter_len(*paths));
        }
        if renewal_filter_matches(&rows[i], agent_id, paths, ids, &overlaps[i]) {
            if let Some(id) = rows[i].id {
                out.push(id);
            }
        }
        i = i + 1;
    }
    proof {
        assert(rows@.take(rows.len() as int) =~= rows@);
    }
    out
}

/// When the reservations that the filters pick expire, by id. Of two rows with
/// one id the later counts.
pub open spec fn picked_expiries(
    rows: Seq<FileReservationRow>,
    agent_id: i64,
    paths: Option<Vec<String>>,
    ids: Option<Vec<i64>>,
    overlaps: Seq<Vec<bool>>,
) -> Map<i64, i64>
    decreases rows.len(),
{
    if rows.len() == 0 {
        Map::empty()
    } else {
        let before = picked_expiries(rows.drop_last(), agent_id, paths, ids, overlaps);
        let i = rows.len() - 1;
        if is_picked(rows[i], agent_id, paths, ids, overlaps[i]@) && rows[i].id is Some {
            before.insert(rows[i].id->0, rows[i].expires_ts.micros)
        } else {
            before
        }
    }
}

/// When the reservations that the filters pick expire, by id.
pub fn collect_previous_expiries(
    rows: &Vec<FileReservationRow>,
    agent_id: i64,
    paths: &Option<Vec<String>>,
    ids: &Option<Vec<i64>>,
    overlaps: &Vec<Vec<bool>>,
) -> (r: HashMap<i64, i64>)
    requires
        answers_filter(overlaps@, rows@, *paths),
    ensures
        r@ == picked_expiries(rows@, agent_id, *paths, *ids, overlaps@),
{
    broadcast use vstd::std_specs::hash::group_hash_axioms;

    let mut out: HashMap<i64, i64> = HashMap::new();
    let mut i: usize = 0;
    while i < rows.len()
        invariant
            i <= rows.len(),
            answers_filter(overlaps@, rows@, *paths),
            out@ == picked_expiries(rows@.take(i as int), agent_id, *paths, *ids, overlaps@),
        decreases rows.len() - i,
    {
        proof {
            assert(rows@.take(i + 1).drop_last() =~= rows@.take(i as int));
            assert(overlaps@[i as int]@.len() == filter_len(*paths));
        }
        if renewal_filter_matches(&rows[i], agent_id, paths, ids, &overlaps[i]) {
            if let Some(id) = rows[i].id {
                out.insert(id, rows[i].expires_ts.micros);
            }
        }
        i = i + 1;
    }
    proof {
        assert(rows@.take(rows.len() as int) =~= rows@);
    }
    out
}

/// Each id that the filters pick is that of a row that the agent still holds: no
/// filter reaches another agent's reservation, or one that was released.
pub proof fn picked_ids_are_held(
    rows: Seq<FileReservationRow>,
    agent_id: i64,
    paths: Option<Vec<String>>,
    ids: Option<Vec<i64>>,
    overlaps: Seq<Vec<bool>>,
)
    ensures
        forall|id: i64|
            #[trigger] picked_ids(rows, agent_id, paths, ids, overlaps).contains(id) ==> exists|
                k: int,
            |
                #![trigger rows[k]]
                {
                    &&& 0 <= k < rows.len()
                    &&& rows[k].id == Some(id)
                    &&& rows[k].agent_id == agent_id
                    &&& !is_released(rows[k])
                },
    decreases rows.len(),
{
    if rows.len() > 0 {
        let head = rows.drop_last();
        picked_ids_are_held(head, agent_id, paths, ids, overlaps);
        let before = picked_ids(head, agent_id, paths, ids, overlaps);
        let all = picked_ids(rows, agent_id, paths, ids, overlaps);
        assert forall|id: i64| #[trigger] all.contains(id) implies exists|k: int|
            #![trigger rows[k]]
            {
                &&& 0 <= k < rows.len()
                &&& rows[k].id == Some(id)
                &&& rows[k].agent_id == agent_id
                &&& !is_released(rows[k])
            } by {
            let n = choose|n: int| 0 <= n < all.len() && all[n] == id;
            if n < before.len() {
                assert(before[n] == id);
                assert(before.contains(id));
                let k = choose|k: int|
                    #![trigger head[k]]
                    {
                        &&& 0 <= k < head.len()
                        &&& head[k].id == Some(id)
                        &&& head[k].agent_id == agent_id
                        &&& !is_released(head[k])
                    };
                assert(rows[k] == head[k]);
            } else {
                assert(rows[rows.len() - 1].id == Some(id));
            }
        }
    }
}

/// Where the agent holds nothing any more, the filters pick nothing: a release
/// that is repeated releases nothing.
pub proof fn nothing_held_nothing_picked(
    rows: Seq<FileReservationRow>,
    agent_id: i64,
    paths: Option<Vec<String>>,
    ids: Option<Vec<i64>>,
    overlaps: Seq<Vec<bool>>,
)
    requires
        forall|k: int|
            0 <= k < rows.len() ==> (#[trigger] rows[k]).agent_id != agent_id || is_released(
                rows[k],
            ),
    ensures
        picked_ids(rows, agent_id, paths, ids, overlaps).len() == 0,
    decreases rows.len(),
{
    if rows.len() > 0 {
        let head = rows.drop_last();
        assert(forall|k: int| 0 <= k < head.len() ==> head[k] == #[trigger] rows[k]);
        nothing_held_nothing_picked(head, agent_id, paths, ids, overlaps);
        assert(rows[rows.len() - 1].agent_id != agent_id || is_released(rows[rows.len() - 1]));
    }
}

/// The ids whose expiry is collected are the ids that the filters pick.
pub proof fn expiries_are_of_picked_ids(
    rows: Seq<FileReservationRow>,
    agent_id: i64,
    paths: Option<Vec<String>>,
    ids: Option<Vec<i64>>,
    overlaps: Seq<Vec<bool>>,
)
    ensures
        forall|id: i64|
            picked_expiries(rows, agent_id, paths, ids, overlaps).contains_key(id)
                <==> #[trigger] picked_ids(rows, agent_id, paths, ids, overlaps).contains(id),
    decreases rows.len(),
{
    let all = picked_ids(rows, agent_id, paths, ids, overlaps);
    let expiries = picked_expiries(rows, agent_id, paths, ids, overlaps);
    if rows.len() > 0 {
        let head = rows.drop_last();
        let before = picked_ids(head, agent_id, paths, ids, overlaps);
        expiries_are_of_picked_ids(head, agent_id, paths, ids, overlaps);
        assert forall|id: i64| expiries.contains_key(id) <==> #[trigger] all.contains(id) by {
            if all.contains(id) {
                let n = choose|n: int| 0 <= n < all.len() && all[n] == id;
                if n < before.len() {
                    assert(before[n] == id);
                    assert(before.contains(id));
                }
            }
            if before.contains(id) {
                let n = choose|n: int| 0 <= n < before.len() && before[n] == id;
                assert(all[n] == id);
            }
            let last = rows[rows.len() - 1];
            if is_picked(last, agent_id, paths, ids, overlaps[rows.len() - 1]@) && last.id == Some(
                id,
            ) {
                assert(all[all.len() - 1] == id);
            }
        }
    }
}

} // verus!
