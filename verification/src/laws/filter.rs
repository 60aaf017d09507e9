//! Which reservations a release or a renewal is about: every one that the filters allow,
//! and no other.

use crate::archive::{id_or_zero, is_released, micros_of};
use crate::errors::is_tool_error;
use crate::filter::{
    first_invalid, first_invalid_is_first, is_normalized_filter, is_usable_paths, picked_expiries,
    picked_ids, run_patterns, PathStop, RelativePaths,
};
use crate::json::JsonTree;
use crate::laws::acquire::is_rising;
use crate::model::{FileReservationRow, McpError};
use crate::patterns::{invalidity, PatternFacts};
use vstd::prelude::*;

verus! {

/// A reservation is released where it has a time of release after the epoch.
pub proof fn release_is_told_by_its_time(row: FileReservationRow, id: Option<i64>)
    ensures
        is_released(row) <==> (row.released_ts matches Some(ts) && ts.micros > 0),
        id matches Some(n) ==> id_or_zero(id) == n,
        id is None ==> id_or_zero(id) == 0,
        micros_of(row.released_ts) is Some <==> row.released_ts is Some,
        row.released_ts matches Some(ts) ==> micros_of(row.released_ts) == Some(ts.micros),
{
}

/// Whether a reservation is one that a release or a renewal of the agent `me` is about:
/// it has an id, is the agent's and not released; its id is anywhere in the list of ids,
/// if there is one; and one of the paths is its pattern or overlaps it, if there are any.
pub open spec fn is_meant(
    row: FileReservationRow,
    me: i64,
    paths: Option<Vec<String>>,
    ids: Option<Vec<i64>>,
    overlaps: Seq<bool>,
) -> bool {
    &&& row.id is Some
    &&& row.agent_id == me
    &&& !(row.released_ts is Some && row.released_ts->0.micros > 0)
    &&& ids is Some ==> exists|n: int|
        0 <= n < ids->0@.len() && #[trigger] ids->0@[n] == row.id->0
    &&& paths is Some ==> exists|p: int|
        #![trigger paths->0@[p]]
        0 <= p < paths->0@.len() && (paths->0@[p]@ == row.path_pattern@ || overlaps[p])
}

/// Whether `at` are the positions of the reservations that are meant, all of them in
/// order, and `out` are their ids.
pub open spec fn picks_just(
    at: Seq<int>,
    out: Seq<i64>,
    rows: Seq<FileReservationRow>,
    me: i64,
    paths: Option<Vec<String>>,
    ids: Option<Vec<i64>>,
    overlaps: Seq<Vec<bool>>,
) -> bool {
    &&& at.len() == out.len()
    &&& is_rising(at)
    &&& forall|i: int|
        #![trigger at[i]]
        #![trigger out[i]]
        0 <= i < at.len() ==> {
            &&& 0 <= at[i] < rows.len()
            &&& is_meant(rows[at[i]], me, paths, ids, overlaps[at[i]]@)
            &&& rows[at[i]].id == Some(out[i])
        }
    &&& forall|k: int|
        0 <= k < rows.len() && #[trigger] is_meant(rows[k], me, paths, ids, overlaps[k]@)
            ==> at.contains(k)
}

/// The filters pick every reservation that is meant, in order, and no other. The result
/// gives their positions.
pub proof fn filters_pick_what_is_meant(
    rows: Seq<FileReservationRow>,
    me: i64,
    paths: Option<Vec<String>>,
    ids: Option<Vec<i64>>,
    overlaps: Seq<Vec<bool>>,
) -> (at: Seq<int>)
    ensures
        picks_just(at, picked_ids(rows, me, paths, ids, overlaps), rows, me, paths, ids, overlaps),
    decreases rows.len(),
{
    let out = picked_ids(rows, me, paths, ids, overlaps);
    if rows.len() == 0 {
        Seq::empty()
    } else {
        let head = rows.drop_last();
        let last = rows.len() - 1;
        let before = filters_pick_what_is_meant(head, me, paths, ids, overlaps);
        let row = rows[last];
        assert(rows.last() == row);
        release_is_told_by_its_time(row, row.id);
        let meant = is_meant(row, me, paths, ids, overlaps[last]@);
        assert(meant <==> crate::filter::is_picked(row, me, paths, ids, overlaps[last]@)
            && row.id is Some) by {
            if ids is Some && row.id is Some {
                if ids->0@.contains(row.id->0) {
                    let n = choose|n: int| 0 <= n < ids->0@.len() && ids->0@[n] == row.id->0;
                    assert(ids->0@[n] == row.id->0);
                }
            }
        }
        if meant {
            let at = before.push(last);
            assert(picks_just(at, out, rows, me, paths, ids, overlaps)) by {
                assert forall|k: int|
                    0 <= k < rows.len() && #[trigger] is_meant(
                        rows[k],
                        me,
                        paths,
                        ids,
                        overlaps[k]@,
                    ) implies at.contains(k) by {
                    if k < last {
                        assert(is_meant(head[k], me, paths, ids, overlaps[k]@));
                        let i = choose|i: int| 0 <= i < before.len() && before[i] == k;
                        assert(at[i] == k);
                    } else {
                        assert(at[before.len() as int] == k);
                    }
                }
                assert forall|i: int|
                    #![trigger at[i]]
                    #![trigger out[i]]
                    0 <= i < at.len() implies {
                    &&& 0 <= at[i] < rows.len()
                    &&& is_meant(rows[at[i]], me, paths, ids, overlaps[at[i]]@)
                    &&& rows[at[i]].id == Some(out[i])
                } by {
                    if i < before.len() {
                        assert(at[i] == before[i]);
                        assert(rows[before[i]] == head[before[i]]);
                    }
                }
            }
            at
        } else {
            assert(picks_just(before, out, rows, me, paths, ids, overlaps)) by {
                assert forall|k: int|
                    0 <= k < rows.len() && #[trigger] is_meant(
                        rows[k],
                        me,
                        paths,
                        ids,
                        overlaps[k]@,
                    ) implies before.contains(k) by {
                    assert(is_meant(head[k], me, paths, ids, overlaps[k]@));
                }
                assert forall|i: int|
                    #![trigger before[i]]
                    #![trigger out[i]]
                    0 <= i < before.len() implies {
                    &&& 0 <= before[i] < rows.len()
                    &&& is_meant(rows[before[i]], me, paths, ids, overlaps[before[i]]@)
                    &&& rows[before[i]].id == Some(out[i])
                } by {
                    let q = before[i];
                    assert(rows[q] == head[q]);
                }
            }
            before
        }
    }
}

/// Every reservation that the agent holds and whose id is anywhere in the list of ids is
/// picked, where no paths are given.
pub proof fn every_named_id_is_picked(
    rows: Seq<FileReservationRow>,
    me: i64,
    ids: Vec<i64>,
    overlaps: Seq<Vec<bool>>,
    k: int,
    n: int,
)
    requires
        0 <= k < rows.len(),
        0 <= n < ids@.len(),
        rows[k].id == Some(ids@[n]),
        rows[k].agent_id == me,
        rows[k].released_ts is None || rows[k].released_ts->0.micros <= 0,
    ensures
        picked_ids(rows, me, None, Some(ids), overlaps).contains(ids@[n]),
{
    let at = filters_pick_what_is_meant(rows, me, None, Some(ids), overlaps);
    let out = picked_ids(rows, me, None, Some(ids), overlaps);
    let list = Some(ids);
    assert(list->0@[n] == rows[k].id->0);
    assert(is_meant(rows[k], me, None, list, overlaps[k]@));
    let i = choose|i: int| 0 <= i < at.len() && at[i] == k;
    assert(rows[at[i]].id == Some(out[i]));
}

/// Every reservation that the agent holds and that one of the paths names or overlaps is
/// picked, whatever the other paths say, where the ids allow it.
pub proof fn every_overlapping_path_is_picked(
    rows: Seq<FileReservationRow>,
    me: i64,
    paths: Vec<String>,
    ids: Option<Vec<i64>>,
    overlaps: Seq<Vec<bool>>,
    k: int,
    p: int,
)
    requires
        0 <= k < rows.len(),
        0 <= p < paths@.len(),
        paths@[p]@ == rows[k].path_pattern@ || overlaps[k]@[p],
        rows[k].id is Some,
        rows[k].agent_id == me,
        rows[k].released_ts is None || rows[k].released_ts->0.micros <= 0,
        ids is Some ==> exists|n: int|
            0 <= n < ids->0@.len() && #[trigger] ids->0@[n] == rows[k].id->0,
    ensures
        picked_ids(rows, me, Some(paths), ids, overlaps).contains(rows[k].id->0),
{
    let list = Some(paths);
    let at = filters_pick_what_is_meant(rows, me, list, ids, overlaps);
    let out = picked_ids(rows, me, list, ids, overlaps);
    assert(list->0@[p]@ == paths@[p]@);
    assert(is_meant(rows[k], me, list, ids, overlaps[k]@));
    let i = choose|i: int| 0 <= i < at.len() && at[i] == k;
    assert(rows[at[i]].id == Some(out[i]));
}

/// A path or an id more in a filter never takes a reservation out of what is picked.
pub proof fn wider_filters_pick_no_less(
    rows: Seq<FileReservationRow>,
    me: i64,
    paths: Option<Vec<String>>,
    more_paths: Option<Vec<String>>,
    ids: Option<Vec<i64>>,
    more_ids: Option<Vec<i64>>,
    overlaps: Seq<Vec<bool>>,
    more_overlaps: Seq<Vec<bool>>,
    id: i64,
)
    requires
        more_paths is Some ==> paths is Some && paths->0@.is_prefix_of(more_paths->0@),
        more_ids is Some ==> ids is Some && ids->0@.is_prefix_of(more_ids->0@),
        forall|k: int, p: int|
            0 <= k < rows.len() && paths is Some && 0 <= p < paths->0@.len()
                ==> #[trigger] overlaps[k]@[p] == more_overlaps[k]@[p],
        picked_ids(rows, me, paths, ids, overlaps).contains(id),
    ensures
        picked_ids(rows, me, more_paths, more_ids, more_overlaps).contains(id),
{
    let at = filters_pick_what_is_meant(rows, me, paths, ids, overlaps);
    let out = picked_ids(rows, me, paths, ids, overlaps);
    let more_at = filters_pick_what_is_meant(rows, me, more_paths, more_ids, more_overlaps);
    let more_out = picked_ids(rows, me, more_paths, more_ids, more_overlaps);
    let i = choose|i: int| 0 <= i < out.len() && out[i] == id;
    let k = at[i];
    assert(rows[at[i]].id == Some(out[i]));
    assert(is_meant(rows[k], me, paths, ids, overlaps[k]@));
    if more_ids is Some {
        let n = choose|n: int| 0 <= n < ids->0@.len() && #[trigger] ids->0@[n] == rows[k].id->0;
        assert(more_ids->0@.subrange(0, ids->0@.len() as int)[n] == more_ids->0@[n]);
        assert(more_ids->0@[n] == rows[k].id->0);
    }
    if more_paths is Some {
        let row = overlaps[k]@;
        assert(exists|p: int|
            #![trigger paths->0@[p]]
            0 <= p < paths->0@.len() && (paths->0@[p]@ == rows[k].path_pattern@ || row[p]));
        let p = choose|p: int|
            #![trigger paths->0@[p]]
            0 <= p < paths->0@.len() && (paths->0@[p]@ == rows[k].path_pattern@ || row[p]);
        assert(more_paths->0@.subrange(0, paths->0@.len() as int)[p] == more_paths->0@[p]);
        assert(overlaps[k]@[p] == more_overlaps[k]@[p]);
        assert(more_paths->0@[p]@ == paths->0@[p]@);
    }
    assert(is_meant(rows[k], me, more_paths, more_ids, more_overlaps[k]@));
    let j = choose|j: int| 0 <= j < more_at.len() && more_at[j] == k;
    assert(rows[more_at[j]].id == Some(more_out[j]));
}

/// The expiry that is remembered of a reservation is that of the last row with its id
/// that is meant; and none is remembered of any other.
pub proof fn remembered_expiries_are_those_of_what_is_meant(
    rows: Seq<FileReservationRow>,
    me: i64,
    paths: Option<Vec<String>>,
    ids: Option<Vec<i64>>,
    overlaps: Seq<Vec<bool>>,
)
    ensures
        forall|k: int|
            0 <= k < rows.len() && #[trigger] is_meant(rows[k], me, paths, ids, overlaps[k]@)
                ==> picked_expiries(rows, me, paths, ids, overlaps).contains_key(rows[k].id->0),
        forall|id: i64| #[trigger]
            picked_expiries(rows, me, paths, ids, overlaps).contains_key(id) ==> exists|k: int|
                0 <= k < rows.len() && #[trigger] is_meant(
                    rows[k],
                    me,
                    paths,
                    ids,
                    overlaps[k]@,
                ) && rows[k].id == Some(id) && picked_expiries(rows, me, paths, ids, overlaps)[id]
                    == rows[k].expires_ts.micros && forall|q: int|
                    k < q < rows.len() && #[trigger] is_meant(
                        rows[q],
                        me,
                        paths,
                        ids,
                        overlaps[q]@,
                    ) ==> rows[q].id != Some(id),
    decreases rows.len(),
{
    let all = picked_expiries(rows, me, paths, ids, overlaps);
    if rows.len() > 0 {
        let head = rows.drop_last();
        let last = rows.len() - 1;
        let before = picked_expiries(head, me, paths, ids, overlaps);
        remembered_expiries_are_those_of_what_is_meant(head, me, paths, ids, overlaps);
        let row = rows[last];
        release_is_told_by_its_time(row, row.id);
        let meant = is_meant(row, me, paths, ids, overlaps[last]@);
        assert(meant <==> crate::filter::is_picked(row, me, paths, ids, overlaps[last]@)
            && row.id is Some) by {
            if ids is Some && row.id is Some {
                if ids->0@.contains(row.id->0) {
                    let n = choose|n: int| 0 <= n < ids->0@.len() && ids->0@[n] == row.id->0;
                    assert(ids->0@[n] == row.id->0);
                }
            }
        }
        assert forall|k: int|
            0 <= k < rows.len() && #[trigger] is_meant(
                rows[k],
                me,
                paths,
                ids,
                overlaps[k]@,
            ) implies all.contains_key(rows[k].id->0) by {
            if k < last {
                assert(is_meant(head[k], me, paths, ids, overlaps[k]@));
            }
        }
        assert forall|id: i64| #[trigger] all.contains_key(id) implies exists|k: int|
            0 <= k < rows.len() && #[trigger] is_meant(rows[k], me, paths, ids, overlaps[k]@)
                && rows[k].id == Some(id) && all[id] == rows[k].expires_ts.micros && forall|q: int|
                k < q < rows.len() && #[trigger] is_meant(rows[q], me, paths, ids, overlaps[q]@)
                    ==> rows[q].id != Some(id) by {
            if meant && row.id == Some(id) {
                assert(is_meant(rows[last], me, paths, ids, overlaps[last]@));
            } else {
                assert(before.contains_key(id));
                let k = choose|k: int|
                    0 <= k < head.len() && #[trigger] is_meant(
                        head[k],
                        me,
                        paths,
                        ids,
                        overlaps[k]@,
                    ) && head[k].id == Some(id) && before[id] == head[k].expires_ts.micros
                        && forall|q: int|
                        k < q < head.len() && #[trigger] is_meant(
                            head[q],
                            me,
                            paths,
                            ids,
                            overlaps[q]@,
                        ) ==> head[q].id != Some(id);
                assert(is_meant(rows[k], me, paths, ids, overlaps[k]@));
                assert forall|q: int|
                    k < q < rows.len() && #[trigger] is_meant(
                        rows[q],
                        me,
                        paths,
                        ids,
                        overlaps[q]@,
                    ) implies rows[q].id != Some(id) by {
                    if q < last {
                        assert(is_meant(head[q], me, paths, ids, overlaps[q]@));
                    }
                }
            }
        }
    }
}

/// The paths of a request are used where every one can be: none of them is invalid, and
/// none leads out of the project or is the project. Else the first one that cannot
/// decides, and the error says why.
pub proof fn paths_are_used_where_all_can_be(
    r: Result<Vec<String>, McpError>,
    run: RelativePaths,
    facts: Seq<PatternFacts>,
    root_message: Seq<char>,
)
    requires
        is_usable_paths(r, run, facts, root_message),
    ensures
        r is Ok <==> run.stop is None && forall|k: int|
            0 <= k < run.relatives@.len() ==> invalidity(
                (#[trigger] run.relatives@[k])@,
                facts[k],
            ) is None,
        r is Ok ==> r->Ok_0 == run.relatives,
        forall|k: int|
            #![trigger run.relatives@[k]]
            0 <= k < run.relatives@.len() && invalidity(run.relatives@[k]@, facts[k]) is Some && (
            forall|q: int|
                0 <= q < k ==> invalidity((#[trigger] run.relatives@[q])@, facts[q]) is None)
                ==> is_tool_error(
                r->Err_0,
                "INVALID_PATH"@,
                invalidity(run.relatives@[k]@, facts[k])->0,
                true,
                JsonTree::Object(map!["reason"@ => JsonTree::Text("invalid_pattern"@)]),
            ),
        (forall|k: int|
            0 <= k < run.relatives@.len() ==> invalidity(
                (#[trigger] run.relatives@[k])@,
                facts[k],
            ) is None) && run.stop == Some(PathStop::Outside) ==> is_tool_error(
            r->Err_0,
            "INVALID_PATH"@,
            "Path is outside the project root. File reservations must be within the project directory."@,
            true,
            JsonTree::Object(map!["reason"@ => JsonTree::Text("path_outside_project"@)]),
        ),
        (forall|k: int|
            0 <= k < run.relatives@.len() ==> invalidity(
                (#[trigger] run.relatives@[k])@,
                facts[k],
            ) is None) && run.stop == Some(PathStop::ProjectRoot) ==> is_tool_error(
            r->Err_0,
            "INVALID_PATH"@,
            root_message,
            true,
            JsonTree::Object(map!["reason"@ => JsonTree::Text("targets_project_root"@)]),
        ),
{
    first_invalid_is_first(run.relatives@, facts);
    assert forall|k: int|
        #![trigger run.relatives@[k]]
        0 <= k < run.relatives@.len() && invalidity(run.relatives@[k]@, facts[k]) is Some && (
        forall|q: int|
            0 <= q < k ==> invalidity((#[trigger] run.relatives@[q])@, facts[q]) is None) implies
        is_tool_error(
        r->Err_0,
        "INVALID_PATH"@,
        invalidity(run.relatives@[k]@, facts[k])->0,
        true,
        JsonTree::Object(map!["reason"@ => JsonTree::Text("invalid_pattern"@)]),
    ) by {
        let i = first_invalid(run.relatives@, facts)->0;
        assert(invalidity(run.relatives@[i]@, facts[i]) is Some);
        if i < k {
            assert(invalidity(run.relatives@[i]@, facts[i]) is None);
        }
        assert(i == k);
    }
}

/// Filter paths that are not given filter nothing; those that are given are used where
/// every one can be.
pub proof fn filter_is_used_where_given(
    r: Result<Option<Vec<String>>, McpError>,
    run: Option<RelativePaths>,
    facts: Seq<PatternFacts>,
)
    requires
        is_normalized_filter(r, run, facts),
    ensures
        run is None ==> r == Ok::<Option<Vec<String>>, McpError>(None),
        run matches Some(paths) ==> {
            &&& r matches Ok(list) ==> list == Some(paths.relatives) && paths.stop is None
            &&& r is Ok <==> paths.stop is None && forall|k: int|
                0 <= k < paths.relatives@.len() ==> invalidity(
                    (#[trigger] paths.relatives@[k])@,
                    facts[k],
                ) is None
            &&& r matches Err(error) ==> is_usable_paths(
                Err(error),
                paths,
                facts,
                "Cannot target the project root directory itself. Please use more specific patterns."@,
            )
            &&& run_patterns(run) == paths.relatives@
        },
        run is None ==> run_patterns(run).len() == 0,
{
    if let Some(paths) = run {
        let message =
            "Cannot target the project root directory itself. Please use more specific patterns."@;
        match r {
            Ok(Some(list)) => {
                paths_are_used_where_all_can_be(Ok(list), paths, facts, message);
            },
            Ok(None) => {},
            Err(error) => {
                paths_are_used_where_all_can_be(Err(error), paths, facts, message);
            },
        }
    }
}

} // verus!
