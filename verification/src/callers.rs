//! How the answer to a conflict check depends on who asks.

use crate::conflict::{
    answer_for, answers_match, distinct_names_each_once, first_unverifiable, is_callers,
    is_check_answer, is_match_verdict, is_ordered, lease_before, lease_order_asymmetric,
    lease_order_total, lease_order_transitive, listed_holder, name_of, others, overlapping,
    overlapping_is_complete, placed, same_lease, verified_others, ConflictMatch, ConflictScan,
    SnapshotReservation,
};
use crate::model::{
    conflict_views, ConflictView, HolderView, McpError, ReservationConflictCheckResponse,
};
use crate::patterns::PatternFacts;
use crate::text::texts;
use vstd::prelude::*;

verus! {

/// The list of reservations `list`, which is in order, with `item` in its place; a
/// second reservation of one agent on one pattern is left out.
pub open spec fn lease_placed(
    list: Seq<SnapshotReservation>,
    item: SnapshotReservation,
) -> Seq<SnapshotReservation>
    decreases list.len(),
{
    if list.len() == 0 {
        seq![item]
    } else if lease_before(list[0], item) {
        seq![list[0]] + lease_placed(list.drop_first(), item)
    } else if same_lease(list[0], item) {
        list
    } else {
        seq![item] + list
    }
}

/// Those of `reservations` that `hit` holds of, by pattern and then by agent, the first
/// of each agent on each pattern.
pub open spec fn leases_of(
    reservations: Seq<SnapshotReservation>,
    hit: spec_fn(SnapshotReservation) -> bool,
) -> Seq<SnapshotReservation>
    decreases reservations.len(),
{
    if reservations.len() == 0 {
        Seq::empty()
    } else {
        let before = leases_of(reservations.drop_last(), hit);
        if hit(reservations.last()) {
            lease_placed(before, reservations.last())
        } else {
            before
        }
    }
}

/// How the holder of `reservation`, one of `reservations`, is listed.
pub open spec fn lease_view(
    reservations: Seq<SnapshotReservation>,
    reservation: SnapshotReservation,
) -> HolderView {
    HolderView {
        agent: name_of(reservations, reservation.agent_id)->0,
        path_pattern: reservation.path_pattern@,
        exclusive: true,
        expires_ts: reservation.expires_ts.iso@,
    }
}

/// How the holders of `leases`, which are of `reservations`, are listed.
pub open spec fn lease_views(
    reservations: Seq<SnapshotReservation>,
    leases: Seq<SnapshotReservation>,
) -> Seq<HolderView> {
    leases.map_values(|lease: SnapshotReservation| lease_view(reservations, lease))
}

/// Whether a reservation overlaps `path`, as `overlap` says it of two patterns.
pub open spec fn hits(
    path: Seq<char>,
    overlap: spec_fn(Seq<char>, Seq<char>) -> bool,
) -> spec_fn(SnapshotReservation) -> bool {
    |reservation: SnapshotReservation| overlap(path, reservation.path_pattern@)
}

/// Whether `overlaps` says of each of `paths` and each of `holders` what `overlap` says
/// of their patterns.
pub open spec fn is_table(
    overlaps: Seq<Vec<bool>>,
    paths: Seq<String>,
    holders: Seq<SnapshotReservation>,
    overlap: spec_fn(Seq<char>, Seq<char>) -> bool,
) -> bool {
    &&& answers_match(overlaps, paths, holders)
    &&& forall|i: int, k: int|
        0 <= i < paths.len() && 0 <= k < holders.len() ==> #[trigger] overlaps[i]@[k] == overlap(
            paths[i]@,
            holders[k].path_pattern@,
        )
}

/// Whether `response` lists just `holders` for `path`: it is clear where there are
/// none, and else in conflict with these.
pub open spec fn lists_for(
    response: ReservationConflictCheckResponse,
    path: Seq<char>,
    holders: Seq<HolderView>,
) -> bool {
    let conflicts = conflict_views(response.conflicts@);
    &&& texts(response.clear_paths@).contains(path) <==> holders.len() == 0
    &&& holders.len() > 0 <==> exists|j: int|
        0 <= j < conflicts.len() && (#[trigger] conflicts[j]).path == path
    &&& forall|j: int|
        0 <= j < conflicts.len() && (#[trigger] conflicts[j]).path == path ==> conflicts[j].holders
            == holders
}

/// Whether two checks are of the same paths against the same reservations, whoever
/// asks.
pub open spec fn same_but_for_caller(a: ConflictScan, b: ConflictScan) -> bool {
    &&& a.run.relatives@ == b.run.relatives@
    &&& a.run.stop == b.run.stop
    &&& a.snapshot.reservations@ == b.snapshot.reservations@
}

proof fn placed_by_value(holders: Seq<SnapshotReservation>, list: Seq<usize>, k: usize)
    ensures
        placed(holders, list, k).map_values(|i: usize| holders[i as int]) == lease_placed(
            list.map_values(|i: usize| holders[i as int]),
            holders[k as int],
        ),
    decreases list.len(),
{
    let at = |i: usize| holders[i as int];
    let values = list.map_values(at);
    let out = placed(holders, list, k).map_values(at);
    if list.len() == 0 {
        assert(out =~= seq![holders[k as int]]);
    } else if lease_before(holders[list[0] as int], holders[k as int]) {
        let rest = list.drop_first();
        placed_by_value(holders, rest, k);
        assert(values.drop_first() =~= rest.map_values(at));
        assert(out =~= seq![values[0]] + placed(holders, rest, k).map_values(at));
    } else if same_lease(holders[list[0] as int], holders[k as int]) {
        assert(out =~= values);
    } else {
        assert(out =~= seq![holders[k as int]] + values);
    }
}

proof fn overlapping_by_value(
    holders: Seq<SnapshotReservation>,
    row: Seq<bool>,
    hit: spec_fn(SnapshotReservation) -> bool,
)
    requires
        row.len() <= holders.len() <= usize::MAX,
        forall|k: int| 0 <= k < row.len() ==> #[trigger] row[k] == hit(holders[k]),
    ensures
        overlapping(holders, row).map_values(|i: usize| holders[i as int]) == leases_of(
            holders.take(row.len() as int),
            hit,
        ),
    decreases row.len(),
{
    let at = |i: usize| holders[i as int];
    let part = holders.take(row.len() as int);
    if row.len() == 0 {
        assert(overlapping(holders, row).map_values(at) =~= Seq::empty());
    } else {
        let head = row.drop_last();
        assert forall|k: int| 0 <= k < head.len() implies #[trigger] head[k] == hit(
            holders[k],
        ) by {
            assert(row[k] == hit(holders[k]));
        }
        overlapping_by_value(holders, head, hit);
        assert(part.drop_last() =~= holders.take(head.len() as int));
        assert(row[row.len() - 1] == hit(holders[row.len() - 1]));
        if row.last() {
            placed_by_value(holders, overlapping(holders, head), (row.len() - 1) as usize);
        }
    }
}

spec fn is_ordered_list(list: Seq<SnapshotReservation>) -> bool {
    forall|i: int, j: int|
        0 <= i < j < list.len() ==> lease_before(#[trigger] list[i], #[trigger] list[j])
}

proof fn leases_are_ordered(
    reservations: Seq<SnapshotReservation>,
    hit: spec_fn(SnapshotReservation) -> bool,
)
    requires
        reservations.len() <= usize::MAX,
    ensures
        is_ordered_list(leases_of(reservations, hit)),
{
    let row = Seq::new(reservations.len(), |k: int| hit(reservations[k]));
    let refs = overlapping(reservations, row);
    overlapping_by_value(reservations, row, hit);
    overlapping_is_complete(reservations, row);
    assert(reservations.take(row.len() as int) =~= reservations);
    let list = leases_of(reservations, hit);
    assert(list == refs.map_values(|i: usize| reservations[i as int]));
    assert forall|i: int, j: int| 0 <= i < j < list.len() implies lease_before(
        #[trigger] list[i],
        #[trigger] list[j],
    ) by {
        assert(is_ordered(reservations, refs));
        assert(list[i] == reservations[refs[i] as int]);
        assert(list[j] == reservations[refs[j] as int]);
    }
}

proof fn filter_of_first(
    item: SnapshotReservation,
    rest: Seq<SnapshotReservation>,
    keep: spec_fn(SnapshotReservation) -> bool,
)
    ensures
        (seq![item] + rest).filter(keep) == (if keep(item) {
            seq![item]
        } else {
            Seq::empty()
        }) + rest.filter(keep),
{
    Seq::filter_distributes_over_add(seq![item], rest, keep);
    reveal(Seq::filter);
    let one = seq![item];
    assert(one.drop_last() =~= Seq::empty());
    assert(one.drop_last().filter(keep) =~= Seq::empty());
    assert(one.filter(keep) =~= if keep(item) {
        seq![item]
    } else {
        Seq::empty()
    });
}

proof fn placed_after_filter(
    list: Seq<SnapshotReservation>,
    item: SnapshotReservation,
    keep: spec_fn(SnapshotReservation) -> bool,
)
    requires
        is_ordered_list(list),
        forall|a: SnapshotReservation, b: SnapshotReservation|
            #[trigger] same_lease(a, b) ==> keep(a) == keep(b),
    ensures
        lease_placed(list, item).filter(keep) == (if keep(item) {
            lease_placed(list.filter(keep), item)
        } else {
            list.filter(keep)
        }),
    decreases list.len(),
{
    let kept = list.filter(keep);
    if list.len() == 0 {
        reveal(Seq::filter);
        filter_of_first(item, Seq::empty(), keep);
        assert(seq![item] + Seq::<SnapshotReservation>::empty() =~= seq![item]);
        assert(kept =~= Seq::empty());
        assert(lease_placed(list, item).filter(keep) =~= if keep(item) {
            seq![item]
        } else {
            Seq::empty()
        });
    } else {
        let first = list[0];
        let rest = list.drop_first();
        assert(list =~= seq![first] + rest);
        filter_of_first(first, rest, keep);
        assert(is_ordered_list(rest)) by {
            assert forall|i: int, j: int| 0 <= i < j < rest.len() implies lease_before(
                #[trigger] rest[i],
                #[trigger] rest[j],
            ) by {
                assert(rest[i] == list[i + 1] && rest[j] == list[j + 1]);
            }
        }
        if lease_before(first, item) {
            placed_after_filter(rest, item, keep);
            filter_of_first(first, lease_placed(rest, item), keep);
            if keep(first) {
                assert(kept.drop_first() =~= rest.filter(keep));
                assert(kept[0] == first);
                if keep(item) {
                    assert(lease_placed(kept, item) =~= seq![first] + lease_placed(
                        rest.filter(keep),
                        item,
                    ));
                }
            } else {
                assert(kept =~= rest.filter(keep));
                assert(lease_placed(list, item).filter(keep) =~= lease_placed(rest, item).filter(
                    keep,
                ));
            }
        } else if same_lease(first, item) {
            assert(keep(first) == keep(item));
            if keep(first) {
                assert(kept[0] == first);
                assert(lease_placed(kept, item) == kept);
            }
        } else {
            lease_order_total(first, item);
            filter_of_first(item, list, keep);
            if keep(item) {
                if kept.len() > 0 {
                    assert(kept.contains(kept[0]));
                    list.lemma_filter_contains_rev(keep, kept[0]);
                    let n = choose|n: int| 0 <= n < list.len() && list[n] == kept[0];
                    if n > 0 {
                        assert(lease_before(list[0], list[n]));
                        lease_order_transitive(item, first, kept[0]);
                    }
                    lease_order_asymmetric(item, kept[0]);
                }
                assert(lease_placed(kept, item) =~= seq![item] + kept);
            } else {
                assert(lease_placed(list, item).filter(keep) =~= kept);
            }
        }
    }
}

proof fn leases_after_filter(
    reservations: Seq<SnapshotReservation>,
    hit: spec_fn(SnapshotReservation) -> bool,
    keep: spec_fn(SnapshotReservation) -> bool,
)
    requires
        reservations.len() <= usize::MAX,
        forall|a: SnapshotReservation, b: SnapshotReservation|
            #[trigger] same_lease(a, b) ==> keep(a) == keep(b),
    ensures
        leases_of(reservations.filter(keep), hit) == leases_of(reservations, hit).filter(keep),
    decreases reservations.len(),
{
    reveal(Seq::filter);
    if reservations.len() == 0 {
        assert(leases_of(reservations, hit).filter(keep) =~= Seq::empty());
    } else {
        let head = reservations.drop_last();
        let last = reservations.last();
        let kept = head.filter(keep);
        leases_after_filter(head, hit, keep);
        leases_are_ordered(head, hit);
        if hit(last) {
            placed_after_filter(leases_of(head, hit), last, keep);
        }
        if keep(last) {
            assert(kept.push(last).drop_last() =~= kept);
            assert(reservations.filter(keep) == kept.push(last));
        }
    }
}

proof fn others_keep_names(reservations: Seq<SnapshotReservation>, caller: i64, agent_id: i64)
    requires
        agent_id != caller,
    ensures
        name_of(others(reservations, Some(caller)), agent_id) == name_of(reservations, agent_id),
    decreases reservations.len(),
{
    reveal(Seq::filter);
    if reservations.len() > 0 {
        let head = reservations.drop_last();
        let last = reservations.last();
        others_keep_names(head, caller, agent_id);
        let kept = others(head, Some(caller));
        if !is_callers(last, Some(caller)) {
            assert(kept.push(last).drop_last() =~= kept);
        }
    }
}

spec fn is_clear_row(
    paths: Seq<String>,
    holders: Seq<SnapshotReservation>,
    overlaps: Seq<Vec<bool>>,
    i: int,
    path: Seq<char>,
) -> bool {
    paths[i]@ == path && overlapping(holders, overlaps[i]@).len() == 0
}

spec fn is_conflict_row(
    paths: Seq<String>,
    holders: Seq<SnapshotReservation>,
    overlaps: Seq<Vec<bool>>,
    i: int,
    conflict: ConflictView,
    truncated: bool,
) -> bool {
    let refs = overlapping(holders, overlaps[i]@);
    &&& paths[i]@ == conflict.path
    &&& refs.len() > 0
    &&& !truncated ==> conflict.holders == refs.map_values(|k: usize| listed_holder(holders, k))
}

spec fn is_held_row(holders: Seq<SnapshotReservation>, overlaps: Seq<Vec<bool>>, i: int) -> bool {
    overlapping(holders, overlaps[i]@).len() > 0
}

spec fn is_in_conflict(conflicts: Seq<ConflictView>, path: Seq<char>) -> bool {
    exists|j: int| 0 <= j < conflicts.len() && (#[trigger] conflicts[j]).path == path
}

spec fn is_of_a_row(
    paths: Seq<String>,
    holders: Seq<SnapshotReservation>,
    overlaps: Seq<Vec<bool>>,
    n: int,
    conflict: ConflictView,
    truncated: bool,
) -> bool {
    exists|i: int|
        0 <= i < n && #[trigger] is_conflict_row(paths, holders, overlaps, i, conflict, truncated)
}

proof fn answer_lists_clear(
    paths: Seq<String>,
    holders: Seq<SnapshotReservation>,
    overlaps: Seq<Vec<bool>>,
    n: int,
)
    ensures
        ({
            let clear = answer_for(paths, holders, overlaps, n).clear;
            &&& forall|i: int, path: Seq<char>|
                0 <= i < n && #[trigger] is_clear_row(paths, holders, overlaps, i, path)
                    ==> clear.contains(path)
            &&& forall|path: Seq<char>| #[trigger]
                clear.contains(path) ==> exists|i: int|
                    0 <= i < n && #[trigger] is_clear_row(paths, holders, overlaps, i, path)
        }),
    decreases n,
{
    let clear = answer_for(paths, holders, overlaps, n).clear;
    if n > 0 {
        answer_lists_clear(paths, holders, overlaps, n - 1);
        let before = answer_for(paths, holders, overlaps, n - 1).clear;
        let last = paths[n - 1]@;
        let added = overlapping(holders, overlaps[n - 1]@).len() == 0;
        assert(clear == if added {
            before.push(last)
        } else {
            before
        });
        if added {
            assert(clear[clear.len() - 1] == last);
            assert(is_clear_row(paths, holders, overlaps, n - 1, last));
        }
        assert forall|i: int, path: Seq<char>|
            0 <= i < n && #[trigger] is_clear_row(
                paths,
                holders,
                overlaps,
                i,
                path,
            ) implies clear.contains(path) by {
            if i < n - 1 {
                assert(before.contains(path));
                let m = choose|m: int| 0 <= m < before.len() && before[m] == path;
                assert(clear[m] == path);
            }
        }
        assert forall|path: Seq<char>| #[trigger] clear.contains(path) implies exists|i: int|
            0 <= i < n && #[trigger] is_clear_row(paths, holders, overlaps, i, path) by {
            let m = choose|m: int| 0 <= m < clear.len() && clear[m] == path;
            if m < before.len() {
                assert(before[m] == path);
                assert(before.contains(path));
            }
        }
    }
}

proof fn answer_lists_conflicts(
    paths: Seq<String>,
    holders: Seq<SnapshotReservation>,
    overlaps: Seq<Vec<bool>>,
    n: int,
)
    ensures
        ({
            let answer = answer_for(paths, holders, overlaps, n);
            &&& forall|i: int|
                0 <= i < n && #[trigger] is_held_row(holders, overlaps, i) ==> is_in_conflict(
                    answer.conflicts,
                    paths[i]@,
                )
            &&& forall|j: int|
                0 <= j < answer.conflicts.len() ==> is_of_a_row(
                    paths,
                    holders,
                    overlaps,
                    n,
                    #[trigger] answer.conflicts[j],
                    answer.truncated,
                )
        }),
    decreases n,
{
    let answer = answer_for(paths, holders, overlaps, n);
    if n > 0 {
        answer_lists_conflicts(paths, holders, overlaps, n - 1);
        let before = answer_for(paths, holders, overlaps, n - 1);
        let refs = overlapping(holders, overlaps[n - 1]@);
        let last = answer.conflicts.len() - 1;
        assert(!answer.truncated ==> !before.truncated);
        if refs.len() > 0 {
            assert(answer.conflicts.len() == before.conflicts.len() + 1);
            assert(answer.conflicts[last].path == paths[n - 1]@);
            if !answer.truncated {
                assert(refs.take(refs.len() as int) =~= refs);
            }
            assert(is_conflict_row(
                paths,
                holders,
                overlaps,
                n - 1,
                answer.conflicts[last],
                answer.truncated,
            ));
        } else {
            assert(answer.conflicts == before.conflicts);
        }
        assert forall|i: int| 0 <= i < n && #[trigger] is_held_row(
            holders,
            overlaps,
            i,
        ) implies is_in_conflict(answer.conflicts, paths[i]@) by {
            if i < n - 1 {
                assert(is_in_conflict(before.conflicts, paths[i]@));
                let j = choose|j: int|
                    0 <= j < before.conflicts.len() && (#[trigger] before.conflicts[j]).path
                        == paths[i]@;
                assert(answer.conflicts[j] == before.conflicts[j]);
            }
        }
        assert forall|j: int| 0 <= j < answer.conflicts.len() implies is_of_a_row(
            paths,
            holders,
            overlaps,
            n,
            #[trigger] answer.conflicts[j],
            answer.truncated,
        ) by {
            if j < before.conflicts.len() {
                let conflict = before.conflicts[j];
                assert(answer.conflicts[j] == conflict);
                assert(is_of_a_row(paths, holders, overlaps, n - 1, conflict, before.truncated));
                let i = choose|i: int|
                    0 <= i < n - 1 && #[trigger] is_conflict_row(
                        paths,
                        holders,
                        overlaps,
                        i,
                        before.conflicts[j],
                        before.truncated,
                    );
                assert(is_conflict_row(
                    paths,
                    holders,
                    overlaps,
                    i,
                    answer.conflicts[j],
                    answer.truncated,
                ));
            }
        }
    }
}

proof fn fewer_holders_fit(
    all_paths: Seq<String>,
    all: Seq<SnapshotReservation>,
    all_overlaps: Seq<Vec<bool>>,
    some_paths: Seq<String>,
    some: Seq<SnapshotReservation>,
    some_overlaps: Seq<Vec<bool>>,
    n: int,
)
    requires
        !answer_for(all_paths, all, all_overlaps, n).truncated,
        forall|i: int|
            #![trigger all_overlaps[i]]
            0 <= i < n ==> overlapping(some, some_overlaps[i]@).len() <= overlapping(
                all,
                all_overlaps[i]@,
            ).len(),
    ensures
        !answer_for(some_paths, some, some_overlaps, n).truncated,
        answer_for(some_paths, some, some_overlaps, n).emitted <= answer_for(
            all_paths,
            all,
            all_overlaps,
            n,
        ).emitted,
    decreases n,
{
    if n > 0 {
        fewer_holders_fit(
            all_paths,
            all,
            all_overlaps,
            some_paths,
            some,
            some_overlaps,
            n - 1,
        );
        assert(overlapping(some, some_overlaps[n - 1]@).len() <= overlapping(
            all,
            all_overlaps[n - 1]@,
        ).len());
    }
}

proof fn more_is_verifiable(
    reservations: Seq<SnapshotReservation>,
    facts: Seq<PatternFacts>,
    caller: Option<i64>,
)
    requires
        first_unverifiable(reservations, facts, None) is None,
    ensures
        first_unverifiable(reservations, facts, caller) is None,
    decreases reservations.len(),
{
    if reservations.len() > 0 {
        more_is_verifiable(reservations.drop_last(), facts, caller);
    }
}

/// A check that no pattern ends for an anonymous caller is ended by none for a named
/// one either.
pub proof fn named_check_goes_on(
    all: ConflictMatch,
    anonymous: ConflictScan,
    r: Result<ConflictMatch, McpError>,
    named: ConflictScan,
    facts: Seq<PatternFacts>,
    held: Seq<PatternFacts>,
)
    requires
        same_but_for_caller(anonymous, named),
        anonymous.snapshot.caller_agent_id is None,
        is_match_verdict(Ok(all), anonymous, facts, held),
        is_match_verdict(r, named, facts, held),
    ensures
        r is Ok,
{
    more_is_verifiable(
        anonymous.snapshot.reservations@,
        held,
        named.snapshot.caller_agent_id,
    );
}

proof fn row_lists_leases(
    matching: ConflictMatch,
    overlaps: Seq<Vec<bool>>,
    overlap: spec_fn(Seq<char>, Seq<char>) -> bool,
    i: int,
)
    requires
        is_table(overlaps, matching.paths@, matching.holders@, overlap),
        0 <= i < matching.paths@.len(),
    ensures
        ({
            let refs = overlapping(matching.holders@, overlaps[i]@);
            let leases = leases_of(matching.holders@, hits(matching.paths@[i]@, overlap));
            &&& refs.len() == leases.len()
            &&& refs.map_values(|k: usize| listed_holder(matching.holders@, k)) == lease_views(
                matching.holders@,
                leases,
            )
        }),
{
    let holders = matching.holders@;
    let row = overlaps[i]@;
    let hit = hits(matching.paths@[i]@, overlap);
    let refs = overlapping(holders, row);
    let leases = leases_of(holders, hit);
    assert(holders.len() == matching.holders.len());
    assert(row.len() == holders.len());
    assert forall|k: int| 0 <= k < row.len() implies #[trigger] row[k] == hit(holders[k]) by {
        assert(overlaps[i]@[k] == overlap(matching.paths@[i]@, holders[k].path_pattern@));
    }
    overlapping_by_value(holders, row, hit);
    assert(holders.take(row.len() as int) =~= holders);
    let values = refs.map_values(|k: usize| holders[k as int]);
    assert(values == leases);
    assert(refs.map_values(|k: usize| listed_holder(holders, k)) =~= lease_views(
        holders,
        leases,
    )) by {
        assert forall|j: int| 0 <= j < refs.len() implies listed_holder(holders, refs[j])
            == lease_view(holders, leases[j]) by {
            assert(leases[j] == values[j]);
        }
    }
}

proof fn untruncated_answer_lists_leases(
    response: ReservationConflictCheckResponse,
    matching: ConflictMatch,
    overlaps: Seq<Vec<bool>>,
    overlap: spec_fn(Seq<char>, Seq<char>) -> bool,
    i: int,
)
    requires
        is_check_answer(response, matching, overlaps),
        is_table(overlaps, matching.paths@, matching.holders@, overlap),
        texts(matching.paths@).no_duplicates(),
        !response.output_truncated,
        0 <= i < matching.paths@.len(),
    ensures
        lists_for(
            response,
            matching.paths@[i]@,
            lease_views(
                matching.holders@,
                leases_of(matching.holders@, hits(matching.paths@[i]@, overlap)),
            ),
        ),
{
    let paths = matching.paths@;
    let holders = matching.holders@;
    let n = paths.len() as int;
    let path = paths[i]@;
    let answer = answer_for(paths, holders, overlaps, n);
    let listed = lease_views(holders, leases_of(holders, hits(path, overlap)));
    let conflicts = conflict_views(response.conflicts@);
    answer_lists_clear(paths, holders, overlaps, n);
    answer_lists_conflicts(paths, holders, overlaps, n);
    row_lists_leases(matching, overlaps, overlap, i);
    assert(overlapping(holders, overlaps[i]@).len() == listed.len());
    if texts(response.clear_paths@).contains(path) {
        assert(answer.clear.contains(path));
        let k = choose|k: int|
            0 <= k < n && #[trigger] is_clear_row(paths, holders, overlaps, k, path);
        assert(texts(paths)[k] == texts(paths)[i]);
        assert(k == i);
    }
    if listed.len() == 0 {
        assert(is_clear_row(paths, holders, overlaps, i, path));
    }
    assert forall|j: int| 0 <= j < conflicts.len() && (#[trigger] conflicts[j]).path
        == path implies conflicts[j].holders == listed && listed.len() > 0 by {
        assert(answer.conflicts[j] == conflicts[j]);
        assert(is_of_a_row(paths, holders, overlaps, n, answer.conflicts[j], answer.truncated));
        let k = choose|k: int|
            0 <= k < n && #[trigger] is_conflict_row(
                paths,
                holders,
                overlaps,
                k,
                answer.conflicts[j],
                answer.truncated,
            );
        assert(texts(paths)[k] == texts(paths)[i]);
        assert(k == i);
    }
    if listed.len() > 0 {
        assert(is_held_row(holders, overlaps, i));
        assert(is_in_conflict(answer.conflicts, path));
        let j = choose|j: int|
            0 <= j < answer.conflicts.len() && (#[trigger] answer.conflicts[j]).path == path;
        assert(conflicts[j].path == path);
    }
}

/// One check of the same paths against the same reservations, answered to an anonymous
/// caller and to a named one: the named one is told of the same number of paths; each
/// path that is clear for the anonymous caller is clear for the named one; and where
/// the anonymous caller is told of every holder, so is the named one, of the same ones
/// in the same order without the leases of its own. Whether two patterns overlap is
/// what `overlap` says, for both.
pub proof fn named_check_leaves_out_only_own_leases(
    anonymous: ConflictScan,
    all: ConflictMatch,
    all_overlaps: Seq<Vec<bool>>,
    all_response: ReservationConflictCheckResponse,
    named: ConflictScan,
    rest: ConflictMatch,
    rest_overlaps: Seq<Vec<bool>>,
    rest_response: ReservationConflictCheckResponse,
    facts: Seq<PatternFacts>,
    held: Seq<PatternFacts>,
    overlap: spec_fn(Seq<char>, Seq<char>) -> bool,
)
    requires
        same_but_for_caller(anonymous, named),
        anonymous.snapshot.caller_agent_id is None,
        named.snapshot.caller_agent_id is Some,
        is_match_verdict(Ok(all), anonymous, facts, held),
        is_match_verdict(Ok(rest), named, facts, held),
        is_table(all_overlaps, all.paths@, all.holders@, overlap),
        is_table(rest_overlaps, rest.paths@, rest.holders@, overlap),
        is_check_answer(all_response, all, all_overlaps),
        is_check_answer(rest_response, rest, rest_overlaps),
    ensures
        all_response.checked_paths == rest_response.checked_paths,
        forall|path: Seq<char>| #[trigger]
            texts(all_response.clear_paths@).contains(path) ==> texts(
                rest_response.clear_paths@,
            ).contains(path),
        all_response.conflict_free ==> rest_response.conflict_free,
        !all_response.output_truncated ==> !rest_response.output_truncated,
        !all_response.output_truncated ==> forall|i: int|
            0 <= i < all.paths@.len() ==> {
                let path = (#[trigger] all.paths@[i])@;
                let reservations = anonymous.snapshot.reservations@;
                let leases = leases_of(reservations, hits(path, overlap));
                &&& lists_for(all_response, path, lease_views(reservations, leases))
                &&& lists_for(
                    rest_response,
                    path,
                    lease_views(
                        reservations,
                        others(leases, named.snapshot.caller_agent_id),
                    ),
                )
            },
{
    let reservations = anonymous.snapshot.reservations@;
    let caller = named.snapshot.caller_agent_id;
    let keep = |reservation: SnapshotReservation| !is_callers(reservation, caller);
    let paths = all.paths@;
    let n = paths.len() as int;
    verified_others(reservations, held, None);
    distinct_names_each_once(texts(anonymous.run.relatives@));
    assert(texts(paths) == texts(rest.paths@));
    assert(texts(paths).len() == texts(rest.paths@).len());
    assert(reservations.len() == anonymous.snapshot.reservations.len());
    assert forall|i: int| 0 <= i < n implies (#[trigger] paths[i])@ == rest.paths@[i]@ by {
        assert(texts(paths)[i] == texts(rest.paths@)[i]);
    }
    assert forall|i: int| 0 <= i < n implies leases_of(
        rest.holders@,
        hits((#[trigger] paths[i])@, overlap),
    ) == others(leases_of(reservations, hits(paths[i]@, overlap)), caller) by {
        leases_after_filter(reservations, hits(paths[i]@, overlap), keep);
    }
    assert forall|i: int|
        #![trigger all_overlaps[i]]
        0 <= i < n implies overlapping(rest.holders@, rest_overlaps[i]@).len() <= overlapping(
        all.holders@,
        all_overlaps[i]@,
    ).len() by {
        row_lists_leases(all, all_overlaps, overlap, i);
        row_lists_leases(rest, rest_overlaps, overlap, i);
        assert(paths[i]@ == rest.paths@[i]@);
        leases_of(reservations, hits(paths[i]@, overlap)).lemma_filter_len(keep);
    }
    answer_lists_clear(paths, all.holders@, all_overlaps, n);
    answer_lists_clear(rest.paths@, rest.holders@, rest_overlaps, n);
    answer_lists_conflicts(paths, all.holders@, all_overlaps, n);
    answer_lists_conflicts(rest.paths@, rest.holders@, rest_overlaps, n);
    let all_answer = answer_for(paths, all.holders@, all_overlaps, n);
    let rest_answer = answer_for(rest.paths@, rest.holders@, rest_overlaps, n);
    assert forall|path: Seq<char>| #[trigger]
        texts(all_response.clear_paths@).contains(path) implies texts(
        rest_response.clear_paths@,
    ).contains(path) by {
        assert(all_answer.clear.contains(path));
        let i = choose|i: int|
            0 <= i < n && #[trigger] is_clear_row(paths, all.holders@, all_overlaps, i, path);
        assert(overlapping(all.holders@, all_overlaps[i]@).len() == 0);
        assert(is_clear_row(rest.paths@, rest.holders@, rest_overlaps, i, path));
        assert(rest_answer.clear.contains(path));
    }
    if all_response.conflict_free && rest_answer.conflicts.len() > 0 {
        assert(is_of_a_row(
            rest.paths@,
            rest.holders@,
            rest_overlaps,
            n,
            rest_answer.conflicts[0],
            rest_answer.truncated,
        ));
        let i = choose|i: int|
            0 <= i < n && #[trigger] is_conflict_row(
                rest.paths@,
                rest.holders@,
                rest_overlaps,
                i,
                rest_answer.conflicts[0],
                rest_answer.truncated,
            );
        assert(overlapping(all.holders@, all_overlaps[i]@).len() > 0);
        assert(is_held_row(all.holders@, all_overlaps, i));
    }
    if !all_response.output_truncated {
        fewer_holders_fit(
            paths,
            all.holders@,
            all_overlaps,
            rest.paths@,
            rest.holders@,
            rest_overlaps,
            n,
        );
        assert forall|i: int| 0 <= i < n implies {
            let path = (#[trigger] paths[i])@;
            let leases = leases_of(reservations, hits(path, overlap));
            &&& lists_for(all_response, path, lease_views(reservations, leases))
            &&& lists_for(
                rest_response,
                path,
                lease_views(reservations, others(leases, caller)),
            )
        } by {
            let path = paths[i]@;
            let leases = leases_of(reservations, hits(path, overlap));
            let kept = others(leases, caller);
            untruncated_answer_lists_leases(all_response, all, all_overlaps, overlap, i);
            untruncated_answer_lists_leases(rest_response, rest, rest_overlaps, overlap, i);
            assert(lease_views(rest.holders@, kept) =~= lease_views(reservations, kept)) by {
                assert forall|j: int| 0 <= j < kept.len() implies lease_view(
                    rest.holders@,
                    #[trigger] kept[j],
                ) == lease_view(reservations, kept[j]) by {
                    leases.lemma_filter_pred(keep, j);
                    others_keep_names(reservations, caller->0, kept[j].agent_id);
                }
            }
        }
    }
}

} // verus!
