//! The request for reservations: every path is granted or reported, and nothing else.

use crate::acquire::{
    blocking, is_named_step, is_plan_step, named_conflicts, pending_path_views, pending_placed,
    plan_for, AcquireConflicts, AcquireMatch, AcquireNext, PendingView,
};
use crate::laws::lookup::{answered_views_are_faithful, names_are_of_the_last_row};
use crate::model::{
    conflict_views, names_of, AgentRow, DbOutcome, FileReservationRow, McpError,
    PendingConflictHolder, PendingReservationConflict, ReservationConflict,
};
use crate::text::{decimal, text_before};
use vstd::prelude::*;

verus! {

/// Whether the reservation of `row` is another agent's and cannot be shared.
pub open spec fn is_in_the_way(row: FileReservationRow, me: i64, exclusive: bool) -> bool {
    row.agent_id != me && (exclusive || row.exclusive != 0)
}

/// Whether `name` is that of the agent with this id: the name on the last row of
/// `agents` with the id, or one made from the id where no row has it.
pub open spec fn is_name_of(name: Seq<char>, agents: Seq<AgentRow>, id: i64) -> bool {
    &&& forall|m: int|
        #![trigger agents[m]]
        0 <= m < agents.len() && agents[m].id == Some(id) && (forall|q: int|
            m < q < agents.len() ==> (#[trigger] agents[q]).id != Some(id)) ==> name
            == agents[m].name@
    &&& (forall|m: int| 0 <= m < agents.len() ==> (#[trigger] agents[m]).id != Some(id)) ==> name
        == "agent_"@ + decimal(id as int)
}

/// What a step of a request reports as conflicts.
pub open spec fn reported(next: AcquireNext) -> Seq<ReservationConflict> {
    match next {
        AcquireNext::Create(waiting) => waiting.conflicts@,
        AcquireNext::Answer(answer) => answer.response.conflicts@,
        AcquireNext::NameHolders(_) => Seq::empty(),
    }
}

/// The naming of holders keeps every conflict: there are as many as were pending, and
/// each one has the path of its pending one and, one by one, its holders with the names
/// of their agents. What is to be granted stays the same; where it is nothing, the
/// request is answered with nothing granted.
pub proof fn naming_keeps_every_conflict(
    r: Result<AcquireNext, McpError>,
    waiting: AcquireConflicts,
    agents: Vec<AgentRow>,
)
    requires
        is_named_step(r, waiting, DbOutcome::Done(agents)),
    ensures
        r is Ok,
        r->Ok_0 !is NameHolders,
        reported(r->Ok_0).len() == waiting.pending@.len(),
        forall|i: int|
            #![trigger waiting.pending@[i]]
            #![trigger reported(r->Ok_0)[i]]
            0 <= i < waiting.pending@.len() ==> {
                &&& reported(r->Ok_0)[i].path@ == waiting.pending@[i].path@
                &&& reported(r->Ok_0)[i].holders@.len() == waiting.pending@[i].holders@.len()
            },
        forall|i: int, j: int|
            #![trigger waiting.pending@[i].holders@[j]]
            #![trigger reported(r->Ok_0)[i].holders@[j]]
            0 <= i < waiting.pending@.len() && 0 <= j < waiting.pending@[i].holders@.len() ==> {
                let named = reported(r->Ok_0)[i].holders@[j];
                let holder = waiting.pending@[i].holders@[j];
                &&& is_name_of(named.agent@, agents@, holder.agent_id)
                &&& named.path_pattern@ == holder.path_pattern@
                &&& named.exclusive == holder.exclusive
                &&& named.expires_ts@ == holder.expires_ts@
            },
        waiting.grant@.len() > 0 ==> (r->Ok_0 matches AcquireNext::Create(create) && {
            &&& create.grant@ == waiting.grant@
            &&& create.request == waiting.request
            &&& create.project == waiting.project
            &&& create.agent == waiting.agent
        }),
        waiting.grant@.len() == 0 ==> (r->Ok_0 matches AcquireNext::Answer(answer) && {
            &&& answer.response.granted@.len() == 0
            &&& answer.write is None
        }),
{
    let conflicts = reported(r->Ok_0);
    let pending = waiting.pending@;
    let views = named_conflicts(names_of(agents@), pending_path_views(pending));
    names_are_of_the_last_row(agents@);
    answered_views_are_faithful(Seq::empty(), conflicts);
    assert(conflict_views(conflicts) == views);
    assert(views.len() == pending.len());
    assert forall|i: int|
        #![trigger pending[i]]
        #![trigger conflicts[i]]
        0 <= i < pending.len() implies {
        &&& conflicts[i].path@ == pending[i].path@
        &&& conflicts[i].holders@.len() == pending[i].holders@.len()
    } by {
        assert(conflict_views(conflicts)[i].path == conflicts[i].path@);
        assert(views[i].holders.len() == pending[i].holders@.len());
    }
    assert forall|i: int, j: int|
        #![trigger pending[i].holders@[j]]
        #![trigger conflicts[i].holders@[j]]
        0 <= i < pending.len() && 0 <= j < pending[i].holders@.len() implies {
        let named = conflicts[i].holders@[j];
        let holder = pending[i].holders@[j];
        &&& is_name_of(named.agent@, agents@, holder.agent_id)
        &&& named.path_pattern@ == holder.path_pattern@
        &&& named.exclusive == holder.exclusive
        &&& named.expires_ts@ == holder.expires_ts@
    } by {
        let named = conflicts[i].holders@[j];
        let id = pending[i].holders@[j].agent_id;
        assert(conflict_views(conflicts)[i].holders[j].agent == named.agent@);
        assert(views[i].holders[j].path_pattern == pending[i].holders@[j].path_pattern@);
        if forall|m: int| 0 <= m < agents@.len() ==> (#[trigger] agents@[m]).id != Some(id) {
            if names_of(agents@).contains_key(id) {
                let k = choose|k: int|
                    #![trigger agents@[k]]
                    0 <= k < agents@.len() && agents@[k].id == Some(id);
                assert(agents@[k].id != Some(id));
            }
        }
    }
    if waiting.grant@.len() == 0 {
        let answer = r->Ok_0->Answer_0;
        assert(crate::archive::active_records(
            waiting.project.human_key@,
            waiting.agent.name@,
            Seq::empty(),
        ).len() == 0);
    }
}

/// Whether `at` are the positions of the reservations that `holders` lists, one by one:
/// those of `active` that overlap the path and are in the way, each once.
pub open spec fn lists_just(
    at: Seq<int>,
    holders: Seq<PendingConflictHolder>,
    active: Seq<FileReservationRow>,
    me: i64,
    exclusive: bool,
    row: Seq<bool>,
) -> bool {
    &&& at.len() == holders.len()
    &&& at.no_duplicates()
    &&& forall|h: int|
        #![trigger at[h]]
        #![trigger holders[h]]
        0 <= h < at.len() ==> {
            let k = at[h];
            &&& 0 <= k < row.len()
            &&& row[k]
            &&& is_in_the_way(active[k], me, exclusive)
            &&& holders[h].agent_id == active[k].agent_id
            &&& holders[h].path_pattern@ == active[k].path_pattern@
            &&& holders[h].exclusive == (active[k].exclusive != 0)
            &&& holders[h].expires_ts@ == active[k].expires_ts.iso@
        }
    &&& forall|k: int|
        0 <= k < row.len() && #[trigger] row[k] && is_in_the_way(active[k], me, exclusive)
            ==> at.contains(k)
}

/// Whether holders are in the order in which they are reported: by agent, then by
/// pattern, shared ones before exclusive ones, then by expiry.
pub open spec fn are_sorted(holders: Seq<PendingConflictHolder>) -> bool {
    forall|i: int, j: int|
        #![trigger holders[i], holders[j]]
        0 <= i < j < holders.len() ==> {
            &&& holders[i].agent_id <= holders[j].agent_id
            &&& holders[i].agent_id == holders[j].agent_id ==> !text_before(
                holders[j].path_pattern@,
                holders[i].path_pattern@,
            )
            &&& holders[i].agent_id == holders[j].agent_id && holders[i].path_pattern@
                == holders[j].path_pattern@ ==> (holders[i].exclusive ==> holders[j].exclusive)
            &&& holders[i].agent_id == holders[j].agent_id && holders[i].path_pattern@
                == holders[j].path_pattern@ && holders[i].exclusive == holders[j].exclusive
                ==> !text_before(holders[j].expires_ts@, holders[i].expires_ts@)
        }
}

proof fn placed_is_inserted(list: Seq<PendingView>, item: PendingView) -> (n: int)
    ensures
        0 <= n <= list.len(),
        pending_placed(list, item) == list.insert(n, item),
    decreases list.len(),
{
    let out = pending_placed(list, item);
    if list.len() > 0 && out[0] == list[0] && out == seq![list[0]] + pending_placed(
        list.drop_first(),
        item,
    ) {
        let n = placed_is_inserted(list.drop_first(), item);
        assert(out =~= list.insert(n + 1, item));
        n + 1
    } else {
        assert(out =~= list.insert(0, item));
        0
    }
}

proof fn blocking_positions(
    active: Seq<FileReservationRow>,
    me: i64,
    exclusive: bool,
    row: Seq<bool>,
) -> (at: Seq<int>)
    ensures
        at.len() == blocking(active, me, exclusive, row).len(),
        at.no_duplicates(),
        forall|h: int|
            #![trigger at[h]]
            0 <= h < at.len() ==> {
                let k = at[h];
                let view = blocking(active, me, exclusive, row)[h];
                &&& 0 <= k < row.len()
                &&& row[k]
                &&& is_in_the_way(active[k], me, exclusive)
                &&& view.agent_id == active[k].agent_id
                &&& view.path_pattern == active[k].path_pattern@
                &&& view.exclusive == (active[k].exclusive != 0)
                &&& view.expires_ts == active[k].expires_ts.iso@
            },
        forall|k: int|
            0 <= k < row.len() && #[trigger] row[k] && is_in_the_way(active[k], me, exclusive)
                ==> at.contains(k),
    decreases row.len(),
{
    if row.len() == 0 {
        Seq::empty()
    } else {
        let head = row.drop_last();
        let k = row.len() - 1;
        let before = blocking_positions(active, me, exclusive, head);
        let list = blocking(active, me, exclusive, head);
        if row[k] && is_in_the_way(active[k], me, exclusive) {
            let item = crate::acquire::pending_of(active[k]);
            let n = placed_is_inserted(list, item);
            let at = before.insert(n, k);
            assert(blocking(active, me, exclusive, row) == list.insert(n, item));
            assert forall|h: int|
                #![trigger at[h]]
                0 <= h < at.len() implies {
                let q = at[h];
                let view = blocking(active, me, exclusive, row)[h];
                &&& 0 <= q < row.len()
                &&& row[q]
                &&& is_in_the_way(active[q], me, exclusive)
                &&& view.agent_id == active[q].agent_id
                &&& view.path_pattern == active[q].path_pattern@
                &&& view.exclusive == (active[q].exclusive != 0)
                &&& view.expires_ts == active[q].expires_ts.iso@
            } by {
                if h < n {
                    assert(at[h] == before[h]);
                    assert(head[before[h]]);
                } else if h > n {
                    assert(at[h] == before[h - 1]);
                    assert(head[before[h - 1]]);
                }
            }
            assert(at.no_duplicates()) by {
                assert forall|i: int, j: int|
                    0 <= i < at.len() && 0 <= j < at.len() && i != j implies at[i] != at[j] by {
                    let a = if i < n { i } else { i - 1 };
                    let b = if j < n { j } else { j - 1 };
                    if i != n {
                        assert(at[i] == before[a]);
                    }
                    if j != n {
                        assert(at[j] == before[b]);
                    }
                }
            }
            assert forall|q: int|
                0 <= q < row.len() && #[trigger] row[q] && is_in_the_way(
                    active[q],
                    me,
                    exclusive,
                ) implies at.contains(q) by {
                if q < k {
                    assert(head[q]);
                    let h = choose|h: int| 0 <= h < before.len() && before[h] == q;
                    if h < n {
                        assert(at[h] == q);
                    } else {
                        assert(at[h + 1] == q);
                    }
                } else {
                    assert(at[n] == q);
                }
            }
            at
        } else {
            assert forall|q: int|
                0 <= q < row.len() && #[trigger] row[q] && is_in_the_way(
                    active[q],
                    me,
                    exclusive,
                ) implies before.contains(q) by {
                assert(head[q]);
            }
            assert forall|h: int| #![trigger before[h]] 0 <= h < before.len() implies row[before[h]]
                by {
                assert(head[before[h]]);
            }
            before
        }
    }
}

/// Whether no reservation of `active` that overlaps the path is in the way.
pub open spec fn is_free(
    active: Seq<FileReservationRow>,
    me: i64,
    exclusive: bool,
    row: Seq<bool>,
) -> bool {
    forall|k: int|
        0 <= k < row.len() && #[trigger] row[k] ==> !is_in_the_way(active[k], me, exclusive)
}

/// Whether positions go up.
pub open spec fn is_rising(at: Seq<int>) -> bool {
    forall|i: int, j: int| 0 <= i < j < at.len() ==> #[trigger] at[i] < #[trigger] at[j]
}

pub(crate) proof fn rising_push(at: Seq<int>, n: int)
    requires
        is_rising(at),
        forall|i: int| 0 <= i < at.len() ==> #[trigger] at[i] < n,
    ensures
        is_rising(at.push(n)),
        at.push(n).contains(n),
        forall|x: int| at.contains(x) ==> #[trigger] at.push(n).contains(x),
{
    let more = at.push(n);
    assert(more[at.len() as int] == n);
    assert forall|x: int| at.contains(x) implies #[trigger] more.contains(x) by {
        let i = choose|i: int| 0 <= i < at.len() && at[i] == x;
        assert(more[i] == x);
    }
}

proof fn plan_positions(
    wanted: Seq<String>,
    active: Seq<FileReservationRow>,
    me: i64,
    exclusive: bool,
    overlaps: Seq<Vec<bool>>,
    n: int,
) -> (at: (Seq<int>, Seq<int>))
    requires
        0 <= n <= wanted.len(),
    ensures
        ({
            let plan = plan_for(wanted, active, me, exclusive, overlaps, n);
            &&& at.0.len() == plan.grant.len()
            &&& at.1.len() == plan.pending.len()
            &&& is_rising(at.0)
            &&& is_rising(at.1)
            &&& forall|g: int|
                #![trigger at.0[g]]
                0 <= g < at.0.len() ==> {
                    &&& 0 <= at.0[g] < n
                    &&& plan.grant[g] == wanted[at.0[g]]@
                    &&& is_free(active, me, exclusive, overlaps[at.0[g]]@)
                }
            &&& forall|j: int|
                #![trigger at.1[j]]
                0 <= j < at.1.len() ==> {
                    &&& 0 <= at.1[j] < n
                    &&& plan.pending[j].path == wanted[at.1[j]]@
                    &&& plan.pending[j].holders == blocking(
                        active,
                        me,
                        exclusive,
                        overlaps[at.1[j]]@,
                    )
                    &&& !is_free(active, me, exclusive, overlaps[at.1[j]]@)
                }
            &&& forall|i: int|
                0 <= i < n ==> #[trigger] at.0.contains(i) || at.1.contains(i)
        }),
    decreases n,
{
    if n == 0 {
        (Seq::empty(), Seq::empty())
    } else {
        let before = plan_positions(wanted, active, me, exclusive, overlaps, n - 1);
        let row = overlaps[n - 1]@;
        let ks = blocking_positions(active, me, exclusive, row);
        let holders = blocking(active, me, exclusive, row);
        if holders.len() == 0 {
            assert(is_free(active, me, exclusive, row)) by {
                assert forall|k: int| 0 <= k < row.len() && #[trigger] row[k] implies
                    !is_in_the_way(active[k], me, exclusive) by {
                    if is_in_the_way(active[k], me, exclusive) {
                        assert(ks.contains(k));
                    }
                }
            }
            rising_push(before.0, n - 1);
            let at = (before.0.push(n - 1), before.1);
            assert forall|i: int| 0 <= i < n implies #[trigger] at.0.contains(i) || at.1.contains(
                i,
            ) by {
                if i < n - 1 {
                    assert(before.0.contains(i) || before.1.contains(i));
                }
            }
            at
        } else {
            assert(!is_free(active, me, exclusive, row)) by {
                assert(row[ks[0]] && is_in_the_way(active[ks[0]], me, exclusive));
            }
            rising_push(before.1, n - 1);
            let at = (before.0, before.1.push(n - 1));
            assert forall|i: int| 0 <= i < n implies #[trigger] at.0.contains(i) || at.1.contains(
                i,
            ) by {
                if i < n - 1 {
                    assert(before.0.contains(i) || before.1.contains(i));
                }
            }
            at
        }
    }
}

/// What a step of a request is to grant.
pub open spec fn granting(next: AcquireNext) -> Seq<Seq<char>> {
    match next {
        AcquireNext::Create(waiting) => waiting.grant@,
        AcquireNext::NameHolders(waiting) => waiting.grant@,
        AcquireNext::Answer(_) => Seq::empty(),
    }
}

/// What a step of a request is to report, once the holders are named.
pub open spec fn withholding(next: AcquireNext) -> Seq<PendingReservationConflict> {
    match next {
        AcquireNext::NameHolders(waiting) => waiting.pending@,
        _ => Seq::empty(),
    }
}

/// Every wanted path is either granted or withheld, in the order in which it is wanted,
/// and none twice. It is granted just where no reservation of another agent overlaps it
/// that is exclusive, or that an exclusive request cannot share. A path that is withheld
/// lists every reservation in its way, each once and in order, and no other. The result
/// gives the positions of the paths that are granted, and of those that are withheld.
pub proof fn every_wanted_path_is_decided(
    next: AcquireNext,
    matching: AcquireMatch,
    overlaps: Seq<Vec<bool>>,
    me: i64,
) -> (at: (Seq<int>, Seq<int>))
    requires
        is_plan_step(next, matching, overlaps),
        matching.agent.id == Some(me) || matching.agent.id is None && me == 0,
    ensures
        at.0.len() == granting(next).len(),
        at.1.len() == withholding(next).len(),
        is_rising(at.0),
        is_rising(at.1),
        forall|i: int|
            #![trigger matching.wanted@[i]]
            #![trigger overlaps[i]]
            0 <= i < matching.wanted@.len() ==> {
                let free = is_free(
                    matching.active@,
                    me,
                    matching.request.exclusive,
                    overlaps[i]@,
                );
                &&& at.0.contains(i) <==> free
                &&& at.1.contains(i) <==> !free
            },
        forall|g: int|
            #![trigger at.0[g]]
            0 <= g < at.0.len() ==> {
                &&& 0 <= at.0[g] < matching.wanted@.len()
                &&& granting(next)[g] == matching.wanted@[at.0[g]]@
            },
        forall|j: int|
            #![trigger at.1[j]]
            0 <= j < at.1.len() ==> {
                &&& 0 <= at.1[j] < matching.wanted@.len()
                &&& withholding(next)[j].path@ == matching.wanted@[at.1[j]]@
                &&& are_sorted(withholding(next)[j].holders@)
                &&& exists|ks: Seq<int>|
                    lists_just(
                        ks,
                        withholding(next)[j].holders@,
                        matching.active@,
                        me,
                        matching.request.exclusive,
                        overlaps[at.1[j]]@,
                    )
            },
        withholding(next).len() == 0 ==> reported(next).len() == 0,
        withholding(next).len() > 0 <==> next is NameHolders,
        withholding(next).len() == 0 && granting(next).len() > 0 ==> next is Create,
        next matches AcquireNext::Create(create) ==> create.request == matching.request
            && create.project == matching.project && create.agent == matching.agent,
        next matches AcquireNext::NameHolders(named) ==> named.request == matching.request
            && named.project == matching.project && named.agent == matching.agent,
        next matches AcquireNext::Answer(answer) ==> answer.response.granted@.len() == 0
            && answer.write is None,
{
    let wanted = matching.wanted@;
    let active = matching.active@;
    let exclusive = matching.request.exclusive;
    let n = wanted.len() as int;
    let at = plan_positions(wanted, active, me, exclusive, overlaps, n);
    let plan = plan_for(wanted, active, me, exclusive, overlaps, n);
    assert(crate::archive::id_or_zero(matching.agent.id) == me);
    answered_views_are_faithful(Seq::empty(), reported(next));
    if next is NameHolders {
        assert(pending_path_views(withholding(next)).len() == withholding(next).len());
    }
    assert forall|i: int|
        #![trigger wanted[i]]
        #![trigger overlaps[i]]
        0 <= i < n implies {
        let free = is_free(active, me, exclusive, overlaps[i]@);
        &&& at.0.contains(i) <==> free
        &&& at.1.contains(i) <==> !free
    } by {
        assert(at.0.contains(i) || at.1.contains(i));
        if at.0.contains(i) {
            let g = choose|g: int| 0 <= g < at.0.len() && at.0[g] == i;
            assert(is_free(active, me, exclusive, overlaps[at.0[g]]@));
        }
        if at.1.contains(i) {
            let j = choose|j: int| 0 <= j < at.1.len() && at.1[j] == i;
            assert(!is_free(active, me, exclusive, overlaps[at.1[j]]@));
        }
    }
    assert forall|j: int|
        #![trigger at.1[j]]
        0 <= j < at.1.len() implies {
        &&& 0 <= at.1[j] < n
        &&& withholding(next)[j].path@ == wanted[at.1[j]]@
        &&& are_sorted(withholding(next)[j].holders@)
        &&& exists|ks: Seq<int>|
            lists_just(
                ks,
                withholding(next)[j].holders@,
                active,
                me,
                exclusive,
                overlaps[at.1[j]]@,
            )
    } by {
        let view = pending_path_views(withholding(next))[j];
        let holders = withholding(next)[j].holders@;
        let row = overlaps[at.1[j]]@;
        assert(view == plan.pending[j]);
        assert(view.path == withholding(next)[j].path@);
        assert(view.holders == crate::acquire::pending_views(holders));
        assert(view.holders.len() == holders.len());
        let ks = blocking_positions(active, me, exclusive, row);
        crate::acquire::blocking_is_complete(active, me, exclusive, row);
        assert forall|h: int|
            #![trigger ks[h]]
            #![trigger holders[h]]
            0 <= h < ks.len() implies {
            let k = ks[h];
            &&& 0 <= k < row.len()
            &&& row[k]
            &&& is_in_the_way(active[k], me, exclusive)
            &&& holders[h].agent_id == active[k].agent_id
            &&& holders[h].path_pattern@ == active[k].path_pattern@
            &&& holders[h].exclusive == (active[k].exclusive != 0)
            &&& holders[h].expires_ts@ == active[k].expires_ts.iso@
        } by {
            assert(ks[h] == ks[h]);
            assert(view.holders[h] == holders[h]@);
        }
        assert(lists_just(ks, holders, active, me, exclusive, row));
        assert(are_sorted(holders)) by {
            assert forall|a: int, b: int|
                #![trigger holders[a], holders[b]]
                0 <= a < b < holders.len() implies {
                &&& holders[a].agent_id <= holders[b].agent_id
                &&& holders[a].agent_id == holders[b].agent_id ==> !text_before(
                    holders[b].path_pattern@,
                    holders[a].path_pattern@,
                )
                &&& holders[a].agent_id == holders[b].agent_id && holders[a].path_pattern@
                    == holders[b].path_pattern@ ==> (holders[a].exclusive
                    ==> holders[b].exclusive)
                &&& holders[a].agent_id == holders[b].agent_id && holders[a].path_pattern@
                    == holders[b].path_pattern@ && holders[a].exclusive == holders[b].exclusive
                    ==> !text_before(holders[b].expires_ts@, holders[a].expires_ts@)
            } by {
                assert(view.holders[a] == holders[a]@ && view.holders[b] == holders[b]@);
                assert(!crate::acquire::pending_before(view.holders[b], view.holders[a]));
                crate::text::text_order_irreflexive(holders[a].path_pattern@);
            }
        }
    }
    assert(crate::archive::active_records(
        matching.project.human_key@,
        matching.agent.name@,
        Seq::empty(),
    ).len() == 0);
    at
}

} // verus!
