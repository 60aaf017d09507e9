//! The names of agents, and the views of what is answered.

use crate::model::{
    conflict_views, holder_views, name_or, names_of, AgentRow, ConflictHolder, ReservationConflict,
};
use vstd::prelude::*;

verus! {

/// The canonical name of an agent counts, where there is one.
pub proof fn canonical_name_counts(canonical: Option<String>, name: String)
    ensures
        canonical matches Some(known) ==> name_or(canonical, name) == known,
        canonical is None ==> name_or(canonical, name) == name,
{
}

/// Each agent row with an id gives the name of that id, the last one where there are
/// several; and no other id has a name.
pub proof fn names_are_of_the_last_row(agents: Seq<AgentRow>)
    ensures
        forall|k: int|
            #![trigger agents[k]]
            0 <= k < agents.len() && agents[k].id is Some ==> names_of(agents).contains_key(
                agents[k].id->0,
            ),
        forall|k: int|
            #![trigger agents[k]]
            0 <= k < agents.len() && agents[k].id is Some && (forall|q: int|
                k < q < agents.len() ==> (#[trigger] agents[q]).id != agents[k].id)
                ==> names_of(agents)[agents[k].id->0] == agents[k].name,
        forall|id: i64| #[trigger]
            names_of(agents).contains_key(id) ==> exists|k: int|
                #![trigger agents[k]]
                0 <= k < agents.len() && agents[k].id == Some(id) && names_of(agents)[id]
                    == agents[k].name && forall|q: int|
                    k < q < agents.len() ==> (#[trigger] agents[q]).id != Some(id),
    decreases agents.len(),
{
    if agents.len() > 0 {
        let head = agents.drop_last();
        let last = agents.len() - 1;
        names_are_of_the_last_row(head);
        assert forall|k: int|
            #![trigger agents[k]]
            0 <= k < agents.len() && agents[k].id is Some implies names_of(agents).contains_key(
            agents[k].id->0,
        ) by {
            if k < last {
                assert(head[k] == agents[k]);
            }
        }
        assert forall|k: int|
            #![trigger agents[k]]
            0 <= k < agents.len() && agents[k].id is Some && (forall|q: int|
                k < q < agents.len() ==> (#[trigger] agents[q]).id != agents[k].id) implies
            names_of(agents)[agents[k].id->0] == agents[k].name by {
            if k < last {
                assert(head[k] == agents[k]);
                assert(agents[last].id != agents[k].id);
                assert forall|q: int| k < q < head.len() implies (#[trigger] head[q]).id
                    != head[k].id by {
                    assert(head[q] == agents[q]);
                }
            }
        }
        assert forall|id: i64| #[trigger] names_of(agents).contains_key(id) implies exists|k: int|
            #![trigger agents[k]]
            0 <= k < agents.len() && agents[k].id == Some(id) && names_of(agents)[id]
                == agents[k].name && forall|q: int|
                k < q < agents.len() ==> (#[trigger] agents[q]).id != Some(id) by {
            if agents[last].id == Some(id) {
                assert(agents[last].name == names_of(agents)[id]);
            } else {
                assert(names_of(head).contains_key(id));
                let k = choose|k: int|
                    #![trigger head[k]]
                    0 <= k < head.len() && head[k].id == Some(id) && names_of(head)[id]
                        == head[k].name && forall|q: int|
                        k < q < head.len() ==> (#[trigger] head[q]).id != Some(id);
                assert(agents[k] == head[k]);
                assert forall|q: int| k < q < agents.len() implies (#[trigger] agents[q]).id
                    != Some(id) by {
                    if q < last {
                        assert(head[q] == agents[q]);
                    }
                }
            }
        }
    }
}

/// What is said of answered holders and conflicts in the contracts is all that they
/// hold: as many, in the same order, with the same fields.
pub proof fn answered_views_are_faithful(
    holders: Seq<ConflictHolder>,
    conflicts: Seq<ReservationConflict>,
)
    ensures
        holder_views(holders).len() == holders.len(),
        forall|i: int|
            #![trigger holder_views(holders)[i]]
            #![trigger holders[i]]
            0 <= i < holders.len() ==> {
                &&& holder_views(holders)[i].agent == holders[i].agent@
                &&& holder_views(holders)[i].path_pattern == holders[i].path_pattern@
                &&& holder_views(holders)[i].exclusive == holders[i].exclusive
                &&& holder_views(holders)[i].expires_ts == holders[i].expires_ts@
            },
        conflict_views(conflicts).len() == conflicts.len(),
        forall|i: int|
            #![trigger conflict_views(conflicts)[i]]
            #![trigger conflicts[i]]
            0 <= i < conflicts.len() ==> {
                &&& conflict_views(conflicts)[i].path == conflicts[i].path@
                &&& conflict_views(conflicts)[i].holders.len() == conflicts[i].holders@.len()
            },
        forall|i: int, j: int|
            #![trigger conflicts[i].holders@[j]]
            #![trigger conflict_views(conflicts)[i].holders[j]]
            0 <= i < conflicts.len() && 0 <= j < conflicts[i].holders@.len() ==> {
                let view = conflict_views(conflicts)[i].holders[j];
                &&& view.agent == conflicts[i].holders@[j].agent@
                &&& view.path_pattern == conflicts[i].holders@[j].path_pattern@
                &&& view.exclusive == conflicts[i].holders@[j].exclusive
                &&& view.expires_ts == conflicts[i].holders@[j].expires_ts@
            },
{
}

} // verus!
