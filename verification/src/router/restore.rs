//! Rebuilding the live graph at startup from the durable records, the ids
//! that have saved state, and each agent's last turn outcome.

use super::graph::{gmap, has_key, keys_unique, lemma_gmap_dom, lemma_gmap_index, lemma_gmap_push};
use super::types::{AgentNode, GraphRecord, NodeStatus, NodeView, OutcomeView, RecordView, TurnOutcome};
use super::{AgentRouter, WaiterView};
use super::archive::lemma_gmap_len;
use crate::id::AgentId;
use vstd::prelude::*;

verus! {

/// The outcome saved for `k` (the last one given for it).
pub open spec fn find_outcome(os: Seq<(AgentId, TurnOutcome)>, k: Seq<char>) -> Option<OutcomeView>
    decreases os.len(),
{
    if os.len() == 0 {
        None
    } else if os.last().0@ == k {
        Some(os.last().1@)
    } else {
        find_outcome(os.drop_last(), k)
    }
}

/// A node restored from its record and last outcome: nothing attached yet;
/// an agent whose last turn left an error restarts dead.
pub open spec fn restored_node(rec: RecordView, o: OutcomeView) -> NodeView {
    NodeView {
        mailbox: false,
        user_tx: false,
        abort: false,
        delivered: 0,
        processed: 0,
        root: rec.root,
        parent: rec.parent,
        status: if o.error is Some { NodeStatus::Dead } else { NodeStatus::Spawning },
        outcome: o,
    }
}

/// No two records share an id.
pub open spec fn records_unique(rs: Seq<(AgentId, GraphRecord)>) -> bool {
    forall|i: int, j: int| 0 <= i < j < rs.len() ==> rs[i].0@ != rs[j].0@
}

fn lookup_outcome(os: &Vec<(AgentId, TurnOutcome)>, k: &AgentId) -> (r: Option<TurnOutcome>)
    ensures
        match r {
            Some(o) => find_outcome(os@, k@) == Some(o@),
            None => find_outcome(os@, k@) is None,
        },
{
    let mut found: Option<TurnOutcome> = None;
    let mut j: usize = 0;
    while j < os.len()
        invariant
            j <= os@.len(),
            match found {
                Some(o) => find_outcome(os@.take(j as int), k@) == Some(o@),
                None => find_outcome(os@.take(j as int), k@) is None,
            },
        decreases os@.len() - j,
    {
        proof {
            assert(os@.take(j + 1).drop_last() =~= os@.take(j as int));
        }
        if os[j].0.same(k) {
            found = Some(os[j].1.copy());
        }
        j = j + 1;
    }
    proof {
        assert(os@.take(j as int) =~= os@);
    }
    found
}

impl AgentRouter {
    /// The router state at startup: every record and saved-state id is
    /// allocated; a non-archived record with a saved outcome becomes a live
    /// node.
    pub fn restore(
        records: &Vec<(AgentId, GraphRecord)>,
        state_ids: &Vec<AgentId>,
        outcomes: &Vec<(AgentId, TurnOutcome)>,
    ) -> (r: AgentRouter)
        requires
            records_unique(records@),
        ensures
            r.wf(),
            r.waits() == Seq::<WaiterView>::empty(),
            forall|k: Seq<char>| r.ids().contains(k) <==>
                (super::in_ids(state_ids@, k) || exists|i: int| 0 <= i < records@.len() && records@[i].0@ == k),
            forall|k: Seq<char>| #[trigger] r.nodes().contains_key(k) <==>
                (exists|i: int| 0 <= i < records@.len() && records@[i].0@ == k && !records@[i].1.archived)
                && find_outcome(outcomes@, k) is Some,
            forall|i: int| 0 <= i < records@.len() && !records@[i].1.archived && find_outcome(outcomes@, records@[i].0@) is Some
                ==> r.nodes()[#[trigger] records@[i].0@] == restored_node(records@[i].1@, find_outcome(outcomes@, records@[i].0@)->0),
    {
        let mut r = AgentRouter::empty();
        let mut j: usize = 0;
        while j < state_ids.len()
            invariant
                r.wf(),
                r.waits() == Seq::<WaiterView>::empty(),
                r.nodes() == Map::<Seq<char>, NodeView>::empty(),
                r.graph@.len() == 0,
                j <= state_ids@.len(),
                forall|k: Seq<char>| r.ids().contains(k) <==> exists|t: int| 0 <= t < j && state_ids@[t]@ == k,
            decreases state_ids@.len() - j,
        {
            r.add_id(state_ids[j].clone());
            proof {
                assert forall|k: Seq<char>| r.ids().contains(k) <==> exists|t: int| 0 <= t < j + 1 && state_ids@[t]@ == k by {
                    if r.ids().contains(k) && k != state_ids@[j as int]@ {
                        let t = choose|t: int| 0 <= t < j && state_ids@[t]@ == k;
                        assert(0 <= t < j + 1);
                    }
                }
            }
            j = j + 1;
        }
        let mut i: usize = 0;
        while i < records.len()
            invariant
                records_unique(records@),
                keys_unique(r.graph@),
                r.waits() == Seq::<WaiterView>::empty(),
                i <= records@.len(),
                forall|k: Seq<char>| r.ids().contains(k) <==>
                    (super::in_ids(state_ids@, k) || exists|t: int| 0 <= t < i && records@[t].0@ == k),
                forall|t: int| 0 <= t < r.graph@.len() ==> exists|s: int| 0 <= s < i && records@[s].0@ == #[trigger] r.graph@[t].0@,
                forall|k: Seq<char>| #[trigger] gmap(r.graph@).contains_key(k) <==>
                    (exists|t: int| 0 <= t < i && records@[t].0@ == k && !records@[t].1.archived)
                    && find_outcome(outcomes@, k) is Some,
                forall|t: int| 0 <= t < i && !records@[t].1.archived && find_outcome(outcomes@, records@[t].0@) is Some
                    ==> gmap(r.graph@)[#[trigger] records@[t].0@] == restored_node(records@[t].1@, find_outcome(outcomes@, records@[t].0@)->0),
            decreases records@.len() - i,
        {
            let id = records[i].0.clone();
            r.add_id(id.clone());
            proof {
                assert forall|k: Seq<char>| r.ids().contains(k) <==>
                    (super::in_ids(state_ids@, k) || exists|t: int| 0 <= t < i + 1 && records@[t].0@ == k) by {
                    if k == id@ {
                        assert(records@[i as int].0@ == k);
                    } else if exists|t: int| 0 <= t < i + 1 && records@[t].0@ == k {
                        let t = choose|t: int| 0 <= t < i + 1 && records@[t].0@ == k;
                        assert(t < i);
                    }
                }
            }
            if !records[i].1.archived {
                match lookup_outcome(outcomes, &id) {
                    None => {},
                    Some(outcome) => {
                        let status = if outcome.error.is_some() { NodeStatus::Dead } else { NodeStatus::Spawning };
                        let mut node = AgentNode::new(
                            records[i].1.root.clone(),
                            super::types::clone_opt_id(&records[i].1.parent),
                            status,
                        );
                        node.outcome = outcome;
                        let ghost g0 = r.graph@;
                        proof {
                            lemma_gmap_dom(g0, id@);
                            if has_key(g0, id@) {
                                let t = choose|t: int| 0 <= t < g0.len() && g0[t].0@ == id@;
                                let s = choose|s: int| 0 <= s < i && records@[s].0@ == #[trigger] g0[t].0@;
                                assert(records@[s].0@ != records@[i as int].0@);
                            }
                            lemma_gmap_push(g0, (id, node));
                        }
                        r.graph.push((id, node));
                        proof {
                            assert(node@ == restored_node(records@[i as int].1@, find_outcome(outcomes@, id@)->0));
                            assert forall|t: int| 0 <= t < r.graph@.len() implies exists|s: int| 0 <= s < i + 1 && records@[s].0@ == #[trigger] r.graph@[t].0@ by {
                                if t < g0.len() {
                                    assert(r.graph@[t] == g0[t]);
                                } else {
                                    assert(records@[i as int].0@ == r.graph@[t].0@);
                                }
                            }
                            assert forall|t: int| 0 <= t < i + 1 && !records@[t].1.archived && find_outcome(outcomes@, records@[t].0@) is Some
                                implies gmap(r.graph@)[#[trigger] records@[t].0@] == restored_node(records@[t].1@, find_outcome(outcomes@, records@[t].0@)->0) by {
                                if t < i {
                                    assert(records@[t].0@ != id@);
                                }
                            }
                        }
                    },
                }
            }
            proof {
                assert forall|k: Seq<char>| #[trigger] gmap(r.graph@).contains_key(k) <==>
                    (exists|t: int| 0 <= t < i + 1 && records@[t].0@ == k && !records@[t].1.archived)
                    && find_outcome(outcomes@, k) is Some by {
                    if exists|t: int| 0 <= t < i + 1 && records@[t].0@ == k && !records@[t].1.archived {
                        let t = choose|t: int| 0 <= t < i + 1 && records@[t].0@ == k && !records@[t].1.archived;
                        if t < i {
                            assert(exists|t2: int| 0 <= t2 < i && records@[t2].0@ == k && !records@[t2].1.archived);
                        }
                    }
                }
            }
            i = i + 1;
        }
        proof {
            lemma_gmap_len(r.graph@);
            assert forall|k: Seq<char>| #[trigger] r.nodes().contains_key(k) implies r.ids().contains(k) by {
                let t = choose|t: int| 0 <= t < i && records@[t].0@ == k && !records@[t].1.archived;
            }
        }
        r
    }
}

} // verus!
