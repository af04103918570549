//! `spawn`: the provisional child node registered in-loop; the caller then
//! captures the parent's workdir/state and attaches the child's runtime,
//! and the spawn is settled: answered with the child once attached, rolled
//! back on any failure.

use super::archive::lemma_gmap_len;
use super::graph::{Entries, find, gmap, has_key, keys_unique, lemma_gmap_dom, lemma_gmap_index, lemma_gmap_push};
use super::types::{
    AgentError, AgentErrorView, AgentNode, GraphRecord, NodeStatus, NodeView, OutcomeView, RecordView, is_err,
    record_view,
};
use super::{Action, ActionView, AgentRouter, TAB_AGENT_CAP, actions_view, fired, remaining, variant};
use super::types::RouterError;
use crate::id::AgentId;
use crate::text::concat3;
use vstd::prelude::*;

verus! {

/// The body of an inbound inter-agent message: tagged with the sender id
/// by the router, so it cannot be spoofed.
pub open spec fn inbound_spec(sender: Seq<char>, text: Seq<char>) -> Seq<char> {
    "[from: "@ + sender + "]\n"@ + text
}

/// Tags `text` with its sender.
pub fn inbound_text(sender: &AgentId, text: &str) -> (s: String)
    ensures
        s@ == inbound_spec(sender@, text@),
{
    let mut s = concat3("[from: ", sender.as_str(), "]\n");
    s.append(text);
    s
}

/// The live members of the tab rooted at `root`.
pub open spec fn tab_members(m: Map<Seq<char>, NodeView>, root: Seq<char>) -> Set<Seq<char>> {
    Set::new(|k: Seq<char>| m.contains_key(k) && m[k].root == root)
}

/// A freshly spawned child: its seed message is already parked in its
/// minted mailbox.
pub open spec fn spawned_node(root: Seq<char>, parent: Seq<char>) -> NodeView {
    NodeView {
        mailbox: true,
        user_tx: false,
        abort: false,
        delivered: 1,
        processed: 0,
        root,
        parent: Some(parent),
        status: NodeStatus::Spawning,
        outcome: OutcomeView { output: None, error: None },
    }
}

/// Entries of `g` whose root is `root`.
spec fn count_root(g: Entries, root: Seq<char>) -> nat
    decreases g.len(),
{
    if g.len() == 0 {
        0
    } else {
        count_root(g.drop_last(), root) + if g.last().1@.root == root { 1nat } else { 0nat }
    }
}

proof fn lemma_count_root(g: Entries, root: Seq<char>)
    requires
        keys_unique(g),
    ensures
        tab_members(gmap(g), root).finite(),
        count_root(g, root) == tab_members(gmap(g), root).len(),
    decreases g.len(),
{
    lemma_gmap_len(g);
    let t = tab_members(gmap(g), root);
    assert(t.subset_of(gmap(g).dom()));
    vstd::set_lib::lemma_len_subset(t, gmap(g).dom());
    if g.len() > 0 {
        let d = g.drop_last();
        let k = g.last().0@;
        lemma_count_root(d, root);
        lemma_gmap_dom(d, k);
        if has_key(d, k) {
            let i = choose|i: int| 0 <= i < d.len() && d[i].0@ == k;
            assert(g[i].0@ == g[g.len() - 1].0@);
        }
        let td = tab_members(gmap(d), root);
        if g.last().1@.root == root {
            assert(t =~= td.insert(k));
        } else {
            assert(t =~= td);
        }
    } else {
        assert(t =~= Set::<Seq<char>>::empty());
    }
}

/// What a successful spawn hands back: the child's id, its durable record,
/// and the seed message already parked in its mailbox.
#[derive(Debug)]
pub struct SpawnPlan {
    pub child: AgentId,
    pub record: GraphRecord,
    pub seed: String,
}

impl AgentRouter {
    /// Number of live members of the tab rooted at `root`.
    pub fn tab_size(&self, root: &AgentId) -> (n: usize)
        requires
            self.wf(),
        ensures
            tab_members(self.nodes(), root@).finite(),
            n == tab_members(self.nodes(), root@).len(),
    {
        let mut n: usize = 0;
        let mut i: usize = 0;
        while i < self.graph.len()
            invariant
                self.wf(),
                i <= self.graph@.len(),
                n == count_root(self.graph@.take(i as int), root@),
                n <= i,
            decreases self.graph@.len() - i,
        {
            proof {
                assert(self.graph@.take(i + 1).drop_last() =~= self.graph@.take(i as int));
            }
            if self.graph[i].1.root.same(root) {
                n = n + 1;
            }
            i = i + 1;
        }
        proof {
            assert(self.graph@.take(i as int) =~= self.graph@);
            lemma_count_root(self.graph@, root@);
        }
        n
    }

    /// Registers a provisional child of `parent` in the parent's tab under
    /// the smallest free variant of `base`, with the tagged `prompt` parked
    /// as its seed delivery. A dead or unknown parent, or a full tab, is
    /// rejected. The record is what the caller persists.
    pub fn handle_spawn(&mut self, parent: &AgentId, prompt: &str, base: &str) -> (r: Result<SpawnPlan, AgentError>)
        requires
            old(self).wf(),
            old(self).id_count() < usize::MAX,
        ensures
            final(self).wf(),
            final(self).waits() == old(self).waits(),
            ({
                let m = old(self).nodes();
                if !m.contains_key(parent@) {
                    is_err(r, AgentErrorView::Unknown(parent@)) && final(self).nodes() == m
                        && final(self).ids() == old(self).ids()
                } else if m[parent@].status == NodeStatus::Dead {
                    is_err(r, AgentErrorView::Dead(parent@)) && final(self).nodes() == m
                        && final(self).ids() == old(self).ids()
                } else if tab_members(m, m[parent@].root).len() >= TAB_AGENT_CAP {
                    is_err(r, AgentErrorView::TabAtCap) && final(self).nodes() == m
                        && final(self).ids() == old(self).ids()
                } else {
                    let root = m[parent@].root;
                    &&& r is Ok
                    &&& !old(self).ids().contains(r->Ok_0.child@)
                    &&& exists|n: nat| 1 <= n && r->Ok_0.child@ == variant(base@, n)
                        && (forall|k: nat| 1 <= k < n ==> old(self).ids().contains(#[trigger] variant(base@, k)))
                    &&& final(self).ids() == old(self).ids().insert(r->Ok_0.child@)
                    &&& final(self).nodes() == m.insert(r->Ok_0.child@, spawned_node(root, parent@))
                    &&& r->Ok_0.record@ == record_view(spawned_node(root, parent@), false)
                    &&& r->Ok_0.seed@ == inbound_spec(parent@, prompt@)
                }
            }),
    {
        let pi = match find(&self.graph, parent) {
            None => {
                return Err(AgentError::Unknown(parent.clone()));
            },
            Some(pi) => pi,
        };
        if self.graph[pi].1.status == NodeStatus::Dead {
            return Err(AgentError::Dead(parent.clone()));
        }
        let root = self.graph[pi].1.root.clone();
        if self.tab_size(&root) >= TAB_AGENT_CAP {
            return Err(AgentError::TabAtCap);
        }
        let child = self.allocate(base);
        let seed = inbound_text(parent, prompt);
        let mut node = AgentNode::new(root, Some(parent.clone()), NodeStatus::Spawning);
        node.mailbox = true;
        node.delivered = 1;
        let record = node.record(false);
        let ghost g0 = self.graph@;
        let ghost e = (child, node);
        proof {
            lemma_gmap_dom(g0, child@);
            lemma_gmap_push(g0, e);
            assert(node@ =~= spawned_node(node@.root, parent@));
        }
        self.graph.push((child.clone(), node));
        proof {
            assert(self.graph@ == g0.push((self.graph@.last().0, node)));
            lemma_gmap_push(g0, (self.graph@.last().0, node));
            assert(self.nodes().dom() =~= gmap(g0).dom().insert(child@));
        }
        Ok(SpawnPlan { child, record, seed })
    }
}

/// Every tab holds at most `TAB_AGENT_CAP` live agents.
pub open spec fn tabs_within_cap(m: Map<Seq<char>, NodeView>) -> bool {
    &&& m.dom().finite()
    &&& forall|root: Seq<char>| #[trigger] tab_members(m, root).len() <= TAB_AGENT_CAP
}

/// A spawn keeps every tab within the cap: `handle_spawn` adds the fresh
/// child to its parent's tab only while that tab is below the cap, and no
/// other tab changes.
pub proof fn lemma_spawn_keeps_cap(m: Map<Seq<char>, NodeView>, parent: Seq<char>, child: Seq<char>)
    requires
        tabs_within_cap(m),
        m.contains_key(parent),
        !m.contains_key(child),
        tab_members(m, m[parent].root).len() < TAB_AGENT_CAP,
    ensures
        tabs_within_cap(m.insert(child, spawned_node(m[parent].root, parent))),
{
    let root = m[parent].root;
    let m2 = m.insert(child, spawned_node(root, parent));
    assert(m2.dom() =~= m.dom().insert(child));
    assert forall|r: Seq<char>| #[trigger] tab_members(m2, r).len() <= TAB_AGENT_CAP by {
        let t = tab_members(m, r);
        vstd::set_lib::lemma_len_subset(t, m.dom());
        if r == root {
            assert(tab_members(m2, r) =~= t.insert(child));
        } else {
            assert(tab_members(m2, r) =~= t);
        }
    }
}

/// The answer to a spawn whose setup failed and whose durable record and
/// workdir could not be removed either: both errors.
pub open spec fn rollback_failed_spec(error: Seq<char>, child: Seq<char>, rollback: Seq<char>) -> Seq<char> {
    error + "; failed to roll back child "@ + child + ": "@ + rollback
}

/// The answer to a spawn whose setup failed and whose rollback failed too.
pub fn rollback_failed_error(error: &str, child: &AgentId, rollback: &str) -> (s: String)
    ensures
        s@ == rollback_failed_spec(error@, child@, rollback@),
{
    let mut s = concat3(error, "; failed to roll back child ", child.as_str());
    s.append(": ");
    s.append(rollback);
    s
}

impl AgentRouter {
    /// Settles a spawn once the child's setup (workdir capture, state, the
    /// runtime's attachment) ended: a child whose setup succeeded is the
    /// answer; a failed setup rolls the provisional child back, as
    /// `handle_rollback_spawn` does, and its error is the answer.
    pub fn settle_spawn(&mut self, child: &AgentId, setup: Result<(), String>, actions: &mut Vec<Action>)
        -> (r: Result<AgentId, String>)
        requires
            old(self).wf(),
        ensures
            final(self).wf(),
            final(self).ids() == old(self).ids(),
            ({
                let m = old(self).nodes();
                match setup {
                    Ok(()) => {
                        &&& r matches Ok(c) && c@ == child@
                        &&& final(self).nodes() == m
                        &&& final(self).waits() == old(self).waits()
                        &&& final(actions)@ == old(actions)@
                    },
                    Err(e) => {
                        &&& r matches Err(x) && x@ == e@
                        &&& m.contains_key(child@) ==> {
                            &&& final(self).nodes() == m.remove(child@)
                            &&& final(self).waits() == remaining(old(self).waits(), child@)
                            &&& actions_view(final(actions)@) == actions_view(old(actions)@)
                                + (if m[child@].abort { seq![ActionView::Abort(child@)] } else { Seq::empty() })
                                + fired(old(self).waits(), child@, Err(RouterError::Unreachable))
                        }
                        &&& !m.contains_key(child@) ==> {
                            &&& final(self).nodes() == m
                            &&& final(self).waits() == old(self).waits()
                            &&& final(actions)@ == old(actions)@
                        }
                    },
                }
            }),
    {
        match setup {
            Ok(()) => Ok(child.clone()),
            Err(e) => {
                self.handle_rollback_spawn(child, actions);
                Err(e)
            },
        }
    }
}

} // verus!
