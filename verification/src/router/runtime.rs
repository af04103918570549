//! App/runtime-side commands: registration, id allocation, UI-event
//! forwarding, liveness pings, runtime attach/down.

use super::graph::{find, gmap, has_key, keys_unique, lemma_gmap_dom, lemma_gmap_push};
use super::types::{
    AgentError, AgentErrorView, AgentNode, GraphRecord, NodeStatus, NodeView, OutcomeView, PingView,
    SendOutcome, StatusPing, is_err, record_view, wait_view,
};
use super::{Action, ActionView, AgentRouter, actions_view, dead_node, fired, free_variant, in_ids, remaining, same_tab_spec, variant};
use crate::id::{AgentId, SEPARATOR, WORDS, is_petname};
use vstd::prelude::*;

verus! {

/// The node after one more committed delivery: an idle node is committed
/// to a turn.
pub open spec fn delivered_node(n: NodeView) -> NodeView {
    NodeView {
        delivered: n.delivered + 1,
        status: if n.status == NodeStatus::Idle { NodeStatus::Running } else { n.status },
        ..n
    }
}

/// The node after a liveness ping: an idle ping older than a committed
/// delivery still counts as running; a ping without output keeps the cached
/// output, its error always replaces the cached one.
pub open spec fn pinged_node(n: NodeView, p: PingView) -> NodeView {
    NodeView {
        processed: p.processed,
        outcome: OutcomeView {
            output: if p.outcome.output is Some { p.outcome.output } else { n.outcome.output },
            error: p.outcome.error,
        },
        status: if p.status == NodeStatus::Idle && p.processed < n.delivered {
            NodeStatus::Running
        } else {
            p.status
        },
        ..n
    }
}

/// A freshly attached runtime's node.
pub open spec fn attached_node(n: NodeView) -> NodeView {
    NodeView { mailbox: true, user_tx: true, abort: true, ..n }
}

/// A fresh root node: its own tab, nothing attached.
pub open spec fn root_node(aid: Seq<char>) -> NodeView {
    NodeView {
        mailbox: false,
        user_tx: false,
        abort: false,
        delivered: 0,
        processed: 0,
        root: aid,
        parent: None,
        status: NodeStatus::Spawning,
        outcome: OutcomeView { output: None, error: None },
    }
}

/// The live nodes after a liveness ping from `aid`: an unknown or dead
/// agent's ping changes nothing.
pub open spec fn after_ping(m: Map<Seq<char>, NodeView>, aid: Seq<char>, p: PingView) -> Map<Seq<char>, NodeView> {
    if !m.contains_key(aid) || m[aid].status == NodeStatus::Dead {
        m
    } else {
        m.insert(aid, pinged_node(m[aid], p))
    }
}

/// The live nodes after `aid`'s runtime went down with `error`: an unknown
/// or already dead agent keeps its state (and its first error).
pub open spec fn after_down(m: Map<Seq<char>, NodeView>, aid: Seq<char>, error: Seq<char>) -> Map<Seq<char>, NodeView> {
    if !m.contains_key(aid) || m[aid].status == NodeStatus::Dead {
        m
    } else {
        m.insert(aid, dead_node(m[aid], error))
    }
}

/// Death is terminal and keeps the first terminal error: a live agent
/// whose runtime goes down becomes dead with that error, its channels and
/// kill switch dropped and its cached output kept; after that, neither a
/// late ping nor another report of its runtime going down changes its node
/// (and `handle_runtime_down` then answers no waiter).
pub proof fn lemma_dead_is_terminal(m: Map<Seq<char>, NodeView>, aid: Seq<char>, error: Seq<char>, p: PingView, later: Seq<char>)
    requires
        m.contains_key(aid),
        m[aid].status != NodeStatus::Dead,
    ensures
        after_down(m, aid, error)[aid].status == NodeStatus::Dead,
        after_down(m, aid, error)[aid].outcome.error == Some(error),
        after_down(m, aid, error)[aid].outcome.output == m[aid].outcome.output,
        !after_down(m, aid, error)[aid].mailbox,
        !after_down(m, aid, error)[aid].user_tx,
        !after_down(m, aid, error)[aid].abort,
        after_ping(after_down(m, aid, error), aid, p) == after_down(m, aid, error),
        after_down(after_down(m, aid, error), aid, later) == after_down(m, aid, error),
        after_down(after_down(m, aid, error), aid, later)[aid].outcome.error == Some(error),
{
}

/// A delivery commits its target to a turn: an idle ping sent before the
/// agent processed the delivery (its processed count is behind) leaves the
/// node running, so a `wait` that follows a `send` cannot fire on the
/// stale idle state.
pub proof fn lemma_delivery_outruns_stale_ping(n: NodeView, p: PingView)
    requires
        p.processed <= n.delivered,
    ensures
        delivered_node(n).status != NodeStatus::Idle,
        pinged_node(delivered_node(n), p).status != NodeStatus::Idle,
{
}

/// A failed turn never clobbers the cached output: a ping without output
/// keeps the output the node had, while its error (or its absence) always
/// replaces the cached one.
pub proof fn lemma_failure_keeps_output(n: NodeView, p: PingView)
    requires
        p.outcome.output is None,
    ensures
        pinged_node(n, p).outcome.output == n.outcome.output,
        pinged_node(n, p).outcome.error == p.outcome.error,
{
}

impl AgentRouter {
    /// Number of allocated ids kept.
    pub closed spec fn id_count(&self) -> nat {
        self.all_ids@.len()
    }

    proof fn lemma_ids(&self, x: Seq<char>)
        ensures
            self.ids().contains(x) <==> in_ids(self.all_ids@, x),
            self.ids().finite(),
    {
        let s = self.all_ids@.map_values(|a: AgentId| a@);
        if in_ids(self.all_ids@, x) {
            let j = choose|j: int| 0 <= j < self.all_ids@.len() && self.all_ids@[j]@ == x;
            assert(s[j] == x);
        }
        if self.ids().contains(x) {
            let j = choose|j: int| 0 <= j < s.len() && s[j] == x;
            assert(self.all_ids@[j]@ == x);
        }
    }

    /// Records an allocated id.
    pub(super) fn add_id(&mut self, id: AgentId)
        ensures
            final(self).ids() == old(self).ids().insert(id@),
            final(self).id_count() <= old(self).id_count() + 1,
            final(self).graph == old(self).graph,
            final(self).waiters == old(self).waiters,
    {
        let ghost before = self.all_ids@;
        proof { self.lemma_ids(id@); }
        if !super::contains_id(&self.all_ids, &id) {
            self.all_ids.push(id);
            proof {
                assert(self.all_ids@.map_values(|a: AgentId| a@) =~= before.map_values(|a: AgentId| a@).push(id@));
                before.map_values(|a: AgentId| a@).lemma_push_to_set_commute(id@);
            }
        } else {
            proof {
                assert(old(self).ids().contains(id@));
                assert(old(self).ids().insert(id@) =~= old(self).ids());
            }
        }
    }

    /// Registers a primary agent as the root of a new tab; the record is
    /// what the caller persists.
    pub fn register_root(&mut self, aid: AgentId) -> (r: Result<GraphRecord, AgentError>)
        requires
            old(self).wf(),
        ensures
            final(self).wf(),
            final(self).waits() == old(self).waits(),
            old(self).nodes().contains_key(aid@) ==> {
                &&& is_err(r, AgentErrorView::AlreadyExists(aid@))
                &&& final(self).nodes() == old(self).nodes()
                &&& final(self).ids() == old(self).ids()
            },
            !old(self).nodes().contains_key(aid@) ==> {
                &&& r matches Ok(rec) && rec@ == record_view(root_node(aid@), false)
                &&& final(self).nodes() == old(self).nodes().insert(aid@, root_node(aid@))
                &&& final(self).ids() == old(self).ids().insert(aid@)
            },
    {
        if find(&self.graph, &aid).is_some() {
            return Err(AgentError::AlreadyExists(aid));
        }
        let ghost g0 = self.graph@;
        self.add_id(aid.clone());
        let node = AgentNode::new(aid.clone(), None, NodeStatus::Spawning);
        let record = node.record(false);
        let ghost e = (aid, node);
        proof {
            lemma_gmap_dom(g0, aid@);
            lemma_gmap_push(g0, e);
        }
        self.graph.push((aid, node));
        proof {
            assert(node@ =~= root_node(aid@));
            assert(self.nodes().dom() =~= gmap(g0).dom().insert(aid@));
        }
        Ok(record)
    }

    /// Allocates the smallest free variant of `base` and records it, so
    /// no id is ever handed out twice, archived ones included.
    pub fn allocate(&mut self, base: &str) -> (id: AgentId)
        requires
            old(self).wf(),
            old(self).id_count() < usize::MAX,
        ensures
            final(self).wf(),
            !old(self).ids().contains(id@),
            exists|n: nat| 1 <= n && id@ == variant(base@, n)
                && (forall|k: nat| 1 <= k < n ==> old(self).ids().contains(#[trigger] variant(base@, k))),
            final(self).ids() == old(self).ids().insert(id@),
            final(self).id_count() <= old(self).id_count() + 1,
            final(self).nodes() == old(self).nodes(),
            final(self).size() == old(self).size(),
            final(self).waits() == old(self).waits(),
    {
        let id = free_variant(base, &self.all_ids);
        proof {
            self.lemma_ids(id@);
            assert forall|x: Seq<char>| in_ids(self.all_ids@, x) implies self.ids().contains(x) by {
                self.lemma_ids(x);
            }
        }
        self.add_id(id.clone());
        id
    }

    /// Whether an app event can be forwarded to `aid`'s priority channel.
    pub fn forward_target(&self, aid: &AgentId) -> (r: Result<(), AgentError>)
        requires
            self.wf(),
        ensures
            !self.nodes().contains_key(aid@) ==> is_err(r, AgentErrorView::Unreachable(aid@)),
            self.nodes().contains_key(aid@) && self.nodes()[aid@].status == NodeStatus::Dead
                ==> is_err(r, AgentErrorView::Dead(aid@)),
            self.nodes().contains_key(aid@) && self.nodes()[aid@].status != NodeStatus::Dead && !self.nodes()[aid@].user_tx
                ==> is_err(r, AgentErrorView::NotAttached(aid@)),
            r is Ok <==> (self.nodes().contains_key(aid@) && self.nodes()[aid@].status != NodeStatus::Dead
                && self.nodes()[aid@].user_tx),
    {
        match find(&self.graph, aid) {
            None => Err(AgentError::Unreachable(aid.clone())),
            Some(i) => {
                if self.graph[i].1.status == NodeStatus::Dead {
                    Err(AgentError::Dead(aid.clone()))
                } else if !self.graph[i].1.user_tx {
                    Err(AgentError::NotAttached(aid.clone()))
                } else {
                    Ok(())
                }
            },
        }
    }

    /// How many ids were ever allocated (the bound `allocate` and
    /// `handle_spawn` need to stay under).
    pub fn allocated_count(&self) -> (n: usize)
        ensures
            n == self.id_count(),
    {
        self.all_ids.len()
    }

    /// How many messages were delivered to `aid`, if it is in the graph.
    pub fn delivered_count(&self, aid: &AgentId) -> (n: Option<u64>)
        requires
            self.wf(),
        ensures
            match n {
                Some(d) => self.nodes().contains_key(aid@) && d == self.nodes()[aid@].delivered,
                None => !self.nodes().contains_key(aid@),
            },
    {
        match find(&self.graph, aid) {
            None => None,
            Some(i) => Some(self.graph[i].1.delivered),
        }
    }

    /// Commits a one-more delivery to the `i`-th node.
    pub(super) fn commit_delivery(&mut self, i: usize)
        requires
            old(self).wf(),
            i < old(self).size(),
            old(self).graph@[i as int].1.delivered < u64::MAX,
        ensures
            final(self).wf(),
            final(self).ids() == old(self).ids(),
            final(self).size() == old(self).size(),
            final(self).waits() == old(self).waits(),
            final(self).nodes() == old(self).nodes().insert(
                old(self).graph@[i as int].0@, delivered_node(old(self).graph@[i as int].1@)),
    {
        let mut node = self.graph[i].1.copy();
        node.delivered = node.delivered + 1;
        if node.status == NodeStatus::Idle {
            node.status = NodeStatus::Running;
        }
        self.put_node(i, node);
    }

    /// Applies what the non-blocking send of a forwarded app event into
    /// `aid`'s priority channel returned.
    pub fn forward_done(&mut self, aid: &AgentId, outcome: SendOutcome, actions: &mut Vec<Action>) -> (r: Result<(), AgentError>)
        requires
            old(self).wf(),
            old(self).nodes().contains_key(aid@),
            old(self).nodes()[aid@].status != NodeStatus::Dead,
            old(self).nodes()[aid@].user_tx,
            old(self).nodes()[aid@].delivered < u64::MAX,
        ensures
            final(self).wf(),
            final(self).ids() == old(self).ids(),
            ({
                let m = old(self).nodes();
                match outcome {
                    SendOutcome::Delivered => {
                        &&& r is Ok
                        &&& final(self).nodes() == m.insert(aid@, delivered_node(m[aid@]))
                        &&& final(self).waits() == old(self).waits()
                        &&& final(actions)@ == old(actions)@
                    },
                    SendOutcome::Full => {
                        &&& is_err(r, AgentErrorView::MailboxFull(aid@))
                        &&& final(self).nodes() == m
                        &&& final(self).waits() == old(self).waits()
                        &&& final(actions)@ == old(actions)@
                    },
                    SendOutcome::Closed => {
                        let n = dead_node(m[aid@], "agent runtime mailbox closed"@);
                        &&& is_err(r, AgentErrorView::Unreachable(aid@))
                        &&& final(self).nodes() == m.insert(aid@, n)
                        &&& final(self).waits() == remaining(old(self).waits(), aid@)
                        &&& actions_view(final(actions)@) == actions_view(old(actions)@)
                            + (if m[aid@].abort { seq![ActionView::Abort(aid@)] } else { Seq::empty() })
                            + fired(old(self).waits(), aid@, Ok(wait_view(n)))
                    },
                }
            }),
    {
        match outcome {
            SendOutcome::Delivered => {
                let i = find(&self.graph, aid).unwrap();
                self.commit_delivery(i);
                Ok(())
            },
            SendOutcome::Full => Err(AgentError::MailboxFull(aid.clone())),
            SendOutcome::Closed => {
                proof { reveal_strlit("agent runtime mailbox closed"); }
                self.fail_runtime(aid, String::from_str("agent runtime mailbox closed"), true, actions);
                Err(AgentError::Unreachable(aid.clone()))
            },
        }
    }

    /// Applies a liveness ping. A dead node never accepts a late ping; an
    /// idle node answers its waiters.
    pub fn handle_status(&mut self, aid: &AgentId, ping: StatusPing, actions: &mut Vec<Action>)
        requires
            old(self).wf(),
        ensures
            final(self).wf(),
            final(self).ids() == old(self).ids(),
            final(self).nodes() == after_ping(old(self).nodes(), aid@, ping@),
            ({
                let m = old(self).nodes();
                if !m.contains_key(aid@) || m[aid@].status == NodeStatus::Dead {
                    &&& final(self).nodes() == m
                    &&& final(self).waits() == old(self).waits()
                    &&& final(actions)@ == old(actions)@
                } else {
                    let n = pinged_node(m[aid@], ping@);
                    &&& final(self).nodes() == m.insert(aid@, n)
                    &&& n.status == NodeStatus::Idle ==> {
                        &&& final(self).waits() == remaining(old(self).waits(), aid@)
                        &&& actions_view(final(actions)@) == actions_view(old(actions)@)
                            + fired(old(self).waits(), aid@, Ok(wait_view(n)))
                    }
                    &&& n.status != NodeStatus::Idle ==> {
                        &&& final(self).waits() == old(self).waits()
                        &&& final(actions)@ == old(actions)@
                    }
                }
            }),
    {
        match find(&self.graph, aid) {
            None => {},
            Some(i) => {
                if self.graph[i].1.status == NodeStatus::Dead {
                    return;
                }
                let mut node = self.graph[i].1.copy();
                let StatusPing { processed, status, outcome } = ping;
                node.processed = processed;
                if outcome.output.is_some() {
                    node.outcome.output = outcome.output;
                }
                node.outcome.error = outcome.error;
                node.status = if status == NodeStatus::Idle && node.processed < node.delivered {
                    NodeStatus::Running
                } else {
                    status
                };
                let idle = node.status == NodeStatus::Idle;
                let result = Ok(node.wait_result());
                self.put_node(i, node);
                if idle {
                    self.fire_waiters(aid, &result, actions);
                }
            },
        }
    }

    /// Attaches a runtime's channels and kill switch, once per node.
    pub fn attach_runtime(&mut self, aid: &AgentId) -> (r: Result<(), AgentError>)
        requires
            old(self).wf(),
        ensures
            final(self).wf(),
            final(self).ids() == old(self).ids(),
            final(self).waits() == old(self).waits(),
            ({
                let m = old(self).nodes();
                if !m.contains_key(aid@) {
                    is_err(r, AgentErrorView::Unreachable(aid@)) && final(self).nodes() == m
                } else if m[aid@].status == NodeStatus::Dead {
                    is_err(r, AgentErrorView::Dead(aid@)) && final(self).nodes() == m
                } else if m[aid@].abort {
                    is_err(r, AgentErrorView::AlreadyAttached(aid@)) && final(self).nodes() == m
                } else {
                    r is Ok && final(self).nodes() == m.insert(aid@, attached_node(m[aid@]))
                }
            }),
            r is Ok ==> {
                &&& final(self).nodes().contains_key(aid@)
                &&& final(self).nodes()[aid@].mailbox
                &&& final(self).nodes()[aid@].user_tx
                &&& final(self).nodes()[aid@].abort
                &&& final(self).nodes()[aid@].status == old(self).nodes()[aid@].status
                &&& final(self).nodes()[aid@].root == old(self).nodes()[aid@].root
                &&& final(self).nodes()[aid@].parent == old(self).nodes()[aid@].parent
                &&& final(self).nodes().dom() == old(self).nodes().dom()
                &&& forall|k: Seq<char>| k != aid@ && old(self).nodes().contains_key(k)
                    ==> #[trigger] final(self).nodes()[k] == old(self).nodes()[k]
            },
            r is Err ==> final(self).nodes() == old(self).nodes(),
            r is Ok ==> forall|caller: Seq<char>| #[trigger] same_tab_spec(old(self).nodes(), caller, aid@) ==> {
                &&& same_tab_spec(final(self).nodes(), caller, aid@)
                &&& final(self).nodes()[aid@].status != NodeStatus::Dead
                &&& final(self).nodes()[aid@].mailbox
            },
    {
        match find(&self.graph, aid) {
            None => Err(AgentError::Unreachable(aid.clone())),
            Some(i) => {
                if self.graph[i].1.status == NodeStatus::Dead {
                    return Err(AgentError::Dead(aid.clone()));
                }
                if self.graph[i].1.abort {
                    return Err(AgentError::AlreadyAttached(aid.clone()));
                }
                let mut node = self.graph[i].1.copy();
                node.mailbox = true;
                node.user_tx = true;
                node.abort = true;
                self.put_node(i, node);
                Ok(())
            },
        }
    }

    /// Terminal report from the runtime supervisor (no abort: the runtime
    /// is already gone).
    pub fn handle_runtime_down(&mut self, aid: &AgentId, error: String, actions: &mut Vec<Action>)
        requires
            old(self).wf(),
        ensures
            final(self).wf(),
            final(self).ids() == old(self).ids(),
            final(self).nodes() == after_down(old(self).nodes(), aid@, error@),
            ({
                let m = old(self).nodes();
                if !m.contains_key(aid@) || m[aid@].status == NodeStatus::Dead {
                    &&& final(self).nodes() == m
                    &&& final(self).waits() == old(self).waits()
                    &&& final(actions)@ == old(actions)@
                } else {
                    let n = dead_node(m[aid@], error@);
                    &&& final(self).nodes() == m.insert(aid@, n)
                    &&& final(self).waits() == remaining(old(self).waits(), aid@)
                    &&& actions_view(final(actions)@) == actions_view(old(actions)@)
                        + fired(old(self).waits(), aid@, Ok(wait_view(n)))
                }
            }),
    {
        self.fail_runtime(aid, error, false, actions);
        proof {
            assert(Seq::<ActionView>::empty() + Seq::<ActionView>::empty() =~= Seq::<ActionView>::empty());
        }
    }
}

impl AgentRouter {
    /// Takes the first candidate that was never allocated; fails when every
    /// candidate collides.
    pub fn handle_allocate(&mut self, candidates: Vec<AgentId>) -> (r: Result<AgentId, AgentError>)
        requires
            old(self).wf(),
        ensures
            final(self).wf(),
            final(self).nodes() == old(self).nodes(),
            final(self).waits() == old(self).waits(),
            final(self).id_count() <= old(self).id_count() + 1,
            match r {
                Ok(id) => {
                    &&& exists|i: int| 0 <= i < candidates@.len() && candidates@[i]@ == id@
                        && forall|j: int| 0 <= j < i ==> old(self).ids().contains(#[trigger] candidates@[j]@)
                    &&& !old(self).ids().contains(id@)
                    &&& final(self).ids() == old(self).ids().insert(id@)
                },
                Err(e) => {
                    &&& e@ == AgentErrorView::Collisions
                    &&& forall|j: int| 0 <= j < candidates@.len() ==> old(self).ids().contains(#[trigger] candidates@[j]@)
                    &&& final(self).ids() == old(self).ids()
                },
            },
    {
        let mut i: usize = 0;
        while i < candidates.len()
            invariant
                self.wf(),
                self.ids() == old(self).ids(),
                self.graph == old(self).graph,
                self.waiters == old(self).waiters,
                self.all_ids == old(self).all_ids,
                i <= candidates@.len(),
                forall|j: int| 0 <= j < i ==> old(self).ids().contains(#[trigger] candidates@[j]@),
            decreases candidates@.len() - i,
        {
            proof { self.lemma_ids(candidates@[i as int]@); }
            if !super::contains_id(&self.all_ids, &candidates[i]) {
                let id = candidates[i].clone();
                self.add_id(id.clone());
                return Ok(id);
            }
            i = i + 1;
        }
        Err(AgentError::Collisions)
    }

    /// Allocates an id from freshly generated random names.
    pub fn allocate_agent_id(&mut self) -> (r: Result<AgentId, AgentError>)
        requires
            old(self).wf(),
        ensures
            final(self).wf(),
            final(self).nodes() == old(self).nodes(),
            final(self).waits() == old(self).waits(),
            match r {
                Ok(id) => {
                    &&& !old(self).ids().contains(id@)
                    &&& final(self).ids() == old(self).ids().insert(id@)
                    &&& is_petname(id@, WORDS as nat, SEPARATOR@)
                },
                Err(e) => e@ == AgentErrorView::Collisions && final(self).ids() == old(self).ids(),
            },
    {
        self.handle_allocate(AgentId::generate())
    }
}

} // verus!
