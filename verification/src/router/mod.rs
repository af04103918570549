//! The agent router: the live agent graph, id allocation, inter-agent
//! delivery, `wait` registration and subtree archival. Every handler is a
//! step from the router state and a command to the next state and the
//! actions the caller performs on the runtimes (abort a runtime, answer a
//! parked `wait`).

pub mod archive;
pub mod graph;
pub mod list;
pub mod peer;
pub mod restore;
pub mod runtime;
pub mod spawn;
pub mod wait;
pub mod types;

use crate::id::AgentId;
use crate::text::{concat3, decimal, decimal_string, lemma_decimal_injective, lemma_decimal_value};
use graph::{find, gmap, has_key, keys_unique, lemma_gmap_index, lemma_gmap_remove, lemma_gmap_update};
use types::{AgentNode, NodeStatus, NodeView, RouterError, WaitResult, WaitView, reply_view, clone_reply, wait_view};
use graph::lemma_gmap_dom;
use vstd::prelude::*;

verus! {

/// Per-tab limit on live agents.
pub const TAB_AGENT_CAP: usize = 32;

/// A parked `wait`: `caller` waits for `target`; `token` names the reply
/// channel the caller keeps.
#[derive(Debug)]
pub struct Waiter {
    pub caller: AgentId,
    pub target: AgentId,
    pub token: u64,
}

/// Mathematical view of a [`Waiter`].
pub struct WaiterView {
    pub caller: Seq<char>,
    pub target: Seq<char>,
    pub token: u64,
}

impl View for Waiter {
    type V = WaiterView;

    open spec fn view(&self) -> WaiterView {
        WaiterView { caller: self.caller@, target: self.target@, token: self.token }
    }
}

/// What the caller performs after a router step, in order.
#[derive(Debug)]
pub enum Action {
    /// abort the agent's runtime through its kill switch
    Abort(AgentId),
    /// answer the parked `wait` whose reply channel is `token`
    Reply { token: u64, result: Result<WaitResult, RouterError> },
}

/// Mathematical view of an [`Action`].
pub enum ActionView {
    Abort(Seq<char>),
    Reply(u64, Result<WaitView, RouterError>),
}

impl View for Action {
    type V = ActionView;

    open spec fn view(&self) -> ActionView {
        match self {
            Action::Abort(a) => ActionView::Abort(a@),
            Action::Reply { token, result } => ActionView::Reply(*token, reply_view(*result)),
        }
    }
}

/// The views of a sequence of actions.
pub open spec fn actions_view(a: Seq<Action>) -> Seq<ActionView> {
    a.map_values(|x: Action| x@)
}

/// The views of a sequence of waiters.
pub open spec fn waiters_view(w: Seq<Waiter>) -> Seq<WaiterView> {
    w.map_values(|x: Waiter| x@)
}

/// The waiters that do not wait for `aid`, in order.
pub open spec fn remaining(ws: Seq<WaiterView>, aid: Seq<char>) -> Seq<WaiterView>
    decreases ws.len(),
{
    if ws.len() == 0 {
        ws
    } else if ws.last().target == aid {
        remaining(ws.drop_last(), aid)
    } else {
        remaining(ws.drop_last(), aid).push(ws.last())
    }
}

/// The replies that answer every waiter of `aid` with `r`, in order.
pub open spec fn fired(ws: Seq<WaiterView>, aid: Seq<char>, r: Result<WaitView, RouterError>) -> Seq<ActionView>
    decreases ws.len(),
{
    if ws.len() == 0 {
        Seq::empty()
    } else if ws.last().target == aid {
        fired(ws.drop_last(), aid, r).push(ActionView::Reply(ws.last().token, r))
    } else {
        fired(ws.drop_last(), aid, r)
    }
}

/// Answering a target's waiters answers each of them exactly once and
/// keeps every other wait parked: the replies and the waits left add up to
/// the waits there were, each reply carries the token of a waiter of the
/// target, and no wait left is one of its waiters.
pub proof fn lemma_firing_answers_each_waiter_once(ws: Seq<WaiterView>, aid: Seq<char>, r: Result<WaitView, RouterError>)
    ensures
        fired(ws, aid, r).len() + remaining(ws, aid).len() == ws.len(),
        forall|i: int| 0 <= i < fired(ws, aid, r).len() ==> exists|j: int| 0 <= j < ws.len()
            && ws[j].target == aid && #[trigger] fired(ws, aid, r)[i] == ActionView::Reply(ws[j].token, r),
        forall|i: int| 0 <= i < remaining(ws, aid).len() ==> (#[trigger] remaining(ws, aid)[i]).target != aid,
    decreases ws.len(),
{
    if ws.len() > 0 {
        let d = ws.drop_last();
        lemma_firing_answers_each_waiter_once(d, aid, r);
        let f = fired(ws, aid, r);
        let fd = fired(d, aid, r);
        let rm = remaining(ws, aid);
        let rd = remaining(d, aid);
        if ws.last().target == aid {
            assert(f == fd.push(ActionView::Reply(ws.last().token, r)));
            assert(rm == rd);
            assert forall|i: int| 0 <= i < f.len() implies exists|j: int| 0 <= j < ws.len()
                && ws[j].target == aid && #[trigger] f[i] == ActionView::Reply(ws[j].token, r) by {
                if i < fd.len() {
                    assert(f[i] == fd[i]);
                    let j = choose|j: int| 0 <= j < d.len() && d[j].target == aid && fd[i] == ActionView::Reply(d[j].token, r);
                    assert(ws[j] == d[j]);
                } else {
                    assert(f[i] == ActionView::Reply(ws[ws.len() - 1].token, r));
                }
            }
            assert forall|i: int| 0 <= i < rm.len() implies (#[trigger] rm[i]).target != aid by {
                assert(rd[i].target != aid);
            }
        } else {
            assert(f == fd);
            assert(rm == rd.push(ws.last()));
            assert forall|i: int| 0 <= i < f.len() implies exists|j: int| 0 <= j < ws.len()
                && ws[j].target == aid && #[trigger] f[i] == ActionView::Reply(ws[j].token, r) by {
                let j = choose|j: int| 0 <= j < d.len() && d[j].target == aid && fd[i] == ActionView::Reply(d[j].token, r);
                assert(ws[j] == d[j]);
            }
            assert forall|i: int| 0 <= i < rm.len() implies (#[trigger] rm[i]).target != aid by {
                if i < rd.len() {
                    assert(rm[i] == rd[i]);
                    assert(rd[i].target != aid);
                }
            }
        }
    }
}

/// Bounded walk up parent edges: `id` is `anc` or reaches it within `fuel`
/// parent steps through nodes of `m`.
pub open spec fn desc(m: Map<Seq<char>, NodeView>, id: Seq<char>, anc: Seq<char>, fuel: nat) -> bool
    decreases fuel,
{
    if id == anc {
        true
    } else if fuel == 0 {
        false
    } else if m.contains_key(id) {
        match m[id].parent {
            Some(p) => desc(m, p, anc, (fuel - 1) as nat),
            None => false,
        }
    } else {
        false
    }
}

/// The node a caller can reach: both are live and share a root (a tab).
pub open spec fn same_tab_spec(m: Map<Seq<char>, NodeView>, caller: Seq<char>, target: Seq<char>) -> bool {
    &&& m.contains_key(caller)
    &&& m.contains_key(target)
    &&& m[target].root == m[caller].root
}

/// The node after its runtime failed for good.
pub open spec fn dead_node(n: NodeView, error: Seq<char>) -> NodeView {
    NodeView {
        mailbox: false,
        user_tx: false,
        abort: false,
        status: NodeStatus::Dead,
        outcome: types::OutcomeView { error: Some(error), ..n.outcome },
        ..n
    }
}

/// The router's state: live nodes, every id ever allocated, parked waits.
pub struct AgentRouter {
    graph: Vec<(AgentId, AgentNode)>,
    all_ids: Vec<AgentId>,
    waiters: Vec<Waiter>,
}

impl AgentRouter {
    /// Live nodes by id.
    pub closed spec fn nodes(&self) -> Map<Seq<char>, NodeView> {
        gmap(self.graph@)
    }

    /// Number of live nodes.
    pub closed spec fn size(&self) -> nat {
        self.graph@.len()
    }

    /// Every allocated id, archived ones included.
    pub closed spec fn ids(&self) -> Set<Seq<char>> {
        self.all_ids@.map_values(|a: AgentId| a@).to_set()
    }

    /// Parked waits in registration order.
    pub closed spec fn waits(&self) -> Seq<WaiterView> {
        waiters_view(self.waiters@)
    }

    /// Ids are unique and every live node's id is allocated.
    pub closed spec fn wf(&self) -> bool {
        &&& keys_unique(self.graph@)
        &&& forall|k: Seq<char>| #[trigger] self.nodes().contains_key(k) ==> self.ids().contains(k)
        &&& self.nodes().dom().finite()
        &&& self.nodes().dom().len() == self.size()
    }

    /// `id` is `ancestor` or a spawn-descendant of it.
    pub open spec fn descends_spec(&self, id: Seq<char>, ancestor: Seq<char>) -> bool {
        desc(self.nodes(), id, ancestor, self.size())
    }

    /// A router with no nodes, ids or waits.
    pub fn empty() -> (r: Self)
        ensures
            r.wf(),
            r.nodes() == Map::<Seq<char>, NodeView>::empty(),
            r.ids() == Set::<Seq<char>>::empty(),
            r.waits() == Seq::<WaiterView>::empty(),
    {
        let r = AgentRouter { graph: Vec::new(), all_ids: Vec::new(), waiters: Vec::new() };
        proof {
            assert(r.all_ids@.map_values(|a: AgentId| a@) =~= Seq::<Seq<char>>::empty());
            assert(r.ids() =~= Set::<Seq<char>>::empty());
            assert(r.nodes() =~= Map::<Seq<char>, NodeView>::empty());
            assert(r.waits() =~= Seq::<WaiterView>::empty());
        }
        r
    }

    /// The caller's target node, if both are live in one tab.
    pub fn same_tab(&self, caller: &AgentId, target: &AgentId) -> (r: Option<usize>)
        requires
            self.wf(),
        ensures
            r is Some <==> same_tab_spec(self.nodes(), caller@, target@),
            r matches Some(i) ==> i < self.size() && self.entry_at(i as int).0@ == target@
                && self.entry_at(i as int).1@ == self.nodes()[target@],
    {
        proof { self.reveal_entries(); }
        let c = find(&self.graph, caller);
        match c {
            None => None,
            Some(ci) => {
                let t = find(&self.graph, target);
                match t {
                    None => None,
                    Some(ti) => {
                        if self.graph[ti].1.root.same(&self.graph[ci].1.root) {
                            Some(ti)
                        } else {
                            None
                        }
                    },
                }
            },
        }
    }

    /// The `i`-th entry of the graph.
    pub closed spec fn entry_at(&self, i: int) -> (AgentId, AgentNode) {
        self.graph@[i]
    }

    proof fn reveal_entries(&self)
        requires
            self.wf(),
        ensures
            forall|i: int| 0 <= i < self.size() ==> #[trigger] self.entry_at(i) == self.graph@[i],
            forall|i: int| 0 <= i < self.size() ==> self.nodes().contains_key(#[trigger] self.graph@[i].0@)
                && self.nodes()[self.graph@[i].0@] == self.graph@[i].1@,
    {
        assert forall|i: int| 0 <= i < self.size() implies self.nodes().contains_key(#[trigger] self.graph@[i].0@)
            && self.nodes()[self.graph@[i].0@] == self.graph@[i].1@ by {
            lemma_gmap_index(self.graph@, i);
        }
    }

    /// The reply tokens of the parked waits, in registration order (the
    /// order in which `handle_wait` expects their listening flags).
    pub fn wait_tokens(&self) -> (r: Vec<u64>)
        ensures
            r@.len() == self.waits().len(),
            forall|i: int| 0 <= i < r@.len() ==> r@[i] == #[trigger] self.waits()[i].token,
    {
        let mut r: Vec<u64> = Vec::new();
        let mut i: usize = 0;
        while i < self.waiters.len()
            invariant
                i <= self.waiters@.len(),
                r@.len() == i,
                forall|j: int| 0 <= j < i ==> r@[j] == #[trigger] self.waiters@[j].token,
            decreases self.waiters@.len() - i,
        {
            r.push(self.waiters[i].token);
            i = i + 1;
        }
        proof {
            assert forall|j: int| 0 <= j < r@.len() implies r@[j] == #[trigger] self.waits()[j].token by {
                assert(self.waits()[j] == self.waiters@[j]@);
            }
        }
        r
    }

    /// `id` is `ancestor` or reaches it by walking parent edges up.
    pub fn descends(&self, id: &AgentId, ancestor: &AgentId) -> (r: bool)
        requires
            self.wf(),
        ensures
            r == self.descends_spec(id@, ancestor@),
    {
        let mut cur = id.clone();
        let mut fuel = self.graph.len();
        loop
            invariant
                self.wf(),
                desc(self.nodes(), id@, ancestor@, self.size()) == desc(self.nodes(), cur@, ancestor@, fuel as nat),
            decreases fuel,
        {
            if cur.same(ancestor) {
                return true;
            }
            if fuel == 0 {
                return false;
            }
            match find(&self.graph, &cur) {
                None => {
                    return false;
                },
                Some(i) => {
                    match &self.graph[i].1.parent {
                        Some(p) => {
                            cur = p.clone();
                            fuel = fuel - 1;
                        },
                        None => {
                            return false;
                        },
                    }
                },
            }
        }
    }

    /// Answers every parked wait on `aid` with `result`, dropping them.
    fn fire_waiters(&mut self, aid: &AgentId, result: &Result<WaitResult, RouterError>, actions: &mut Vec<Action>)
        ensures
            final(self).graph == old(self).graph,
            final(self).all_ids == old(self).all_ids,
            final(self).nodes() == old(self).nodes(),
            final(self).size() == old(self).size(),
            final(self).ids() == old(self).ids(),
            final(self).wf() == old(self).wf(),
            final(self).waits() == remaining(old(self).waits(), aid@),
            actions_view(final(actions)@) == actions_view(old(actions)@) + fired(old(self).waits(), aid@, reply_view(*result)),
    {
        let ghost ws = self.waits();
        let ghost a0 = actions_view(actions@);
        let mut kept: Vec<Waiter> = Vec::new();
        let mut i: usize = 0;
        while i < self.waiters.len()
            invariant
                i <= self.waiters@.len(),
                ws == waiters_view(self.waiters@),
                waiters_view(kept@) == remaining(ws.take(i as int), aid@),
                actions_view(actions@) == a0 + fired(ws.take(i as int), aid@, reply_view(*result)),
            decreases self.waiters@.len() - i,
        {
            let w = &self.waiters[i];
            proof {
                assert(ws.take(i + 1).drop_last() =~= ws.take(i as int));
                assert(ws.take(i + 1).last() == w@);
            }
            if w.target.same(aid) {
                let ghost before = actions@;
                actions.push(Action::Reply { token: w.token, result: clone_reply(result) });
                proof {
                    assert(actions_view(actions@) =~= actions_view(before).push(
                        ActionView::Reply(w.token, reply_view(*result))));
                }
            } else {
                let ghost before = kept@;
                kept.push(w.copy());
                proof {
                    assert(waiters_view(kept@) =~= waiters_view(before).push(w@));
                }
            }
            i = i + 1;
        }
        proof {
            assert(ws.take(i as int) =~= ws);
        }
        self.waiters = kept;
    }
}

impl AgentRouter {
    /// Replaces the node of the `i`-th entry, keeping its id.
    fn put_node(&mut self, i: usize, node: AgentNode)
        requires
            old(self).wf(),
            i < old(self).size(),
        ensures
            final(self).wf(),
            final(self).size() == old(self).size(),
            final(self).graph@.len() == old(self).graph@.len(),
            final(self).graph@[i as int].0 == old(self).graph@[i as int].0,
            final(self).nodes() == old(self).nodes().insert(old(self).graph@[i as int].0@, node@),
            final(self).all_ids == old(self).all_ids,
            final(self).ids() == old(self).ids(),
            final(self).waiters == old(self).waiters,
            final(self).waits() == old(self).waits(),
    {
        let ghost g0 = self.graph@;
        let (id, _old_node) = self.graph.remove(i);
        let ghost e = (id, node);
        self.graph.insert(i, (id, node));
        proof {
            assert(self.graph@ =~= g0.update(i as int, e));
            lemma_gmap_update(g0, i as int, e);
            lemma_gmap_index(g0, i as int);
            assert(self.nodes().dom() =~= gmap(g0).dom());
        }
    }

    /// A runtime failure is terminal for this process: the node turns `Dead`
    /// with the error, loses its channels and kill switch, and its waiters
    /// are answered. A node that is already dead keeps its first error.
    fn fail_runtime(&mut self, aid: &AgentId, error: String, abort: bool, actions: &mut Vec<Action>)
        requires
            old(self).wf(),
        ensures
            final(self).wf(),
            final(self).ids() == old(self).ids(),
            final(self).size() == old(self).size(),
            ({
                let m = old(self).nodes();
                if !m.contains_key(aid@) || m[aid@].status == NodeStatus::Dead {
                    &&& final(self).nodes() == m
                    &&& final(self).waits() == old(self).waits()
                    &&& final(actions)@ == old(actions)@
                } else {
                    let n = dead_node(m[aid@], error@);
                    &&& final(self).nodes() == m.insert(aid@, n)
                    &&& final(self).waits() == remaining(old(self).waits(), aid@)
                    &&& actions_view(final(actions)@) == actions_view(old(actions)@)
                        + (if m[aid@].abort && abort { seq![ActionView::Abort(aid@)] } else { Seq::empty() })
                        + fired(old(self).waits(), aid@, Ok(wait_view(n)))
                }
            }),
    {
        match find(&self.graph, aid) {
            None => {},
            Some(i) => {
                if self.graph[i].1.status == NodeStatus::Dead {
                    return;
                }
                let had_abort = self.graph[i].1.abort;
                let mut node = self.graph[i].1.copy();
                node.abort = false;
                node.mailbox = false;
                node.user_tx = false;
                node.status = NodeStatus::Dead;
                node.outcome.error = Some(error);
                let result = Ok(node.wait_result());
                self.put_node(i, node);
                let ghost a1 = actions@;
                if had_abort && abort {
                    actions.push(Action::Abort(aid.clone()));
                }
                proof {
                    assert(actions_view(actions@) =~= actions_view(a1)
                        + (if had_abort && abort { seq![ActionView::Abort(aid@)] } else { Seq::empty() }));
                }
                self.fire_waiters(aid, &result, actions);
            },
        }
    }
}

impl Waiter {
    /// A copy of this waiter.
    pub fn copy(&self) -> (w: Waiter)
        ensures
            w@ == self@,
    {
        Waiter { caller: self.caller.clone(), target: self.target.clone(), token: self.token }
    }
}

/// The `n`-th name variant of `base`: `base`, `base-2`, `base-3`, ...
pub open spec fn variant(base: Seq<char>, n: nat) -> Seq<char> {
    if n <= 1 {
        base
    } else {
        base + "-"@ + decimal(n)
    }
}

/// Some id in `ids` has text `x`.
pub open spec fn in_ids(ids: Seq<AgentId>, x: Seq<char>) -> bool {
    exists|j: int| 0 <= j < ids.len() && ids[j]@ == x
}

proof fn lemma_variant_injective(base: Seq<char>, j: nat, k: nat)
    requires
        1 <= j,
        1 <= k,
        variant(base, j) == variant(base, k),
    ensures
        j == k,
{
    reveal_strlit("-");
    if j > 1 {
        lemma_decimal_value(j);
    }
    if k > 1 {
        lemma_decimal_value(k);
    }
    if j > 1 && k > 1 {
        let p = base + "-"@;
        assert(variant(base, j) == p + decimal(j));
        assert(variant(base, k) == p + decimal(k));
        assert(decimal(j) =~= (p + decimal(j)).subrange(p.len() as int, (p + decimal(j)).len() as int));
        assert(decimal(k) =~= (p + decimal(k)).subrange(p.len() as int, (p + decimal(k)).len() as int));
        lemma_decimal_injective(j, k);
    } else if j > 1 {
        assert(variant(base, j).len() > base.len());
    } else if k > 1 {
        assert(variant(base, k).len() > base.len());
    }
}

fn contains_id(ids: &Vec<AgentId>, x: &AgentId) -> (r: bool)
    ensures
        r == in_ids(ids@, x@),
{
    let mut j: usize = 0;
    while j < ids.len()
        invariant
            j <= ids@.len(),
            forall|t: int| 0 <= t < j ==> ids@[t]@ != x@,
        decreases ids@.len() - j,
    {
        if ids[j].same(x) {
            return true;
        }
        j = j + 1;
    }
    false
}

/// The smallest free variant of `base` — `base`, `base-2`, `base-3`, … —
/// so allocation is collision-free and never reuses a taken id.
pub fn free_variant(base: &str, taken: &Vec<AgentId>) -> (id: AgentId)
    requires
        taken@.len() < usize::MAX,
    ensures
        exists|n: nat| 1 <= n && id@ == variant(base@, n) && (forall|k: nat| 1 <= k < n ==> in_ids(taken@, #[trigger] variant(base@, k))),
        !in_ids(taken@, id@),
{
    let ghost tset = taken@.map_values(|a: AgentId| a@).to_set();
    let ghost mut seen: Set<Seq<char>> = Set::empty();
    proof {
        taken@.map_values(|a: AgentId| a@).lemma_cardinality_of_set();
    }
    let mut n: usize = 1;
    loop
        invariant
            1 <= n <= taken@.len() + 1,
            taken@.len() < usize::MAX,
            tset == taken@.map_values(|a: AgentId| a@).to_set(),
            tset.finite(),
            tset.len() <= taken@.len(),
            seen.finite(),
            seen.len() == n - 1,
            seen.subset_of(tset),
            forall|x: Seq<char>| seen.contains(x) ==> exists|k: nat| 1 <= k < n && x == #[trigger] variant(base@, k),
            forall|k: nat| 1 <= k < n ==> in_ids(taken@, #[trigger] variant(base@, k)),
        decreases taken@.len() + 1 - n,
    {
        let candidate = if n == 1 {
            String::from_str(base)
        } else {
            let d = decimal_string(n as u64);
            concat3(base, "-", d.as_str())
        };
        proof {
            reveal_strlit("-");
        }
        assert(candidate@ == variant(base@, n as nat));
        let id = AgentId::new(candidate);
        if !contains_id(taken, &id) {
            return id;
        }
        proof {
            let v = variant(base@, n as nat);
            let j = choose|j: int| 0 <= j < taken@.len() && taken@[j]@ == v;
            assert(taken@.map_values(|a: AgentId| a@)[j] == v);
            assert(tset.contains(v));
            if seen.contains(v) {
                let k = choose|k: nat| 1 <= k < n && v == #[trigger] variant(base@, k);
                lemma_variant_injective(base@, k, n as nat);
            }
            let s2 = seen.insert(v);
            vstd::set_lib::lemma_len_subset(s2, tset);
            seen = s2;
            assert(n <= taken@.len());
        }
        n = n + 1;
    }
}

} // verus!
