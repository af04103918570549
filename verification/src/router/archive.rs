//! `archive`: subtree teardown (strict spawn-descendants only) and the
//! whole-tab form used on tab close.

use super::graph::{Entries, gmap, has_key, keys_unique, lemma_gmap_dom, lemma_gmap_index, lemma_gmap_push};
use super::types::{AgentError, AgentErrorView, GraphRecord, NodeView, RecordView, RouterError, is_err, record_view};
use super::{Action, ActionView, AgentRouter, WaiterView, actions_view, desc, fired, remaining, same_tab_spec};
use crate::id::AgentId;
use vstd::prelude::*;

verus! {

/// The ids of archived records, in order.
pub open spec fn flip_ids(f: Seq<(AgentId, GraphRecord)>) -> Seq<Seq<char>> {
    f.map_values(|e: (AgentId, GraphRecord)| e.0@)
}

/// The waits left after answering the waiters of each of `ids` in turn.
pub open spec fn remaining_all(ws: Seq<WaiterView>, ids: Seq<Seq<char>>) -> Seq<WaiterView>
    decreases ids.len(),
{
    if ids.len() == 0 {
        ws
    } else {
        remaining(remaining_all(ws, ids.drop_last()), ids.last())
    }
}

/// The actions of tearing down each of `ids` in turn: abort its runtime if
/// attached, answer its waiters `Unreachable`.
pub open spec fn teardown(m: Map<Seq<char>, NodeView>, ws: Seq<WaiterView>, ids: Seq<Seq<char>>) -> Seq<ActionView>
    decreases ids.len(),
{
    if ids.len() == 0 {
        Seq::empty()
    } else {
        teardown(m, ws, ids.drop_last())
            + (if m[ids.last()].abort { seq![ActionView::Abort(ids.last())] } else { Seq::empty() })
            + fired(remaining_all(ws, ids.drop_last()), ids.last(), Err(RouterError::Unreachable))
    }
}

/// What an archival of the nodes satisfying `member` does: the members
/// leave the graph, their records flip to archived (ids distinct, exactly
/// the members), their runtimes are aborted and their waiters answered.
pub open spec fn archived(
    old_nodes: Map<Seq<char>, NodeView>,
    old_waits: Seq<WaiterView>,
    old_actions: Seq<ActionView>,
    members: Set<Seq<char>>,
    flips: Seq<(AgentId, GraphRecord)>,
    new_nodes: Map<Seq<char>, NodeView>,
    new_waits: Seq<WaiterView>,
    new_actions: Seq<ActionView>,
) -> bool {
    &&& flip_ids(flips).no_duplicates()
    &&& flip_ids(flips).to_set() == members
    &&& forall|i: int| 0 <= i < flips.len() ==> #[trigger] flips[i].1@ == record_view(old_nodes[flips[i].0@], true)
    &&& new_nodes == old_nodes.remove_keys(members)
    &&& new_waits == remaining_all(old_waits, flip_ids(flips))
    &&& new_actions == old_actions + teardown(old_nodes, old_waits, flip_ids(flips))
}

/// Tearing down `ids` aborts the runtime of each of them whose kill switch
/// is attached.
proof fn lemma_teardown_aborts(m: Map<Seq<char>, NodeView>, ws: Seq<WaiterView>, ids: Seq<Seq<char>>, j: int)
    requires
        0 <= j < ids.len(),
        m[ids[j]].abort,
    ensures
        teardown(m, ws, ids).contains(ActionView::Abort(ids[j])),
    decreases ids.len(),
{
    let prev = teardown(m, ws, ids.drop_last());
    let mid: Seq<ActionView> = if m[ids.last()].abort { seq![ActionView::Abort(ids.last())] } else { Seq::empty() };
    let tail = fired(remaining_all(ws, ids.drop_last()), ids.last(), Err(RouterError::Unreachable));
    assert(teardown(m, ws, ids) == prev + mid + tail);
    if j == ids.len() - 1 {
        assert((prev + mid + tail)[prev.len() as int] == ActionView::Abort(ids[j]));
    } else {
        assert(ids.drop_last()[j] == ids[j]);
        lemma_teardown_aborts(m, ws, ids.drop_last(), j);
        let k = choose|k: int| 0 <= k < prev.len() && prev[k] == ActionView::Abort(ids[j]);
        assert((prev + mid + tail)[k] == prev[k]);
    }
}

/// An archival aborts the runtime of every archived agent whose kill switch
/// is attached: its actions hold `Abort(k)` for each such member `k`.
pub proof fn lemma_archival_aborts_members(
    old_nodes: Map<Seq<char>, NodeView>,
    old_waits: Seq<WaiterView>,
    old_actions: Seq<ActionView>,
    members: Set<Seq<char>>,
    flips: Seq<(AgentId, GraphRecord)>,
    new_nodes: Map<Seq<char>, NodeView>,
    new_waits: Seq<WaiterView>,
    new_actions: Seq<ActionView>,
    k: Seq<char>,
)
    requires
        archived(old_nodes, old_waits, old_actions, members, flips, new_nodes, new_waits, new_actions),
        members.contains(k),
        old_nodes[k].abort,
    ensures
        new_actions.contains(ActionView::Abort(k)),
        !new_nodes.contains_key(k),
{
    let f = flip_ids(flips);
    assert(f.to_set().contains(k));
    let j = choose|j: int| 0 <= j < f.len() && f[j] == k;
    lemma_teardown_aborts(old_nodes, old_waits, f, j);
    let t = teardown(old_nodes, old_waits, f);
    let i = choose|i: int| 0 <= i < t.len() && t[i] == ActionView::Abort(k);
    assert((old_actions + t)[old_actions.len() + i] == t[i]);
}

proof fn lemma_remaining_members(ws: Seq<WaiterView>, aid: Seq<char>)
    ensures
        forall|i: int| 0 <= i < remaining(ws, aid).len() ==> #[trigger] remaining(ws, aid)[i].target != aid
            && ws.contains(remaining(ws, aid)[i]),
    decreases ws.len(),
{
    if ws.len() > 0 {
        let d = ws.drop_last();
        lemma_remaining_members(d, aid);
        let r = remaining(ws, aid);
        assert forall|i: int| 0 <= i < r.len() implies #[trigger] r[i].target != aid && ws.contains(r[i]) by {
            if ws.last().target == aid {
                assert(r == remaining(d, aid));
                assert(remaining(d, aid)[i].target != aid);
                assert(d.contains(r[i]));
                let j = choose|j: int| 0 <= j < d.len() && d[j] == r[i];
                assert(ws[j] == d[j]);
            } else {
                let rd = remaining(d, aid);
                assert(r == rd.push(ws.last()));
                if i < rd.len() {
                    assert(r[i] == rd[i]);
                    assert(remaining(d, aid)[i].target != aid);
                    assert(d.contains(rd[i]));
                    let j = choose|j: int| 0 <= j < d.len() && d[j] == rd[i];
                    assert(ws[j] == d[j]);
                } else {
                    assert(r[i] == ws.last());
                    assert(ws[ws.len() - 1] == ws.last());
                }
            }
        }
    }
}

/// After an archival no parked wait targets an archived agent: every wait
/// left was parked before, and waits for none of the archived ids (their
/// waiters were all answered).
pub proof fn lemma_no_wait_on_archived(ws: Seq<WaiterView>, ids: Seq<Seq<char>>, i: int, j: int)
    requires
        0 <= i < remaining_all(ws, ids).len(),
        0 <= j < ids.len(),
    ensures
        remaining_all(ws, ids)[i].target != ids[j],
        ws.contains(remaining_all(ws, ids)[i]),
    decreases ids.len(),
{
    let prev = remaining_all(ws, ids.drop_last());
    let r = remaining_all(ws, ids);
    assert(r == remaining(prev, ids.last()));
    lemma_remaining_members(prev, ids.last());
    assert(r[i].target != ids.last() && prev.contains(r[i]));
    let k = choose|k: int| 0 <= k < prev.len() && prev[k] == r[i];
    if j < ids.len() - 1 {
        lemma_no_wait_on_archived(ws, ids.drop_last(), k, j);
        assert(ids.drop_last()[j] == ids[j]);
    } else if ids.len() > 1 {
        lemma_no_wait_on_archived(ws, ids.drop_last(), k, 0);
    }
    if ids.len() == 1 {
        assert(prev == ws);
    }
}

/// A unique-key graph has as many map entries as vector entries.
pub proof fn lemma_gmap_len(g: Entries)
    requires
        keys_unique(g),
    ensures
        gmap(g).dom().finite(),
        gmap(g).dom().len() == g.len(),
    decreases g.len(),
{
    if g.len() > 0 {
        let d = g.drop_last();
        assert(keys_unique(d));
        lemma_gmap_len(d);
        lemma_gmap_dom(d, g.last().0@);
        if has_key(d, g.last().0@) {
            let i = choose|i: int| 0 <= i < d.len() && d[i].0@ == g.last().0@;
            assert(g[i].0@ == g[g.len() - 1].0@);
        }
    }
}

impl AgentRouter {
    /// Removes the entries flagged in `flags`, in graph order.
    fn archive_flagged(&mut self, flags: &Vec<bool>, actions: &mut Vec<Action>) -> (flips: Vec<(AgentId, GraphRecord)>)
        requires
            old(self).wf(),
            flags@.len() == old(self).graph@.len(),
        ensures
            final(self).wf(),
            final(self).ids() == old(self).ids(),
            archived(
                old(self).nodes(),
                old(self).waits(),
                actions_view(old(actions)@),
                Set::new(|k: Seq<char>| exists|i: int| 0 <= i < flags@.len() && flags@[i] && old(self).graph@[i].0@ == k),
                flips@,
                final(self).nodes(),
                final(self).waits(),
                actions_view(final(actions)@),
            ),
    {
        let ghost g0 = self.graph@;
        let ghost m0 = self.nodes();
        let ghost w0 = self.waits();
        let ghost a0 = actions_view(actions@);
        let ghost members = Set::new(|k: Seq<char>| exists|i: int| 0 <= i < flags@.len() && flags@[i] && g0[i].0@ == k);
        let mut old_graph: Vec<(AgentId, super::types::AgentNode)> = Vec::new();
        std::mem::swap(&mut old_graph, &mut self.graph);
        let mut flips: Vec<(AgentId, GraphRecord)> = Vec::new();
        let mut i: usize = 0;
        proof {
            assert(flip_ids(flips@) =~= Seq::<Seq<char>>::empty());
            assert(gmap(self.graph@) =~= Map::<Seq<char>, NodeView>::empty());
        }
        while i < old_graph.len()
            invariant
                old_graph@ == g0,
                keys_unique(g0),
                m0 == gmap(g0),
                flags@.len() == g0.len(),
                i <= g0.len(),
                self.all_ids == old(self).all_ids,
                keys_unique(self.graph@),
                forall|k: Seq<char>| #[trigger] gmap(self.graph@).contains_key(k) <==>
                    (exists|t: int| 0 <= t < i && !flags@[t] && g0[t].0@ == k),
                forall|k: Seq<char>| #[trigger] gmap(self.graph@).contains_key(k) ==> gmap(self.graph@)[k] == m0[k],
                forall|t: int| 0 <= t < self.graph@.len() ==> exists|s: int| 0 <= s < i && !flags@[s] && g0[s].0@ == #[trigger] self.graph@[t].0@,
                flip_ids(flips@).no_duplicates(),
                forall|x: Seq<char>| flip_ids(flips@).contains(x) <==>
                    (exists|t: int| 0 <= t < i && flags@[t] && g0[t].0@ == x),
                forall|j: int| 0 <= j < flips@.len() ==> #[trigger] flips@[j].1@ == record_view(m0[flips@[j].0@], true),
                self.waits() == remaining_all(w0, flip_ids(flips@)),
                actions_view(actions@) == a0 + teardown(m0, w0, flip_ids(flips@)),
            decreases g0.len() - i,
        {
            proof {
                lemma_gmap_index(g0, i as int);
            }
            let id = old_graph[i].0.clone();
            let node = old_graph[i].1.copy();
            if flags[i] {
                let ghost f0 = flip_ids(flips@);
                let ghost ab = actions_view(actions@);
                if node.abort {
                    actions.push(Action::Abort(id.clone()));
                }
                proof {
                    assert(actions_view(actions@) =~= ab
                        + (if m0[id@].abort { seq![ActionView::Abort(id@)] } else { Seq::empty() }));
                }
                self.fire_waiters(&id, &Err(RouterError::Unreachable), actions);
                let record = node.record(true);
                let ghost fl0 = flips@;
                let ghost e = (id, record);
                flips.push((id, record));
                proof {
                    assert(flips@ == fl0.push(e));
                    assert(flip_ids(flips@) =~= f0.push(id@));
                    assert(flip_ids(flips@).drop_last() =~= f0);
                    assert(!f0.contains(id@)) by {
                        if f0.contains(id@) {
                            let t = choose|t: int| 0 <= t < i && flags@[t] && g0[t].0@ == id@;
                            assert(g0[t].0@ != g0[i as int].0@);
                        }
                    }
                    let fi = flip_ids(flips@);
                    assert(fi.len() == f0.len() + 1);
                    assert forall|j: int| 0 <= j < f0.len() implies #[trigger] fi[j] == f0[j] by {
                        assert(flips@[j] == fl0[j]);
                    }
                    assert(fi[f0.len() as int] == id@);
                    assert forall|x: Seq<char>| fi.contains(x) implies
                        (exists|t: int| 0 <= t < i + 1 && flags@[t] && g0[t].0@ == x) by {
                        let j = choose|j: int| 0 <= j < fi.len() && fi[j] == x;
                        if j < f0.len() {
                            assert(f0[j] == x);
                            assert(f0.contains(x));
                            let t = choose|t: int| 0 <= t < i && flags@[t] && g0[t].0@ == x;
                            assert(0 <= t < i + 1 && flags@[t] && g0[t].0@ == x);
                        } else {
                            assert(0 <= i < i + 1 && flags@[i as int] && g0[i as int].0@ == x);
                        }
                    }
                    assert forall|x: Seq<char>| (exists|t: int| 0 <= t < i + 1 && flags@[t] && g0[t].0@ == x)
                        implies fi.contains(x) by {
                        let t = choose|t: int| 0 <= t < i + 1 && flags@[t] && g0[t].0@ == x;
                        if t == i {
                            assert(fi[f0.len() as int] == x);
                        } else {
                            assert(exists|t2: int| 0 <= t2 < i && flags@[t2] && g0[t2].0@ == x);
                            assert(f0.contains(x));
                            let j = choose|j: int| 0 <= j < f0.len() && f0[j] == x;
                            assert(fi[j] == x);
                        }
                    }
                    assert forall|j: int| 0 <= j < flips@.len() implies #[trigger] flips@[j].1@ == record_view(m0[flips@[j].0@], true) by {
                        if j < flips@.len() - 1 {
                            assert(flips@[j] == fl0[j]);
                        }
                    }
                }
            } else {
                let ghost gb = self.graph@;
                proof {
                    lemma_gmap_dom(gb, id@);
                    if has_key(gb, id@) {
                        let t0 = choose|t: int| 0 <= t < gb.len() && gb[t].0@ == id@;
                        let s = choose|s: int| 0 <= s < i && !flags@[s] && g0[s].0@ == #[trigger] gb[t0].0@;
                        assert(g0[s].0@ != g0[i as int].0@);
                    }
                    lemma_gmap_push(gb, (id, node));
                }
                self.graph.push((id, node));
                proof {
                    assert forall|t: int| 0 <= t < self.graph@.len() implies exists|s: int| 0 <= s < i + 1 && !flags@[s] && g0[s].0@ == #[trigger] self.graph@[t].0@ by {
                        if t < gb.len() {
                            assert(self.graph@[t] == gb[t]);
                        } else {
                            assert(g0[i as int].0@ == self.graph@[t].0@);
                        }
                    }
                }
            }
            i = i + 1;
        }
        proof {
            assert(self.nodes() =~= m0.remove_keys(members)) by {
                assert forall|k: Seq<char>| #[trigger] self.nodes().contains_key(k) <==> m0.remove_keys(members).contains_key(k) by {
                    lemma_gmap_dom(g0, k);
                    if self.nodes().contains_key(k) {
                        let t = choose|t: int| 0 <= t < i && !flags@[t] && g0[t].0@ == k;
                        if members.contains(k) {
                            let s = choose|s: int| 0 <= s < flags@.len() && flags@[s] && g0[s].0@ == k;
                            assert(s != t);
                        }
                    }
                    if m0.remove_keys(members).contains_key(k) {
                        let t = choose|t: int| 0 <= t < g0.len() && g0[t].0@ == k;
                        assert(!flags@[t]);
                    }
                }
            }
            assert(flip_ids(flips@).to_set() =~= members);
            lemma_gmap_len(self.graph@);
            assert forall|k: Seq<char>| #[trigger] self.nodes().contains_key(k) implies self.ids().contains(k) by {
                lemma_gmap_dom(g0, k);
                assert(m0.contains_key(k));
            }
        }
        flips
    }
}

impl AgentRouter {
    /// Flags the entries whose id satisfies `descends(id, target)`.
    fn subtree_flags(&self, target: &AgentId) -> (flags: Vec<bool>)
        requires
            self.wf(),
        ensures
            flags@.len() == self.graph@.len(),
            Set::new(|k: Seq<char>| exists|i: int| 0 <= i < flags@.len() && flags@[i] && self.graph@[i].0@ == k)
                == Set::new(|k: Seq<char>| self.nodes().contains_key(k) && self.descends_spec(k, target@)),
    {
        let mut flags: Vec<bool> = Vec::new();
        let mut i: usize = 0;
        while i < self.graph.len()
            invariant
                self.wf(),
                i <= self.graph@.len(),
                flags@.len() == i,
                forall|t: int| 0 <= t < i ==> flags@[t] == self.descends_spec(#[trigger] self.graph@[t].0@, target@),
            decreases self.graph@.len() - i,
        {
            let d = self.descends(&self.graph[i].0, target);
            flags.push(d);
            i = i + 1;
        }
        proof {
            assert forall|k: Seq<char>| (exists|i: int| 0 <= i < flags@.len() && flags@[i] && self.graph@[i].0@ == k)
                <==> (self.nodes().contains_key(k) && self.descends_spec(k, target@)) by {
                lemma_gmap_dom(self.graph@, k);
                if self.nodes().contains_key(k) && self.descends_spec(k, target@) {
                    let t = choose|t: int| 0 <= t < self.graph@.len() && self.graph@[t].0@ == k;
                    assert(flags@[t]);
                }
            }
            assert(Set::new(|k: Seq<char>| exists|i: int| 0 <= i < flags@.len() && flags@[i] && self.graph@[i].0@ == k)
                =~= Set::new(|k: Seq<char>| self.nodes().contains_key(k) && self.descends_spec(k, target@)));
        }
        flags
    }

    /// Archives `target` and every spawn-descendant of it. Only a strict
    /// spawn-descendant of the caller in the caller's tab may be archived.
    /// Returns the archived records for the caller to persist.
    pub fn handle_archive(&mut self, caller: &AgentId, target: &AgentId, actions: &mut Vec<Action>)
        -> (r: Result<Vec<(AgentId, GraphRecord)>, RouterError>)
        requires
            old(self).wf(),
        ensures
            final(self).wf(),
            final(self).ids() == old(self).ids(),
            !same_tab_spec(old(self).nodes(), caller@, target@) ==> {
                &&& r matches Err(e) && e == RouterError::Unreachable
                &&& final(self).nodes() == old(self).nodes()
                &&& final(self).waits() == old(self).waits()
                &&& final(actions)@ == old(actions)@
            },
            same_tab_spec(old(self).nodes(), caller@, target@) && (target@ == caller@ || !old(self).descends_spec(target@, caller@)) ==> {
                &&& r matches Err(e) && e == RouterError::NotOwned
                &&& final(self).nodes() == old(self).nodes()
                &&& final(self).waits() == old(self).waits()
                &&& final(actions)@ == old(actions)@
            },
            same_tab_spec(old(self).nodes(), caller@, target@) && target@ != caller@ && old(self).descends_spec(target@, caller@) ==> {
                &&& r is Ok
                &&& archived(
                    old(self).nodes(),
                    old(self).waits(),
                    actions_view(old(actions)@),
                    Set::new(|k: Seq<char>| old(self).nodes().contains_key(k) && old(self).descends_spec(k, target@)),
                    r->Ok_0@,
                    final(self).nodes(),
                    final(self).waits(),
                    actions_view(final(actions)@),
                )
                &&& forall|k: Seq<char>| old(self).nodes().contains_key(k) && #[trigger] old(self).descends_spec(k, target@)
                    && old(self).nodes()[k].abort ==> actions_view(final(actions)@).contains(ActionView::Abort(k))
            },
    {
        if self.same_tab(caller, target).is_none() {
            return Err(RouterError::Unreachable);
        }
        if target.same(caller) || !self.descends(target, caller) {
            return Err(RouterError::NotOwned);
        }
        let flags = self.subtree_flags(target);
        let ghost m0 = self.nodes();
        let ghost w0 = self.waits();
        let ghost a0 = actions_view(actions@);
        let ghost members = Set::new(|k: Seq<char>| m0.contains_key(k) && self.descends_spec(k, target@));
        let ghost s0 = *self;
        let flips = self.archive_flagged(&flags, actions);
        proof {
            assert forall|k: Seq<char>| m0.contains_key(k) && #[trigger] s0.descends_spec(k, target@) && m0[k].abort
                implies actions_view(actions@).contains(ActionView::Abort(k)) by {
                assert(members.contains(k));
                lemma_archival_aborts_members(m0, w0, a0, members, flips@, self.nodes(), self.waits(), actions_view(actions@), k);
            }
        }
        Ok(flips)
    }

    /// Archives every member of the primary's tab (on tab close).
    pub fn handle_archive_tab(&mut self, primary: &AgentId, actions: &mut Vec<Action>)
        -> (r: Result<Vec<(AgentId, GraphRecord)>, AgentError>)
        requires
            old(self).wf(),
        ensures
            final(self).wf(),
            final(self).ids() == old(self).ids(),
            !old(self).nodes().contains_key(primary@) ==> {
                &&& is_err(r, AgentErrorView::Unknown(primary@))
                &&& final(self).nodes() == old(self).nodes()
                &&& final(self).waits() == old(self).waits()
                &&& final(actions)@ == old(actions)@
            },
            old(self).nodes().contains_key(primary@) ==> {
                &&& r is Ok
                &&& archived(
                    old(self).nodes(),
                    old(self).waits(),
                    actions_view(old(actions)@),
                    Set::new(|k: Seq<char>| old(self).nodes().contains_key(k) && old(self).nodes()[k].root == primary@),
                    r->Ok_0@,
                    final(self).nodes(),
                    final(self).waits(),
                    actions_view(final(actions)@),
                )
                &&& forall|k: Seq<char>| #[trigger] old(self).nodes().contains_key(k) && old(self).nodes()[k].root == primary@
                    && old(self).nodes()[k].abort ==> actions_view(final(actions)@).contains(ActionView::Abort(k))
            },
    {
        if super::graph::find(&self.graph, primary).is_none() {
            return Err(AgentError::Unknown(primary.clone()));
        }
        let mut flags: Vec<bool> = Vec::new();
        let mut i: usize = 0;
        while i < self.graph.len()
            invariant
                self.wf(),
                i <= self.graph@.len(),
                flags@.len() == i,
                forall|t: int| 0 <= t < i ==> flags@[t] == (#[trigger] self.graph@[t].1@.root == primary@),
            decreases self.graph@.len() - i,
        {
            let d = self.graph[i].1.root.same(primary);
            flags.push(d);
            i = i + 1;
        }
        proof {
            let a = Set::new(|k: Seq<char>| exists|i: int| 0 <= i < flags@.len() && flags@[i] && self.graph@[i].0@ == k);
            let b = Set::new(|k: Seq<char>| self.nodes().contains_key(k) && self.nodes()[k].root == primary@);
            assert forall|k: Seq<char>| a.contains(k) <==> b.contains(k) by {
                lemma_gmap_dom(self.graph@, k);
                if a.contains(k) {
                    let t = choose|t: int| 0 <= t < flags@.len() && flags@[t] && self.graph@[t].0@ == k;
                    lemma_gmap_index(self.graph@, t);
                }
                if b.contains(k) {
                    let t = choose|t: int| 0 <= t < self.graph@.len() && self.graph@[t].0@ == k;
                    lemma_gmap_index(self.graph@, t);
                    assert(flags@[t]);
                }
            }
            assert(a =~= b);
        }
        let ghost m0 = self.nodes();
        let ghost w0 = self.waits();
        let ghost a0 = actions_view(actions@);
        let ghost members = Set::new(|k: Seq<char>| m0.contains_key(k) && m0[k].root == primary@);
        let flips = self.archive_flagged(&flags, actions);
        proof {
            assert forall|k: Seq<char>| #[trigger] m0.contains_key(k) && m0[k].root == primary@ && m0[k].abort
                implies actions_view(actions@).contains(ActionView::Abort(k)) by {
                assert(members.contains(k));
                lemma_archival_aborts_members(m0, w0, a0, members, flips@, self.nodes(), self.waits(), actions_view(actions@), k);
            }
        }
        Ok(flips)
    }

    /// Removes a failed provisional spawn: its runtime is aborted if
    /// attached and its waiters answered `Unreachable`. The caller deletes
    /// its durable record and workdir.
    pub fn handle_rollback_spawn(&mut self, aid: &AgentId, actions: &mut Vec<Action>)
        requires
            old(self).wf(),
        ensures
            final(self).wf(),
            final(self).ids() == old(self).ids(),
            ({
                let m = old(self).nodes();
                if m.contains_key(aid@) {
                    &&& final(self).nodes() == m.remove(aid@)
                    &&& final(self).waits() == remaining(old(self).waits(), aid@)
                    &&& actions_view(final(actions)@) == actions_view(old(actions)@)
                        + (if m[aid@].abort { seq![ActionView::Abort(aid@)] } else { Seq::empty() })
                        + fired(old(self).waits(), aid@, Err(RouterError::Unreachable))
                } else {
                    &&& final(self).nodes() == m
                    &&& final(self).waits() == old(self).waits()
                    &&& final(actions)@ == old(actions)@
                }
            }),
    {
        let found = super::graph::find(&self.graph, aid);
        if found.is_none() {
            return;
        }
        let mut flags: Vec<bool> = Vec::new();
        let mut i: usize = 0;
        while i < self.graph.len()
            invariant
                self.wf(),
                i <= self.graph@.len(),
                flags@.len() == i,
                forall|t: int| 0 <= t < i ==> flags@[t] == (#[trigger] self.graph@[t].0@ == aid@),
            decreases self.graph@.len() - i,
        {
            let d = self.graph[i].0.same(aid);
            flags.push(d);
            i = i + 1;
        }
        let ghost m = self.nodes();
        let ghost ws = self.waits();
        let ghost a0 = actions_view(actions@);
        proof {
            assert(Set::new(|k: Seq<char>| exists|i: int| 0 <= i < flags@.len() && flags@[i] && self.graph@[i].0@ == k)
                =~= set![aid@]) by {
                let t = found.unwrap();
                assert(flags@[t as int]);
            }
        }
        let flips = self.archive_flagged(&flags, actions);
        proof {
            let f = flip_ids(flips@);
            f.unique_seq_to_set();
            assert(f.to_set().len() == 1);
            assert(f.to_set().contains(aid@));
            assert(f.contains(aid@));
            assert(f =~= seq![aid@]) by {
                assert(f[0] == aid@) by {
                    assert(f.to_set().contains(f[0]));
                }
            }
            assert(f.drop_last() =~= Seq::<Seq<char>>::empty());
            assert(f.last() == aid@);
            assert(remaining_all(ws, f.drop_last()) == ws);
            assert(teardown(m, ws, f.drop_last()) =~= Seq::<ActionView>::empty());
            assert(m.remove_keys(set![aid@]) =~= m.remove(aid@));
            assert(remaining_all(ws, f) == remaining(ws, aid@));
            assert(teardown(m, ws, f) =~= (if m[aid@].abort { seq![ActionView::Abort(aid@)] } else { Seq::empty() })
                + fired(ws, aid@, Err(RouterError::Unreachable)));
        }
    }
}

} // verus!
