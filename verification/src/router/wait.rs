//! `wait` registration: a wait parks until its target next goes idle or
//! dies, unless it would close a cycle in the wait-for graph.

use super::types::{NodeStatus, RouterError, WaitResult, WaitView, wait_view};
use super::{AgentRouter, Waiter, WaiterView, contains_id, in_ids, same_tab_spec, waiters_view};
use crate::id::AgentId;
use vstd::prelude::*;

verus! {

/// A live (not yet closed) registration where `a` waits for `b`.
pub open spec fn wait_edge(ws: Seq<WaiterView>, open: Seq<bool>, a: Seq<char>, b: Seq<char>) -> bool {
    exists|i: int| 0 <= i < ws.len() && open[i] && ws[i].caller == a && ws[i].target == b
}

/// `p` walks wait-for edges.
pub open spec fn is_wait_path(ws: Seq<WaiterView>, open: Seq<bool>, p: Seq<Seq<char>>) -> bool {
    &&& p.len() >= 1
    &&& forall|j: int| 0 <= j < p.len() - 1 ==> wait_edge(ws, open, #[trigger] p[j], p[j + 1])
}

/// `a` (transitively) waits for `b`; every agent trivially waits for itself.
pub open spec fn waits_for(ws: Seq<WaiterView>, open: Seq<bool>, a: Seq<char>, b: Seq<char>) -> bool {
    exists|p: Seq<Seq<char>>| #[trigger] is_wait_path(ws, open, p) && p[0] == a && p.last() == b
}

proof fn lemma_waits_for_refl(ws: Seq<WaiterView>, open: Seq<bool>, a: Seq<char>)
    ensures
        waits_for(ws, open, a, a),
{
    let p = seq![a];
    assert(is_wait_path(ws, open, p));
}

proof fn lemma_waits_for_step(ws: Seq<WaiterView>, open: Seq<bool>, a: Seq<char>, b: Seq<char>, c: Seq<char>)
    requires
        waits_for(ws, open, a, b),
        wait_edge(ws, open, b, c),
    ensures
        waits_for(ws, open, a, c),
{
    let p = choose|p: Seq<Seq<char>>| #[trigger] is_wait_path(ws, open, p) && p[0] == a && p.last() == b;
    let q = p.push(c);
    assert forall|j: int| 0 <= j < q.len() - 1 implies wait_edge(ws, open, #[trigger] q[j], q[j + 1]) by {
        if j < p.len() - 1 {
            assert(q[j] == p[j] && q[j + 1] == p[j + 1]);
        } else {
            assert(q[j] == b && q[j + 1] == c);
        }
    }
    assert(is_wait_path(ws, open, q));
}

/// Every agent on a wait path from a member of a successor-closed set is
/// in the set.
proof fn lemma_closed_contains_path(
    ws: Seq<WaiterView>,
    open: Seq<bool>,
    seen: Seq<AgentId>,
    p: Seq<Seq<char>>,
    j: int,
)
    requires
        is_wait_path(ws, open, p),
        in_ids(seen, p[0]),
        0 <= j < p.len(),
        forall|x: Seq<char>, y: Seq<char>| in_ids(seen, x) && #[trigger] wait_edge(ws, open, x, y) ==> in_ids(seen, y),
    ensures
        in_ids(seen, p[j]),
    decreases j,
{
    if j > 0 {
        lemma_closed_contains_path(ws, open, seen, p, j - 1);
        assert(wait_edge(ws, open, p[j - 1], p[j]));
    }
}

/// The agents a search from `t` can meet: `t` and every wait target.
spec fn universe(ws: Seq<WaiterView>, t: Seq<char>) -> Set<Seq<char>> {
    ws.map_values(|w: WaiterView| w.target).to_set().insert(t)
}

impl AgentRouter {
    /// Would a `caller → target` wait close a cycle in the live wait-for
    /// graph, i.e. does `target` already (transitively) wait for `caller`?
    /// `open[i]` says whether the `i`-th parked wait's caller still listens;
    /// closed registrations are skipped.
    pub fn would_deadlock(&self, caller: &AgentId, target: &AgentId, open: &Vec<bool>) -> (r: bool)
        requires
            open@.len() == self.waits().len(),
        ensures
            r == waits_for(self.waits(), open@, target@, caller@),
    {
        let ghost ws = self.waits();
        let ghost u = universe(ws, target@);
        proof {
            ws.map_values(|w: WaiterView| w.target).lemma_cardinality_of_set();
            lemma_waits_for_refl(ws, open@, target@);
        }
        let mut stack: Vec<AgentId> = Vec::new();
        stack.push(target.clone());
        let mut seen: Vec<AgentId> = Vec::new();
        proof {
            assert(stack@[0]@ == target@);
        }
        while stack.len() > 0
            invariant
                ws == self.waits(),
                ws.len() == self.waiters@.len(),
                open@.len() == ws.len(),
                u == universe(ws, target@),
                u.finite(),
                forall|j: int| 0 <= j < stack@.len() ==> waits_for(ws, open@, target@, #[trigger] stack@[j]@),
                forall|j: int| 0 <= j < seen@.len() ==> waits_for(ws, open@, target@, #[trigger] seen@[j]@),
                forall|j: int| 0 <= j < stack@.len() ==> u.contains(#[trigger] stack@[j]@),
                forall|j: int| 0 <= j < seen@.len() ==> u.contains(#[trigger] seen@[j]@),
                forall|a: int, b: int| 0 <= a < b < seen@.len() ==> seen@[a]@ != seen@[b]@,
                !in_ids(seen@, caller@),
                in_ids(seen@, target@) || in_ids(stack@, target@),
                forall|x: Seq<char>, y: Seq<char>| in_ids(seen@, x) && #[trigger] wait_edge(ws, open@, x, y)
                    ==> in_ids(seen@, y) || in_ids(stack@, y),
                seen@.len() <= u.len(),
            decreases u.len() - seen@.len(), stack@.len(),
        {
            let ghost st0 = stack@;
            let id = stack.pop().unwrap();
            proof {
                assert(st0 == stack@.push(id));
                assert(st0[st0.len() - 1] == id);
                assert forall|y: Seq<char>| in_ids(st0, y) && y != id@ implies in_ids(stack@, y) by {
                    let j = choose|j: int| 0 <= j < st0.len() && st0[j]@ == y;
                    assert(j < stack@.len());
                    assert(stack@[j] == st0[j]);
                }
                assert forall|j: int| 0 <= j < stack@.len() implies #[trigger] stack@[j] == st0[j] by {}
            }
            if id.same(caller) {
                return true;
            }
            if contains_id(&seen, &id) {
                continue;
            }
            let ghost seen0 = seen@;
            let c = id.clone();
            seen.push(c);
            proof {
                assert(seen@ == seen0.push(c));
                assert forall|x: Seq<char>| in_ids(seen0, x) implies in_ids(seen@, x) by {
                    let j = choose|j: int| 0 <= j < seen0.len() && seen0[j]@ == x;
                    assert(seen@[j] == seen0[j]);
                }
                assert(in_ids(seen@, id@)) by {
                    assert(seen@[seen0.len() as int] == c);
                }
                assert forall|x: Seq<char>| in_ids(seen@, x) implies (in_ids(seen0, x) || x == id@) by {
                    let j = choose|j: int| 0 <= j < seen@.len() && seen@[j]@ == x;
                    if j < seen0.len() {
                        assert(seen0[j] == seen@[j]);
                    }
                }
                // the seen ids are distinct members of the universe
                let sv = seen@.map_values(|a: AgentId| a@);
                assert(sv.no_duplicates());
                sv.unique_seq_to_set();
                assert forall|x: Seq<char>| sv.to_set().contains(x) implies u.contains(x) by {
                    let j = choose|j: int| 0 <= j < sv.len() && sv[j] == x;
                    assert(u.contains(seen@[j]@));
                }
                vstd::set_lib::lemma_len_subset(sv.to_set(), u);
            }
            let mut i: usize = 0;
            while i < self.waiters.len()
                invariant
                    ws == self.waits(),
                    ws.len() == self.waiters@.len(),
                    open@.len() == ws.len(),
                    u == universe(ws, target@),
                    i <= ws.len(),
                    waits_for(ws, open@, target@, id@),
                    forall|j: int| 0 <= j < stack@.len() ==> waits_for(ws, open@, target@, #[trigger] stack@[j]@),
                    forall|j: int| 0 <= j < stack@.len() ==> u.contains(#[trigger] stack@[j]@),
                    forall|y: Seq<char>| in_ids(st0, y) && y != id@ ==> in_ids(stack@, y),
                    forall|k: int| 0 <= k < i && open@[k] && ws[k].caller == id@ ==> in_ids(stack@, #[trigger] ws[k].target),
                decreases ws.len() - i,
            {
                if open[i] && self.waiters[i].caller.same(&id) {
                    let ghost sb = stack@;
                    let t = self.waiters[i].target.clone();
                    stack.push(t);
                    proof {
                        assert(ws[i as int] == self.waiters@[i as int]@);
                        assert(wait_edge(ws, open@, id@, ws[i as int].target));
                        lemma_waits_for_step(ws, open@, target@, id@, ws[i as int].target);
                        assert(stack@ == sb.push(t));
                        assert forall|y: Seq<char>| in_ids(sb, y) implies in_ids(stack@, y) by {
                            let j = choose|j: int| 0 <= j < sb.len() && sb[j]@ == y;
                            assert(stack@[j] == sb[j]);
                        }
                        assert(in_ids(stack@, ws[i as int].target)) by {
                            assert(stack@[sb.len() as int]@ == ws[i as int].target);
                        }
                        assert(ws.map_values(|w: WaiterView| w.target)[i as int] == ws[i as int].target);
                        assert(u.contains(ws[i as int].target));
                        assert forall|j: int| 0 <= j < stack@.len() implies u.contains(#[trigger] stack@[j]@) by {
                            if j < sb.len() {
                                assert(stack@[j] == sb[j]);
                            }
                        }
                        assert forall|j: int| 0 <= j < stack@.len() implies waits_for(ws, open@, target@, #[trigger] stack@[j]@) by {
                            if j < sb.len() {
                                assert(stack@[j] == sb[j]);
                            }
                        }
                    }
                }
                i = i + 1;
            }
            proof {
                assert forall|x: Seq<char>, y: Seq<char>| in_ids(seen@, x) && #[trigger] wait_edge(ws, open@, x, y)
                    implies in_ids(seen@, y) || in_ids(stack@, y) by {
                    if x == id@ {
                        let k = choose|k: int| 0 <= k < ws.len() && open@[k] && ws[k].caller == x && ws[k].target == y;
                        assert(in_ids(stack@, ws[k].target));
                    } else {
                        assert(in_ids(seen0, x));
                        if in_ids(seen0, y) {
                        } else if y == id@ {
                        } else {
                            assert(in_ids(st0, y));
                        }
                    }
                }
                if !in_ids(seen0, target@) && target@ != id@ {
                    assert(in_ids(st0, target@));
                }
            }
        }
        proof {
            if waits_for(ws, open@, target@, caller@) {
                let p = choose|p: Seq<Seq<char>>| #[trigger] is_wait_path(ws, open@, p) && p[0] == target@ && p.last() == caller@;
                assert forall|x: Seq<char>, y: Seq<char>| in_ids(seen@, x) && #[trigger] wait_edge(ws, open@, x, y)
                    implies in_ids(seen@, y) by {
                    assert(!in_ids(stack@, y));
                }
                lemma_closed_contains_path(ws, open@, seen@, p, p.len() - 1);
            }
        }
        false
    }
}

/// The live wait-for graph has no cycle: no agent waits (transitively) for
/// an agent that waits for it.
pub open spec fn wait_acyclic(ws: Seq<WaiterView>, open: Seq<bool>) -> bool {
    forall|a: Seq<char>, b: Seq<char>| #[trigger] wait_edge(ws, open, a, b) ==> !waits_for(ws, open, b, a)
}

proof fn lemma_waits_for_trans(ws: Seq<WaiterView>, open: Seq<bool>, a: Seq<char>, b: Seq<char>, c: Seq<char>)
    requires
        waits_for(ws, open, a, b),
        waits_for(ws, open, b, c),
    ensures
        waits_for(ws, open, a, c),
{
    let p = choose|p: Seq<Seq<char>>| #[trigger] is_wait_path(ws, open, p) && p[0] == a && p.last() == b;
    let q = choose|q: Seq<Seq<char>>| #[trigger] is_wait_path(ws, open, q) && q[0] == b && q.last() == c;
    let r = p + q.drop_first();
    assert forall|j: int| 0 <= j < r.len() - 1 implies wait_edge(ws, open, #[trigger] r[j], r[j + 1]) by {
        if j < p.len() - 1 {
            assert(r[j] == p[j] && r[j + 1] == p[j + 1]);
        } else if j == p.len() - 1 {
            assert(r[j] == b);
            assert(r[j + 1] == q[1]);
            assert(wait_edge(ws, open, q[0], q[1]));
        } else {
            let k = j - p.len() + 1;
            assert(r[j] == q[k] && r[j + 1] == q[k + 1]);
            assert(wait_edge(ws, open, q[k], q[k + 1]));
        }
    }
    assert(is_wait_path(ws, open, r));
    if q.len() == 1 {
        assert(r =~= p);
    } else {
        assert(r.last() == q.last());
    }
}

/// In the graph with one more open registration `caller → target`, a wait
/// path either existed already or runs through the new edge.
proof fn lemma_split_new_edge(
    ws: Seq<WaiterView>,
    open: Seq<bool>,
    w: WaiterView,
    p: Seq<Seq<char>>,
)
    requires
        open.len() == ws.len(),
        is_wait_path(ws.push(w), open.push(true), p),
    ensures
        waits_for(ws, open, p[0], p.last())
            || (waits_for(ws, open, p[0], w.caller) && waits_for(ws, open, w.target, p.last())),
    decreases p.len(),
{
    let ws2 = ws.push(w);
    let open2 = open.push(true);
    if p.len() == 1 {
        lemma_waits_for_refl(ws, open, p[0]);
    } else {
        let q = p.drop_last();
        assert forall|j: int| 0 <= j < q.len() - 1 implies wait_edge(ws2, open2, #[trigger] q[j], q[j + 1]) by {
            assert(q[j] == p[j] && q[j + 1] == p[j + 1]);
        }
        lemma_split_new_edge(ws, open, w, q);
        let z = q.last();
        let y = p.last();
        assert(z == p[p.len() - 2]);
        assert(wait_edge(ws2, open2, p[p.len() - 2], p[p.len() - 1]));
        let i = choose|i: int| 0 <= i < ws2.len() && open2[i] && ws2[i].caller == z && ws2[i].target == y;
        if i < ws.len() {
            assert(ws2[i] == ws[i] && open2[i] == open[i]);
            assert(wait_edge(ws, open, z, y));
            if waits_for(ws, open, p[0], z) {
                lemma_waits_for_step(ws, open, p[0], z, y);
            } else {
                lemma_waits_for_step(ws, open, w.target, z, y);
            }
        } else {
            assert(ws2[i] == w);
            lemma_waits_for_refl(ws, open, w.target);
            if waits_for(ws, open, p[0], z) {
            } else {
            }
        }
    }
}

/// Registering a wait keeps the wait-for graph acyclic: `handle_wait` parks
/// a `caller → target` wait only when `target` does not already wait for
/// `caller`, and the graph with the new open registration then has no
/// cycle either, so parked waits can never deadlock.
pub proof fn lemma_wait_keeps_acyclic(
    ws: Seq<WaiterView>,
    open: Seq<bool>,
    caller: Seq<char>,
    target: Seq<char>,
    token: u64,
)
    requires
        open.len() == ws.len(),
        wait_acyclic(ws, open),
        !waits_for(ws, open, target, caller),
    ensures
        wait_acyclic(ws.push(WaiterView { caller, target, token }), open.push(true)),
{
    let w = WaiterView { caller, target, token };
    let ws2 = ws.push(w);
    let open2 = open.push(true);
    assert forall|a: Seq<char>, b: Seq<char>| #[trigger] wait_edge(ws2, open2, a, b) implies !waits_for(ws2, open2, b, a) by {
        if waits_for(ws2, open2, b, a) {
            let p = choose|p: Seq<Seq<char>>| #[trigger] is_wait_path(ws2, open2, p) && p[0] == b && p.last() == a;
            lemma_split_new_edge(ws, open, w, p);
            let i = choose|i: int| 0 <= i < ws2.len() && open2[i] && ws2[i].caller == a && ws2[i].target == b;
            if i < ws.len() {
                assert(ws2[i] == ws[i] && open2[i] == open[i]);
                assert(wait_edge(ws, open, a, b));
                if waits_for(ws, open, b, a) {
                    assert(!waits_for(ws, open, b, a));
                } else {
                    // target waits for a, a waits for b, b waits for caller
                    lemma_waits_for_step(ws, open, target, a, b);
                    lemma_waits_for_trans(ws, open, target, b, caller);
                }
            } else {
                assert(ws2[i] == w);
                assert(a == caller && b == target);
                if waits_for(ws, open, target, caller) {
                } else {
                    assert(waits_for(ws, open, b, caller));
                }
            }
        }
    }
}

/// Dropping waits keeps the wait-for graph acyclic: when every live edge
/// of the new registrations was a live edge before (waits answered and
/// removed, callers that stopped listening), no cycle can appear.
pub proof fn lemma_fewer_waits_keep_acyclic(ws: Seq<WaiterView>, open: Seq<bool>, ws2: Seq<WaiterView>, open2: Seq<bool>)
    requires
        wait_acyclic(ws, open),
        forall|a: Seq<char>, b: Seq<char>| #[trigger] wait_edge(ws2, open2, a, b) ==> wait_edge(ws, open, a, b),
    ensures
        wait_acyclic(ws2, open2),
{
    assert forall|a: Seq<char>, b: Seq<char>| #[trigger] wait_edge(ws2, open2, a, b) implies !waits_for(ws2, open2, b, a) by {
        if waits_for(ws2, open2, b, a) {
            let p = choose|p: Seq<Seq<char>>| #[trigger] is_wait_path(ws2, open2, p) && p[0] == b && p.last() == a;
            assert forall|j: int| 0 <= j < p.len() - 1 implies wait_edge(ws, open, #[trigger] p[j], p[j + 1]) by {
                assert(wait_edge(ws2, open2, p[j], p[j + 1]));
            }
            assert(is_wait_path(ws, open, p));
            assert(wait_edge(ws, open, a, b));
        }
    }
}

} // verus!
