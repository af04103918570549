//! Bookkeeping of in-flight tasks: a task whose id is no longer pending has
//! its late results ignored, and ids are never handed out twice.

use std::collections::HashSet;
use vstd::prelude::*;

verus! {

broadcast use vstd::std_specs::hash::group_hash_axioms;

/// Loop-local task identifier: never persisted, never crosses agents.
#[derive(Clone, Copy, Debug, PartialEq, Eq, Hash)]
pub struct TaskId(pub u64);

/// Pure bookkeeping of in-flight tasks.
pub struct TaskLedger {
    next: u64,
    pending: HashSet<u64>,
}

/// An operation on a ledger.
pub enum LedgerOp {
    Register,
    Finish(u64),
    Clear,
}

/// A ledger's state, its next id and its pending ids, after `op`: a
/// registration hands out the next id as pending and bumps the counter, a
/// finish drops its id from the pending set, a clear empties it; neither
/// touches the counter.
pub open spec fn ledger_step(s: (nat, Set<u64>), op: LedgerOp) -> (nat, Set<u64>) {
    match op {
        LedgerOp::Register => (s.0 + 1, s.1.insert(s.0 as u64)),
        LedgerOp::Finish(x) => (s.0, s.1.remove(x)),
        LedgerOp::Clear => (s.0, Set::empty()),
    }
}

impl TaskLedger {
    /// The id the next `register` hands out.
    pub closed spec fn next_id(&self) -> nat {
        self.next as nat
    }

    /// The ids of the tasks in flight.
    pub closed spec fn pending_ids(&self) -> Set<u64> {
        self.pending@
    }

    /// Every pending id was handed out already.
    pub closed spec fn wf(&self) -> bool {
        &&& self.pending@.finite()
        &&& forall|id: u64| self.pending@.contains(id) ==> id < self.next
    }

    /// An empty ledger whose first id is 0.
    pub fn new() -> (ledger: Self)
        ensures
            ledger.wf(),
            ledger.next_id() == 0,
            ledger.pending_ids() == Set::<u64>::empty(),
    {
        TaskLedger { next: 0, pending: HashSet::new() }
    }

    /// Registers a new task as pending and returns its fresh id.
    pub fn register(&mut self) -> (id: TaskId)
        requires
            old(self).wf(),
            old(self).next_id() < u64::MAX,
        ensures
            final(self).wf(),
            id.0 == old(self).next_id(),
            !old(self).pending_ids().contains(id.0),
            final(self).next_id() == old(self).next_id() + 1,
            (final(self).next_id(), final(self).pending_ids())
                == ledger_step((old(self).next_id(), old(self).pending_ids()), LedgerOp::Register),
            final(self).pending_ids() == old(self).pending_ids().insert(id.0),
    {
        let id = self.next;
        self.next = self.next + 1;
        self.pending.insert(id);
        TaskId(id)
    }

    /// Removes the task from the pending set; true iff it was pending.
    pub fn finish(&mut self, id: &TaskId) -> (was_pending: bool)
        requires
            old(self).wf(),
        ensures
            final(self).wf(),
            was_pending == old(self).pending_ids().contains(id.0),
            final(self).pending_ids() == old(self).pending_ids().remove(id.0),
            final(self).next_id() == old(self).next_id(),
            (final(self).next_id(), final(self).pending_ids())
                == ledger_step((old(self).next_id(), old(self).pending_ids()), LedgerOp::Finish(id.0)),
    {
        self.pending.remove(&id.0)
    }

    /// Whether the task's results should still be applied.
    pub fn pending(&self, id: &TaskId) -> (is_pending: bool)
        ensures
            is_pending == self.pending_ids().contains(id.0),
    {
        self.pending.contains(&id.0)
    }

    /// No task is in flight.
    pub fn idle(&self) -> (is_idle: bool)
        requires
            self.wf(),
        ensures
            is_idle == (self.pending_ids() == Set::<u64>::empty()),
    {
        let empty = self.pending.is_empty();
        proof {
            if !empty {
                assert(self.pending@.len() > 0);
                let x = self.pending@.choose();
                assert(self.pending@.contains(x));
                assert(!Set::<u64>::empty().contains(x));
            } else {
                assert(self.pending@ =~= Set::<u64>::empty());
            }
        }
        empty
    }

    /// Forgets every pending task but keeps the id counter, so a stale event
    /// queued for an old task can never alias a new one.
    pub fn clear(&mut self)
        ensures
            final(self).wf(),
            final(self).pending_ids() == Set::<u64>::empty(),
            final(self).next_id() == old(self).next_id(),
            (final(self).next_id(), final(self).pending_ids())
                == ledger_step((old(self).next_id(), old(self).pending_ids()), LedgerOp::Clear),
    {
        self.pending.clear();
    }
}

impl Default for TaskLedger {
    fn default() -> (ledger: Self)
        ensures
            ledger.wf(),
            ledger.next_id() == 0,
            ledger.pending_ids() == Set::<u64>::empty(),
    {
        TaskLedger::new()
    }
}

/// The state of a new ledger after the operations `ops`, in order.
pub open spec fn ledger_run(ops: Seq<LedgerOp>) -> (nat, Set<u64>)
    decreases ops.len(),
{
    if ops.len() == 0 {
        (0, Set::empty())
    } else {
        ledger_step(ledger_run(ops.drop_last()), ops.last())
    }
}

/// The counter never exceeds the number of operations, only grows, and
/// every pending id is below it.
proof fn lemma_run_bounds(ops: Seq<LedgerOp>)
    ensures
        ledger_run(ops).0 <= ops.len(),
        forall|x: u64| ledger_run(ops).1.contains(x) ==> x < ledger_run(ops).0,
        forall|k: int| 0 <= k <= ops.len() ==> #[trigger] ledger_run(ops.take(k)).0 <= ledger_run(ops).0,
    decreases ops.len(),
{
    if ops.len() > 0 {
        let d = ops.drop_last();
        lemma_run_bounds(d);
        assert forall|k: int| 0 <= k <= ops.len() implies #[trigger] ledger_run(ops.take(k)).0 <= ledger_run(ops).0 by {
            if k == ops.len() {
                assert(ops.take(k) =~= ops);
            } else {
                assert(ops.take(k) =~= d.take(k));
            }
        }
        assert(ops.take(ops.len() as int) =~= ops);
    }
}

/// Ids are never reused: of two registrations in any history of a new
/// ledger (finishes and clears included), the later one hands out a
/// strictly larger id, so a stale event of an aborted task can never be
/// taken for a new task's.
pub proof fn lemma_ids_never_reused(ops: Seq<LedgerOp>, i: int, j: int)
    requires
        0 <= i < j < ops.len(),
        ops[i] is Register,
        ops[j] is Register,
    ensures
        ledger_run(ops.take(i)).0 < ledger_run(ops.take(j)).0,
{
    let oj = ops.take(j);
    lemma_run_bounds(oj);
    assert(oj.take(i + 1) =~= ops.take(i + 1));
    assert(ledger_run(oj.take(i + 1)).0 <= ledger_run(oj).0);
    assert(ops.take(i + 1).drop_last() =~= ops.take(i));
    assert(ops.take(i + 1).last() == ops[i]);
    assert(ledger_run(ops.take(i + 1)).0 == ledger_run(ops.take(i)).0 + 1);
}

/// A registration hands out a fresh id: on any history of a new ledger
/// (with fewer operations than there are ids), the id it hands out is
/// neither pending nor any id handed out before, and it becomes pending
/// while every other id keeps its state.
pub proof fn lemma_register_fresh(ops: Seq<LedgerOp>)
    requires
        ops.len() < u64::MAX,
    ensures
        ledger_run(ops).0 < u64::MAX,
        !ledger_run(ops).1.contains(ledger_run(ops).0 as u64),
        forall|k: int| 0 <= k < ops.len() && ops[k] is Register ==> #[trigger] ledger_run(ops.take(k)).0 < ledger_run(ops).0,
        ledger_run(ops.push(LedgerOp::Register)).1 == ledger_run(ops).1.insert(ledger_run(ops).0 as u64),
{
    lemma_run_bounds(ops);
    assert(ops.push(LedgerOp::Register).drop_last() =~= ops);
    assert forall|k: int| 0 <= k < ops.len() && ops[k] is Register implies #[trigger] ledger_run(ops.take(k)).0 < ledger_run(ops).0 by {
        let p = ops.push(LedgerOp::Register);
        assert(p[k] == ops[k]);
        assert(p[ops.len() as int] is Register);
        lemma_ids_never_reused(p, k, ops.len() as int);
        assert(p.take(k) =~= ops.take(k));
        assert(p.take(ops.len() as int) =~= ops);
    }
}

/// An id is pending exactly when it was handed out by a registration that
/// no finish of that id and no clear has followed since.
pub open spec fn pending_in_history(ops: Seq<LedgerOp>, id: u64) -> bool {
    exists|k: int| #![trigger ops.take(k)]
        0 <= k < ops.len() && ops[k] is Register && ledger_run(ops.take(k)).0 == id
        && forall|m: int| k < m < ops.len() ==> !(#[trigger] ops[m] is Clear) && ops[m] != LedgerOp::Finish(id)
}

/// What a ledger reports pending is its history: on any history of a new
/// ledger (with fewer operations than there are ids), an id is pending iff
/// a registration handed it out and neither its finish nor a clear came
/// after.
pub proof fn lemma_pending_history(ops: Seq<LedgerOp>, id: u64)
    requires
        ops.len() < u64::MAX,
    ensures
        ledger_run(ops).1.contains(id) <==> pending_in_history(ops, id),
    decreases ops.len(),
{
    if ops.len() > 0 {
        let d = ops.drop_last();
        let n = ops.len() - 1;
        lemma_pending_history(d, id);
        lemma_run_bounds(d);
        assert forall|k: int| 0 <= k <= n implies #[trigger] ops.take(k) == d.take(k) by {
            assert(ops.take(k) =~= d.take(k));
        }
        assert forall|m: int| 0 <= m < n implies #[trigger] ops[m] == d[m] by {}
        assert(ops.take(n) =~= d);
        match ops.last() {
            LedgerOp::Register => {
                if ledger_run(ops).1.contains(id) {
                    if ledger_run(d).1.contains(id) {
                        let k = choose|k: int| #![trigger d.take(k)]
                            0 <= k < d.len() && d[k] is Register && ledger_run(d.take(k)).0 == id
                            && forall|m: int| k < m < d.len() ==> !(#[trigger] d[m] is Clear) && d[m] != LedgerOp::Finish(id);
                        assert(ops.take(k) == d.take(k));
                        assert forall|m: int| k < m < ops.len() implies !(#[trigger] ops[m] is Clear) && ops[m] != LedgerOp::Finish(id) by {
                            if m < n {
                                assert(ops[m] == d[m]);
                            }
                        }
                    } else {
                        assert(ledger_run(d).0 as u64 == id);
                        assert(ops.take(n) == d);
                        assert(ops[n] is Register);
                    }
                    assert(pending_in_history(ops, id));
                }
                if pending_in_history(ops, id) {
                    let k = choose|k: int| #![trigger ops.take(k)]
                        0 <= k < ops.len() && ops[k] is Register && ledger_run(ops.take(k)).0 == id
                        && forall|m: int| k < m < ops.len() ==> !(#[trigger] ops[m] is Clear) && ops[m] != LedgerOp::Finish(id);
                    if k < n {
                        assert(ops.take(k) == d.take(k));
                        assert(d[k] == ops[k]);
                        assert forall|m: int| k < m < d.len() implies !(#[trigger] d[m] is Clear) && d[m] != LedgerOp::Finish(id) by {
                            assert(ops[m] == d[m]);
                        }
                        assert(pending_in_history(d, id));
                    } else {
                        assert(ops.take(k) == d);
                    }
                }
            },
            LedgerOp::Finish(x) => {
                if ledger_run(ops).1.contains(id) {
                    assert(ledger_run(d).1.contains(id) && id != x);
                    let k = choose|k: int| #![trigger d.take(k)]
                        0 <= k < d.len() && d[k] is Register && ledger_run(d.take(k)).0 == id
                        && forall|m: int| k < m < d.len() ==> !(#[trigger] d[m] is Clear) && d[m] != LedgerOp::Finish(id);
                    assert(ops.take(k) == d.take(k));
                    assert forall|m: int| k < m < ops.len() implies !(#[trigger] ops[m] is Clear) && ops[m] != LedgerOp::Finish(id) by {
                        if m < n {
                            assert(ops[m] == d[m]);
                        }
                    }
                    assert(pending_in_history(ops, id));
                }
                if pending_in_history(ops, id) {
                    let k = choose|k: int| #![trigger ops.take(k)]
                        0 <= k < ops.len() && ops[k] is Register && ledger_run(ops.take(k)).0 == id
                        && forall|m: int| k < m < ops.len() ==> !(#[trigger] ops[m] is Clear) && ops[m] != LedgerOp::Finish(id);
                    assert(k < n);
                    assert(ops[n] != LedgerOp::Finish(id));
                    assert(ops.take(k) == d.take(k));
                    assert(d[k] == ops[k]);
                    assert forall|m: int| k < m < d.len() implies !(#[trigger] d[m] is Clear) && d[m] != LedgerOp::Finish(id) by {
                        assert(ops[m] == d[m]);
                    }
                    assert(pending_in_history(d, id));
                }
            },
            LedgerOp::Clear => {
                if pending_in_history(ops, id) {
                    let k = choose|k: int| #![trigger ops.take(k)]
                        0 <= k < ops.len() && ops[k] is Register && ledger_run(ops.take(k)).0 == id
                        && forall|m: int| k < m < ops.len() ==> !(#[trigger] ops[m] is Clear) && ops[m] != LedgerOp::Finish(id);
                    assert(k < n);
                    assert(ops[n] is Clear);
                }
            },
        }
    }
}

} // verus!
