//! Inter-agent commands (`send`/`inspect`/`wait`): every target is
//! root-checked, so a tab can never reach into another.

use super::graph::find;
use super::runtime::delivered_node;
use super::types::{NodeStatus, RouterError, SendOutcome, WaitResult, WaitView, reply_view, wait_view};
use super::wait::waits_for;
use super::{
    Action, ActionView, AgentRouter, Waiter, WaiterView, actions_view, dead_node, fired, remaining, same_tab_spec,
    waiters_view,
};
use crate::id::AgentId;
use vstd::prelude::*;

verus! {

impl AgentRouter {
    /// Whether `caller` may deliver a message to `target`: both live in one
    /// tab, the target is not dead and has a mailbox.
    pub fn send_target(&self, caller: &AgentId, target: &AgentId) -> (r: Result<(), RouterError>)
        requires
            self.wf(),
        ensures
            r is Ok <==> (same_tab_spec(self.nodes(), caller@, target@)
                && self.nodes()[target@].status != NodeStatus::Dead && self.nodes()[target@].mailbox),
            r is Err ==> r == Err::<(), RouterError>(RouterError::Unreachable),
    {
        match self.same_tab(caller, target) {
            None => Err(RouterError::Unreachable),
            Some(i) => {
                if self.graph[i].1.status == NodeStatus::Dead || !self.graph[i].1.mailbox {
                    Err(RouterError::Unreachable)
                } else {
                    Ok(())
                }
            },
        }
    }

    /// Applies what the non-blocking send of an inbound message into
    /// `target`'s mailbox returned. A delivery commits the target to a turn,
    /// so a racing `wait` registers instead of firing stale.
    pub fn send_done(&mut self, target: &AgentId, outcome: SendOutcome, actions: &mut Vec<Action>) -> (r: Result<(), RouterError>)
        requires
            old(self).wf(),
            old(self).nodes().contains_key(target@),
            old(self).nodes()[target@].status != NodeStatus::Dead,
            old(self).nodes()[target@].mailbox,
            old(self).nodes()[target@].delivered < u64::MAX,
        ensures
            final(self).wf(),
            final(self).ids() == old(self).ids(),
            ({
                let m = old(self).nodes();
                match outcome {
                    SendOutcome::Delivered => {
                        &&& r is Ok
                        &&& final(self).nodes() == m.insert(target@, delivered_node(m[target@]))
                        &&& final(self).waits() == old(self).waits()
                        &&& final(actions)@ == old(actions)@
                    },
                    SendOutcome::Full => {
                        &&& r == Err::<(), RouterError>(RouterError::Busy)
                        &&& final(self).nodes() == m
                        &&& final(self).waits() == old(self).waits()
                        &&& final(actions)@ == old(actions)@
                    },
                    SendOutcome::Closed => {
                        let n = dead_node(m[target@], "agent runtime mailbox closed"@);
                        &&& r == Err::<(), RouterError>(RouterError::Unreachable)
                        &&& final(self).nodes() == m.insert(target@, n)
                        &&& final(self).waits() == remaining(old(self).waits(), target@)
                        &&& actions_view(final(actions)@) == actions_view(old(actions)@)
                            + (if m[target@].abort { seq![ActionView::Abort(target@)] } else { Seq::empty() })
                            + fired(old(self).waits(), target@, Ok(wait_view(n)))
                    },
                }
            }),
    {
        match outcome {
            SendOutcome::Delivered => {
                let i = find(&self.graph, target).unwrap();
                self.commit_delivery(i);
                Ok(())
            },
            SendOutcome::Full => Err(RouterError::Busy),
            SendOutcome::Closed => {
                proof { reveal_strlit("agent runtime mailbox closed"); }
                self.fail_runtime(target, String::from_str("agent runtime mailbox closed"), true, actions);
                Err(RouterError::Unreachable)
            },
        }
    }

    /// The target's status, if it is live in the caller's tab.
    pub fn handle_inspect(&self, caller: &AgentId, target: &AgentId) -> (r: Result<NodeStatus, RouterError>)
        requires
            self.wf(),
        ensures
            same_tab_spec(self.nodes(), caller@, target@) ==> r == Ok::<NodeStatus, RouterError>(self.nodes()[target@].status),
            !same_tab_spec(self.nodes(), caller@, target@) ==> r == Err::<NodeStatus, RouterError>(RouterError::Unreachable),
    {
        match self.same_tab(caller, target) {
            None => Err(RouterError::Unreachable),
            Some(i) => Ok(self.graph[i].1.status),
        }
    }

    /// A `wait` from `caller` on `target`: answered at once when the target
    /// is unreachable, idle or dead, rejected when it would close a wait
    /// cycle, otherwise parked under `token` (`None`). `open[i]` says whether
    /// the `i`-th parked wait's caller still listens.
    pub fn handle_wait(&mut self, caller: AgentId, target: AgentId, token: u64, open: &Vec<bool>)
        -> (r: Option<Result<WaitResult, RouterError>>)
        requires
            old(self).wf(),
            open@.len() == old(self).waits().len(),
        ensures
            final(self).wf(),
            final(self).nodes() == old(self).nodes(),
            final(self).size() == old(self).size(),
            final(self).ids() == old(self).ids(),
            ({
                let m = old(self).nodes();
                if !same_tab_spec(m, caller@, target@) {
                    r == Some(Err::<WaitResult, RouterError>(RouterError::Unreachable))
                        && final(self).waits() == old(self).waits()
                } else if m[target@].status == NodeStatus::Idle || m[target@].status == NodeStatus::Dead {
                    (r matches Some(Ok(w)) && w@ == wait_view(m[target@]))
                        && final(self).waits() == old(self).waits()
                } else if waits_for(old(self).waits(), open@, target@, caller@) {
                    r == Some(Err::<WaitResult, RouterError>(RouterError::WouldDeadlock))
                        && final(self).waits() == old(self).waits()
                } else {
                    r is None && final(self).waits() == old(self).waits().push(
                        WaiterView { caller: caller@, target: target@, token })
                }
            }),
    {
        let result = match self.same_tab(&caller, &target) {
            None => {
                return Some(Err(RouterError::Unreachable));
            },
            Some(i) => self.graph[i].1.wait_result(),
        };
        match result.status {
            NodeStatus::Idle | NodeStatus::Dead => Some(Ok(result)),
            _ => {
                if self.would_deadlock(&caller, &target, open) {
                    Some(Err(RouterError::WouldDeadlock))
                } else {
                    let ghost w0 = self.waiters@;
                    let w = Waiter { caller, target, token };
                    self.waiters.push(w);
                    proof {
                        assert(waiters_view(self.waiters@) =~= waiters_view(w0).push(w@));
                    }
                    None
                }
            },
        }
    }
}

} // verus!
