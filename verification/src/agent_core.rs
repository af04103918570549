//! The agent's decision rules, as far as they do not depend on how the
//! conversation history is stored: when an inbound message wakes the agent
//! and when it is buffered, when a submit is queued, rejected or turned,
//! what an abort settles, when a finished task leads to a follow-up turn,
//! and what the agent reports to the router about itself.

use crate::events::TurnType;
use crate::ledger::{TaskId, TaskLedger};
use crate::router::types::{NodeStatus, StatusPing, TurnOutcome, opt_view, OutcomeView};
use crate::status::{ActivityStatus, TurnStatus};
use crate::text::{concat2, decimal, decimal_string};
use vstd::prelude::*;

verus! {

/// What the decisions read of the conversation history.
#[derive(Debug, Clone, Copy)]
pub struct HistoryFacts {
    /// the history's current generation
    pub generation: u64,
    /// a compaction is under way
    pub compacting: bool,
    /// the last turn ended in a way that asks for another one
    pub needs_another_turn: bool,
    /// the current turn is still open and can be failed
    pub failable: bool,
}

/// Why the agent refused an event.
#[derive(Debug)]
pub enum CoreError {
    /// a task is in flight
    Busy,
    /// a submit was made against another generation of the history
    GenerationMismatch { expected: u64 },
}

/// The text of a refusal.
pub open spec fn core_error_message(e: CoreError) -> Seq<char> {
    match e {
        CoreError::Busy => "agent is busy"@,
        CoreError::GenerationMismatch { expected } => "history generation mismatch: expected "@ + decimal(expected as nat),
    }
}

impl CoreError {
    /// The text of the refusal.
    pub fn message(&self) -> (s: String)
        ensures
            s@ == core_error_message(*self),
    {
        match self {
            CoreError::Busy => String::from_str("agent is busy"),
            CoreError::GenerationMismatch { expected } => {
                let n = decimal_string(*expected);
                concat2("history generation mismatch: expected ", n.as_str())
            },
        }
    }
}

/// Control events that need an idle agent (compact, retry, undo, switching
/// the assistant, duplicating) are refused while a task is in flight.
pub fn ensure_idle(ledger: &TaskLedger) -> (r: Result<(), CoreError>)
    requires
        ledger.wf(),
    ensures
        r is Ok <==> ledger.pending_ids() == Set::<u64>::empty(),
        r matches Err(e) ==> e is Busy,
{
    if ledger.idle() {
        Ok(())
    } else {
        Err(CoreError::Busy)
    }
}

/// A task's stream events are applied only while the task is pending: an
/// event of a task that was aborted or finished is dropped.
pub fn applies_task_event(ledger: &TaskLedger, id: &TaskId) -> (b: bool)
    ensures
        b == ledger.pending_ids().contains(id.0),
{
    ledger.pending(id)
}

/// What an inbound message does.
#[derive(Debug, PartialEq, Eq)]
pub enum Delivery {
    /// deliver the buffered messages and this one, and start a turn
    Wake,
    /// buffer it (and save, so it survives a restart) until the next idle
    Buffer,
}

/// An inbound message wakes an idle agent that is not compacting; a busy or
/// compacting agent buffers it.
pub fn delivery(ledger: &TaskLedger, facts: &HistoryFacts) -> (d: Delivery)
    requires
        ledger.wf(),
    ensures
        d is Wake <==> (ledger.pending_ids() == Set::<u64>::empty() && !facts.compacting),
{
    if ledger.idle() && !facts.compacting {
        Delivery::Wake
    } else {
        Delivery::Buffer
    }
}

/// What a submitted prompt does.
#[derive(Debug, PartialEq, Eq)]
pub enum SubmitPlan {
    /// queue it with the buffered messages (and save): it is delivered in a
    /// turn of its own at the next true idle
    Queue,
    /// deliver the buffered messages, then the prompt at this generation,
    /// bump the generation and start a turn
    Turn(u64),
}

/// A submit to a busy or compacting agent is queued, whatever generation it
/// names; to an idle agent it is turned at the generation it names (the
/// current one if it names none), and refused when that is not the current
/// generation, before anything buffered is delivered.
pub fn submit_plan(ledger: &TaskLedger, facts: &HistoryFacts, generation: Option<u64>) -> (r: Result<SubmitPlan, CoreError>)
    requires
        ledger.wf(),
    ensures
        !(ledger.pending_ids() == Set::<u64>::empty()) || facts.compacting ==> r == Ok::<SubmitPlan, CoreError>(SubmitPlan::Queue),
        ledger.pending_ids() == Set::<u64>::empty() && !facts.compacting ==> match generation {
            Some(g) if g != facts.generation => r matches Err(CoreError::GenerationMismatch { expected }) && expected == facts.generation,
            _ => r == Ok::<SubmitPlan, CoreError>(SubmitPlan::Turn(facts.generation)),
        },
{
    if !ledger.idle() || facts.compacting {
        return Ok(SubmitPlan::Queue);
    }
    let g = match generation {
        Some(g) => g,
        None => facts.generation,
    };
    if g != facts.generation {
        return Err(CoreError::GenerationMismatch { expected: facts.generation });
    }
    Ok(SubmitPlan::Turn(g))
}

/// What an abort settles in the history, after bumping its generation.
#[derive(Debug, PartialEq, Eq)]
pub enum AbortPlan {
    /// abandon the compaction under way
    CompactAbort,
    /// fail the open turn with "aborted by user"
    FailTurn,
    /// nothing is open
    Nothing,
}

/// An abort forgets every task in flight (keeping the id counter) and
/// abandons a compaction, or else fails the open turn; it never delivers
/// buffered messages, so it cannot start a turn.
pub fn abort(ledger: &mut TaskLedger, facts: &HistoryFacts) -> (p: AbortPlan)
    requires
        old(ledger).wf(),
    ensures
        final(ledger).wf(),
        final(ledger).pending_ids() == Set::<u64>::empty(),
        final(ledger).next_id() == old(ledger).next_id(),
        facts.compacting ==> p is CompactAbort,
        !facts.compacting && facts.failable ==> p is FailTurn,
        !facts.compacting && !facts.failable ==> p is Nothing,
{
    ledger.clear();
    if facts.compacting {
        AbortPlan::CompactAbort
    } else if facts.failable {
        AbortPlan::FailTurn
    } else {
        AbortPlan::Nothing
    }
}

/// Finishes a ledger task; true iff it was pending and the agent is now at
/// a true idle, the one point where buffered messages are delivered.
pub fn finish_task(ledger: &mut TaskLedger, id: &TaskId) -> (at_idle: bool)
    requires
        old(ledger).wf(),
    ensures
        final(ledger).wf(),
        final(ledger).pending_ids() == old(ledger).pending_ids().remove(id.0),
        final(ledger).next_id() == old(ledger).next_id(),
        at_idle == (old(ledger).pending_ids().contains(id.0) && final(ledger).pending_ids() == Set::<u64>::empty()),
{
    let was_pending = ledger.finish(id);
    if !was_pending {
        return false;
    }
    ledger.idle()
}

/// At a true idle a follow-up turn starts when messages were just delivered
/// or the history asks for another turn, but never during a compaction.
pub fn followup_turn(flushed: bool, facts: &HistoryFacts) -> (b: bool)
    ensures
        b == ((flushed || facts.needs_another_turn) && !facts.compacting),
{
    (flushed || facts.needs_another_turn) && !facts.compacting
}

/// A retry restarts the compaction when one is under way, else a normal
/// turn.
pub fn retry_turn(facts: &HistoryFacts) -> (t: TurnType)
    ensures
        facts.compacting ==> t == TurnType::Compact,
        !facts.compacting ==> t == TurnType::Default,
{
    if facts.compacting {
        TurnType::Compact
    } else {
        TurnType::Default
    }
}

/// On startup a restored agent delivers messages buffered before the
/// restart when it is idle and not compacting.
pub fn resume_flushes(ledger: &TaskLedger, facts: &HistoryFacts) -> (b: bool)
    requires
        ledger.wf(),
    ensures
        b == (ledger.pending_ids() == Set::<u64>::empty() && !facts.compacting),
{
    ledger.idle() && !facts.compacting
}

// ---------------------------------------------------------------------------
// status

/// Two turn states are equal.
pub open spec fn same_turn_spec(a: TurnStatus, b: TurnStatus) -> bool {
    match (a, b) {
        (TurnStatus::InProgress, TurnStatus::InProgress) => true,
        (TurnStatus::Idle, TurnStatus::Idle) => true,
        (TurnStatus::Failed(x), TurnStatus::Failed(y)) => x@ == y@,
        _ => false,
    }
}

/// Two activity statuses are equal.
pub open spec fn same_status_spec(a: ActivityStatus, b: ActivityStatus) -> bool {
    match (a, b) {
        (ActivityStatus::Normal(x), ActivityStatus::Normal(y)) => same_turn_spec(x, y),
        (ActivityStatus::Compact(x), ActivityStatus::Compact(y)) => same_turn_spec(x, y),
        _ => false,
    }
}

/// Whether two turn states are equal.
pub fn same_turn(a: &TurnStatus, b: &TurnStatus) -> (r: bool)
    ensures
        r == same_turn_spec(*a, *b),
{
    match (a, b) {
        (TurnStatus::InProgress, TurnStatus::InProgress) => true,
        (TurnStatus::Idle, TurnStatus::Idle) => true,
        (TurnStatus::Failed(x), TurnStatus::Failed(y)) => *x == *y,
        _ => false,
    }
}

/// Whether two activity statuses are equal.
pub fn same_status(a: &ActivityStatus, b: &ActivityStatus) -> (r: bool)
    ensures
        r == same_status_spec(*a, *b),
{
    match (a, b) {
        (ActivityStatus::Normal(x), ActivityStatus::Normal(y)) => same_turn(x, y),
        (ActivityStatus::Compact(x), ActivityStatus::Compact(y)) => same_turn(x, y),
        _ => false,
    }
}

/// Records a freshly derived status; true iff it differs from the last one
/// reported, which is then replaced (a status update is emitted only on a
/// change).
pub fn sync_status(last: &mut ActivityStatus, derived: ActivityStatus) -> (changed: bool)
    ensures
        changed == !same_status_spec(*old(last), derived),
        changed ==> *final(last) == derived,
        !changed ==> *final(last) == *old(last),
{
    if same_status(last, &derived) {
        return false;
    }
    *last = derived;
    true
}

/// The router ping for an agent in `status`: a running turn reports
/// running with no outcome; an idle one its last text output; a failed one
/// idle with the turn's error. A handler error given by the caller takes
/// the place of the turn's error.
pub open spec fn status_ping_spec(processed: u64, status: ActivityStatus, last_output: Option<Seq<char>>, error: Option<Seq<char>>) -> (NodeStatus, OutcomeView) {
    match status.turn_spec() {
        TurnStatus::InProgress => (NodeStatus::Running, OutcomeView { output: None, error: error }),
        TurnStatus::Idle => (NodeStatus::Idle, OutcomeView { output: last_output, error: error }),
        TurnStatus::Failed(msg) => (NodeStatus::Idle, OutcomeView {
            output: None,
            error: if error is Some { error } else { Some(msg@) },
        }),
    }
}

/// Builds the liveness ping an agent sends the router.
pub fn status_ping(processed: u64, status: &ActivityStatus, last_output: Option<String>, error: Option<String>) -> (p: StatusPing)
    ensures
        p.processed == processed,
        (p.status, p.outcome@) == status_ping_spec(processed, *status, opt_view(last_output), opt_view(error)),
{
    match status.turn() {
        TurnStatus::InProgress => StatusPing {
            processed,
            status: NodeStatus::Running,
            outcome: TurnOutcome { output: None, error },
        },
        TurnStatus::Idle => StatusPing {
            processed,
            status: NodeStatus::Idle,
            outcome: TurnOutcome { output: last_output, error },
        },
        TurnStatus::Failed(msg) => {
            let error = match error {
                Some(e) => Some(e),
                None => Some(msg.clone()),
            };
            StatusPing { processed, status: NodeStatus::Idle, outcome: TurnOutcome { output: None, error } }
        },
    }
}

} // verus!
