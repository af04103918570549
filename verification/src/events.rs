//! What flows into and out of an agent: the events it receives (from its
//! tasks, the router and the app), the events the decision core handles,
//! the events it reports to the app, and the state it persists. The
//! conversation history, its updates, tool calls and user messages are
//! opaque here: type parameters `H`, `U`, `I` and `M`.

use crate::id::AgentId;
use crate::ledger::TaskId;
use crate::status::ActivityStatus;
use vstd::prelude::*;

verus! {

/// A prompt typed by the user.
#[derive(Debug)]
pub struct UserPrompt {
    pub text: String,
    /// `None`: the receiving agent uses its current generation
    pub generation: Option<u64>,
}

/// Which stream a turn feeds: a normal turn or a compaction.
#[derive(Debug, Clone, Copy, PartialEq, Eq)]
pub enum TurnType {
    Default,
    Compact,
}

/// What an agent reports to the app.
#[derive(Debug)]
pub enum ParentEvent<S, U> {
    Started(Box<S>),
    HistoryUpdate(u64, U),
    StatusUpdate(ActivityStatus),
    AssistantSet(String),
    Error(String),
    /// a live chunk of a tool's output, for rendering only
    ToolOutput { call_id: String, chunk: String },
}

/// A control event from the app; `A` is the acknowledgement channel of a
/// duplicate request.
#[derive(Debug)]
pub enum ExternalEvent<A> {
    /// compact the first n messages
    Compact(usize),
    Retry,
    Abort,
    Undo(usize),
    SetAssistant(String),
    Submit(UserPrompt),
    /// `ack` is resolved iff the copy registered
    DuplicateRequest { copy: AgentId, ack: A },
}

/// An event in an agent's mailbox.
#[derive(Debug)]
pub enum AgentEvent<U, I, M, A> {
    TaskDone(TaskId, Result<(), String>),
    TaskEvent(TaskId, u64, U),
    /// a tool returned its resolved call
    ToolResolved(TaskId, I),
    /// a tool died; `error` is its marker and partial output
    ToolFailed { id: TaskId, call_id: String, error: String },
    /// an inter-agent message
    Inbound(M),
    External(ExternalEvent<A>),
}

/// Whether an event is a router delivery (an inter-agent message or an app
/// event): the agent counts these, and pings the router after each one,
/// so the router can tell a stale idle report from a settled one.
pub fn is_delivery<U, I, M, A>(event: &AgentEvent<U, I, M, A>) -> (b: bool)
    ensures
        b == (event is Inbound || event is External),
{
    match event {
        AgentEvent::Inbound(_) => true,
        AgentEvent::External(_) => true,
        _ => false,
    }
}

/// An event for the decision core: a mailbox event without channels.
#[derive(Debug)]
pub enum CoreEvent<U, I, M> {
    TaskDone(TaskId, Result<(), String>),
    TaskEvent(TaskId, u64, U),
    ToolResolved(TaskId, I),
    ToolFailed { id: TaskId, call_id: String, error: String },
    /// inbound inter-agent message: wakes if idle, buffered if busy
    Message(M),
    Submit(UserPrompt),
    Compact(usize),
    Retry,
    Abort,
    Undo(usize),
    SetAssistant(String),
    Duplicate(AgentId),
}

/// The core event a mailbox event stands for.
pub open spec fn core_event_of<U, I, M, A>(e: AgentEvent<U, I, M, A>) -> CoreEvent<U, I, M> {
    match e {
        AgentEvent::TaskDone(t, r) => CoreEvent::TaskDone(t, r),
        AgentEvent::TaskEvent(t, g, u) => CoreEvent::TaskEvent(t, g, u),
        AgentEvent::ToolResolved(t, i) => CoreEvent::ToolResolved(t, i),
        AgentEvent::ToolFailed { id, call_id, error } => CoreEvent::ToolFailed { id, call_id, error },
        AgentEvent::Inbound(m) => CoreEvent::Message(m),
        AgentEvent::External(x) => match x {
            ExternalEvent::Submit(p) => CoreEvent::Submit(p),
            ExternalEvent::Compact(n) => CoreEvent::Compact(n),
            ExternalEvent::Retry => CoreEvent::Retry,
            ExternalEvent::Abort => CoreEvent::Abort,
            ExternalEvent::Undo(n) => CoreEvent::Undo(n),
            ExternalEvent::SetAssistant(id) => CoreEvent::SetAssistant(id),
            ExternalEvent::DuplicateRequest { copy, .. } => CoreEvent::Duplicate(copy),
        },
    }
}

/// Translation keeps each event's kind and payload: an app control event
/// becomes the core event of the same name with the same argument, an
/// inbound message becomes a core message, and a task report keeps its
/// task id and contents.
pub proof fn lemma_translation_keeps_kind<U, I, M, A>(e: AgentEvent<U, I, M, A>)
    ensures
        e matches AgentEvent::External(ExternalEvent::Compact(n)) ==> core_event_of(e) matches CoreEvent::Compact(m) && m == n,
        e matches AgentEvent::External(ExternalEvent::Undo(n)) ==> core_event_of(e) matches CoreEvent::Undo(m) && m == n,
        e matches AgentEvent::External(ExternalEvent::Retry) ==> core_event_of(e) is Retry,
        e matches AgentEvent::External(ExternalEvent::Abort) ==> core_event_of(e) is Abort,
        e matches AgentEvent::External(ExternalEvent::SetAssistant(a)) ==> core_event_of(e) matches CoreEvent::SetAssistant(b) && b == a,
        e matches AgentEvent::External(ExternalEvent::Submit(p)) ==> core_event_of(e) matches CoreEvent::Submit(q) && q == p,
        e matches AgentEvent::External(ExternalEvent::DuplicateRequest { copy, .. }) ==> core_event_of(e) matches CoreEvent::Duplicate(d) && d == copy,
        e matches AgentEvent::Inbound(x) ==> core_event_of(e) matches CoreEvent::Message(y) && y == x,
        e matches AgentEvent::TaskDone(t, r) ==> core_event_of(e) matches CoreEvent::TaskDone(t2, r2) && t2 == t && r2 == r,
        e matches AgentEvent::TaskEvent(t, g, u) ==> core_event_of(e) matches CoreEvent::TaskEvent(t2, g2, u2) && t2 == t && g2 == g && u2 == u,
        e matches AgentEvent::ToolResolved(t, i) ==> core_event_of(e) matches CoreEvent::ToolResolved(t2, i2) && t2 == t && i2 == i,
{
}

/// Translation loses nothing but a duplicate request's acknowledgement:
/// two mailbox events that translate to the same core event are the same
/// event, or duplicate requests for the same copy.
pub proof fn lemma_translation_injective<U, I, M, A>(e1: AgentEvent<U, I, M, A>, e2: AgentEvent<U, I, M, A>)
    requires
        core_event_of(e1) == core_event_of(e2),
    ensures
        e1 == e2 || (e1 matches AgentEvent::External(ExternalEvent::DuplicateRequest { copy: c1, .. })
            && e2 matches AgentEvent::External(ExternalEvent::DuplicateRequest { copy: c2, .. }) && c1 == c2),
{
}

/// Translates a mailbox event into a core event. The acknowledgement of a
/// duplicate request is parked in `dup_ack`, so the core stays free of
/// channels; any other event leaves the slot as it was.
pub fn translate<U, I, M, A>(event: AgentEvent<U, I, M, A>, dup_ack: &mut Option<A>) -> (c: CoreEvent<U, I, M>)
    ensures
        c == core_event_of(event),
        event matches AgentEvent::External(ExternalEvent::Compact(n)) ==> c matches CoreEvent::Compact(m) && m == n,
        event matches AgentEvent::External(ExternalEvent::Undo(n)) ==> c matches CoreEvent::Undo(m) && m == n,
        event matches AgentEvent::External(ExternalEvent::Retry) ==> c is Retry,
        event matches AgentEvent::External(ExternalEvent::Abort) ==> c is Abort,
        event matches AgentEvent::External(ExternalEvent::SetAssistant(a)) ==> c matches CoreEvent::SetAssistant(b) && b == a,
        event matches AgentEvent::External(ExternalEvent::Submit(p)) ==> c matches CoreEvent::Submit(q) && q == p,
        event matches AgentEvent::External(ExternalEvent::DuplicateRequest { copy, .. }) ==> c matches CoreEvent::Duplicate(d) && d == copy,
        event matches AgentEvent::Inbound(x) ==> c matches CoreEvent::Message(y) && y == x,
        match event {
            AgentEvent::External(ExternalEvent::DuplicateRequest { ack, .. }) => *final(dup_ack) == Some(ack),
            _ => *final(dup_ack) == *old(dup_ack),
        },
{
    match event {
        AgentEvent::TaskDone(t, r) => CoreEvent::TaskDone(t, r),
        AgentEvent::TaskEvent(t, g, u) => CoreEvent::TaskEvent(t, g, u),
        AgentEvent::ToolResolved(t, i) => CoreEvent::ToolResolved(t, i),
        AgentEvent::ToolFailed { id, call_id, error } => CoreEvent::ToolFailed { id, call_id, error },
        AgentEvent::Inbound(m) => CoreEvent::Message(m),
        AgentEvent::External(x) => match x {
            ExternalEvent::Submit(p) => CoreEvent::Submit(p),
            ExternalEvent::Compact(n) => CoreEvent::Compact(n),
            ExternalEvent::Retry => CoreEvent::Retry,
            ExternalEvent::Abort => CoreEvent::Abort,
            ExternalEvent::Undo(n) => CoreEvent::Undo(n),
            ExternalEvent::SetAssistant(id) => CoreEvent::SetAssistant(id),
            ExternalEvent::DuplicateRequest { copy, ack } => {
                *dup_ack = Some(ack);
                CoreEvent::Duplicate(copy)
            },
        },
    }
}

/// The persisted context of an agent: the snapshot commit its workdir is
/// built on, the base its diffs are taken against, and its history.
#[derive(Debug)]
pub struct AgentContext<H> {
    pub commit: String,
    pub base: String,
    pub history: H,
}

/// The state of an agent.
#[derive(Debug)]
pub struct AgentState<H, M> {
    /// last status reported (not persisted)
    pub status: ActivityStatus,
    pub assistant: String,
    pub context: AgentContext<H>,
    /// inbound messages buffered while busy or compacting
    pub pending_messages: Vec<M>,
}

impl<H, M> AgentState<H, M> {
    /// A primary agent from scratch: idle, on `assistant`, based on and
    /// built on `commit`, with a fresh `history` and nothing buffered.
    pub fn new(assistant: String, commit: String, history: H) -> (s: Self)
        ensures
            s.status matches ActivityStatus::Normal(crate::status::TurnStatus::Idle),
            s.assistant == assistant,
            s.context.commit@ == commit@,
            s.context.base@ == commit@,
            s.context.history == history,
            s.pending_messages@.len() == 0,
    {
        let base = commit.clone();
        AgentState {
            status: ActivityStatus::default_status(),
            assistant,
            context: AgentContext { base, commit, history },
            pending_messages: Vec::new(),
        }
    }
}

/// What a hidden subagent is built from: its parent's commit, assistant and
/// history.
#[derive(Debug)]
pub struct SubagentSpawnSnapshot<H> {
    pub commit: String,
    pub assistant_id: String,
    pub history: H,
}

} // verus!
