//! The router's value types: node status, turn outcomes, `wait`/`list`
//! results, durable graph records and the live node of the agent graph.

use crate::id::AgentId;
use vstd::prelude::*;

verus! {

/// Liveness of a node in the agent graph.
#[derive(Clone, Copy, Debug, PartialEq, Eq, Structural)]
pub enum NodeStatus {
    Spawning,
    Running,
    Idle,
    Dead,
}

impl NodeStatus {
    /// The variant's name, as `Display` prints it.
    pub fn name(&self) -> (s: &'static str)
        ensures
            s@ == node_status_name(*self),
    {
        proof {
            reveal_strlit("Spawning");
            reveal_strlit("Running");
            reveal_strlit("Idle");
            reveal_strlit("Dead");
        }
        match self {
            NodeStatus::Spawning => "Spawning",
            NodeStatus::Running => "Running",
            NodeStatus::Idle => "Idle",
            NodeStatus::Dead => "Dead",
        }
    }
}

/// The printed name of a status.
pub open spec fn node_status_name(s: NodeStatus) -> Seq<char> {
    match s {
        NodeStatus::Spawning => "Spawning"@,
        NodeStatus::Running => "Running"@,
        NodeStatus::Idle => "Idle"@,
        NodeStatus::Dead => "Dead"@,
    }
}

/// Router errors that inter-agent communication can cause.
#[derive(Clone, Copy, Debug, PartialEq, Eq, Structural)]
pub enum RouterError {
    Unreachable,
    Busy,
    WouldDeadlock,
    NotOwned,
}

impl RouterError {
    /// The error's message, as `Display` prints it.
    pub fn message(&self) -> (s: &'static str)
        ensures
            s@ == router_error_message(*self),
    {
        proof {
            reveal_strlit("target unreachable: not a live agent in your tab");
            reveal_strlit("target mailbox full; retry later");
            reveal_strlit("this wait would close a wait cycle");
            reveal_strlit("target is not a strict spawn-descendant of yours");
        }
        match self {
            RouterError::Unreachable => "target unreachable: not a live agent in your tab",
            RouterError::Busy => "target mailbox full; retry later",
            RouterError::WouldDeadlock => "this wait would close a wait cycle",
            RouterError::NotOwned => "target is not a strict spawn-descendant of yours",
        }
    }
}

/// The message of a router error.
pub open spec fn router_error_message(e: RouterError) -> Seq<char> {
    match e {
        RouterError::Unreachable => "target unreachable: not a live agent in your tab"@,
        RouterError::Busy => "target mailbox full; retry later"@,
        RouterError::WouldDeadlock => "this wait would close a wait cycle"@,
        RouterError::NotOwned => "target is not a strict spawn-descendant of yours"@,
    }
}

/// The view of an optional string.
pub open spec fn opt_view(o: Option<String>) -> Option<Seq<char>> {
    match o {
        Some(s) => Some(s@),
        None => None,
    }
}

/// A copy of an optional string.
pub fn clone_opt(o: &Option<String>) -> (c: Option<String>)
    ensures
        opt_view(c) == opt_view(*o),
{
    match o {
        Some(s) => Some(s.clone()),
        None => None,
    }
}

/// Last output text and typed failure of an agent's turn.
#[derive(Debug)]
pub struct TurnOutcome {
    pub output: Option<String>,
    pub error: Option<String>,
}

/// Mathematical view of a [`TurnOutcome`].
pub struct OutcomeView {
    pub output: Option<Seq<char>>,
    pub error: Option<Seq<char>>,
}

impl View for TurnOutcome {
    type V = OutcomeView;

    open spec fn view(&self) -> OutcomeView {
        OutcomeView { output: opt_view(self.output), error: opt_view(self.error) }
    }
}

impl TurnOutcome {
    /// No output, no error.
    pub fn empty() -> (o: Self)
        ensures
            o@.output is None,
            o@.error is None,
    {
        TurnOutcome { output: None, error: None }
    }

    /// A copy of this outcome.
    pub fn copy(&self) -> (o: Self)
        ensures
            o@ == self@,
    {
        TurnOutcome { output: clone_opt(&self.output), error: clone_opt(&self.error) }
    }
}

impl Clone for TurnOutcome {
    fn clone(&self) -> (o: Self)
        ensures
            o@ == self@,
    {
        self.copy()
    }
}

/// Return value of the `wait` tool.
#[derive(Debug)]
pub struct WaitResult {
    pub status: NodeStatus,
    pub outcome: TurnOutcome,
}

/// Mathematical view of a [`WaitResult`].
pub struct WaitView {
    pub status: NodeStatus,
    pub outcome: OutcomeView,
}

impl View for WaitResult {
    type V = WaitView;

    open spec fn view(&self) -> WaitView {
        WaitView { status: self.status, outcome: self.outcome@ }
    }
}

impl Clone for WaitResult {
    fn clone(&self) -> (w: Self)
        ensures
            w@ == self@,
    {
        WaitResult { status: self.status, outcome: self.outcome.copy() }
    }
}

/// The view of a wait reply.
pub open spec fn reply_view(r: Result<WaitResult, RouterError>) -> Result<WaitView, RouterError> {
    match r {
        Ok(w) => Ok(w@),
        Err(e) => Err(e),
    }
}

/// A copy of a wait reply.
pub fn clone_reply(r: &Result<WaitResult, RouterError>) -> (c: Result<WaitResult, RouterError>)
    ensures
        reply_view(c) == reply_view(*r),
{
    match r {
        Ok(w) => Ok(w.clone()),
        Err(e) => Err(*e),
    }
}

/// The view of an optional agent id.
pub open spec fn opt_id_view(o: Option<AgentId>) -> Option<Seq<char>> {
    match o {
        Some(a) => Some(a@),
        None => None,
    }
}

/// A copy of an optional agent id.
pub fn clone_opt_id(o: &Option<AgentId>) -> (c: Option<AgentId>)
    ensures
        opt_id_view(c) == opt_id_view(*o),
{
    match o {
        Some(a) => Some(a.clone()),
        None => None,
    }
}

/// One entry of the `list` tool's return value.
#[derive(Debug)]
pub struct ListEntry {
    pub id: AgentId,
    pub parent: Option<AgentId>,
    pub status: NodeStatus,
}

/// The durable record of a graph node.
#[derive(Debug)]
pub struct GraphRecord {
    pub root: AgentId,
    pub parent: Option<AgentId>,
    pub archived: bool,
}

/// Mathematical view of a [`GraphRecord`].
pub struct RecordView {
    pub root: Seq<char>,
    pub parent: Option<Seq<char>>,
    pub archived: bool,
}

impl View for GraphRecord {
    type V = RecordView;

    open spec fn view(&self) -> RecordView {
        RecordView { root: self.root@, parent: opt_id_view(self.parent), archived: self.archived }
    }
}

/// Liveness ping from an agent: processed deliveries, status and outcome.
#[derive(Debug)]
pub struct StatusPing {
    pub processed: u64,
    pub status: NodeStatus,
    pub outcome: TurnOutcome,
}

/// A live node of the agent graph. The runtime's channels and kill switch
/// are held by the caller; the node records which of them are attached.
#[derive(Debug)]
pub struct AgentNode {
    /// inter-agent + task mailbox attached
    pub mailbox: bool,
    /// priority channel for app events attached
    pub user_tx: bool,
    /// kill switch attached (set once the runtime is attached)
    pub abort: bool,
    /// mailbox deliveries committed to the agent
    pub delivered: u64,
    /// the agent's processed watermark from its last ping
    pub processed: u64,
    pub root: AgentId,
    pub parent: Option<AgentId>,
    pub status: NodeStatus,
    /// cached last turn's outcome
    pub outcome: TurnOutcome,
}

/// Mathematical view of an [`AgentNode`].
pub struct NodeView {
    pub mailbox: bool,
    pub user_tx: bool,
    pub abort: bool,
    pub delivered: nat,
    pub processed: nat,
    pub root: Seq<char>,
    pub parent: Option<Seq<char>>,
    pub status: NodeStatus,
    pub outcome: OutcomeView,
}

impl View for AgentNode {
    type V = NodeView;

    open spec fn view(&self) -> NodeView {
        NodeView {
            mailbox: self.mailbox,
            user_tx: self.user_tx,
            abort: self.abort,
            delivered: self.delivered as nat,
            processed: self.processed as nat,
            root: self.root@,
            parent: opt_id_view(self.parent),
            status: self.status,
            outcome: self.outcome@,
        }
    }
}

/// The `wait` result a node stands for.
pub open spec fn wait_view(n: NodeView) -> WaitView {
    WaitView { status: n.status, outcome: n.outcome }
}

/// The durable record a node stands for.
pub open spec fn record_view(n: NodeView, archived: bool) -> RecordView {
    RecordView { root: n.root, parent: n.parent, archived }
}

impl AgentNode {
    /// A fresh node with nothing attached and no deliveries.
    pub fn new(root: AgentId, parent: Option<AgentId>, status: NodeStatus) -> (n: Self)
        ensures
            !n@.mailbox && !n@.user_tx && !n@.abort,
            n@.delivered == 0 && n@.processed == 0,
            n@.root == root@,
            n@.parent == opt_id_view(parent),
            n@.status == status,
            n@.outcome.output is None && n@.outcome.error is None,
    {
        AgentNode {
            mailbox: false,
            user_tx: false,
            abort: false,
            delivered: 0,
            processed: 0,
            root,
            parent,
            status,
            outcome: TurnOutcome::empty(),
        }
    }

    /// The durable record of this node.
    pub fn record(&self, archived: bool) -> (r: GraphRecord)
        ensures
            r@ == record_view(self@, archived),
    {
        GraphRecord { root: self.root.clone(), parent: clone_opt_id(&self.parent), archived }
    }

    /// What a `wait` on this node returns.
    pub fn wait_result(&self) -> (w: WaitResult)
        ensures
            w@ == wait_view(self@),
    {
        WaitResult { status: self.status, outcome: self.outcome.copy() }
    }
}

impl AgentNode {
    /// A copy of this node.
    pub fn copy(&self) -> (n: Self)
        ensures
            n@ == self@,
    {
        AgentNode {
            mailbox: self.mailbox,
            user_tx: self.user_tx,
            abort: self.abort,
            delivered: self.delivered,
            processed: self.processed,
            root: self.root.clone(),
            parent: clone_opt_id(&self.parent),
            status: self.status,
            outcome: self.outcome.copy(),
        }
    }
}

/// Mathematical view of a [`StatusPing`].
pub struct PingView {
    pub processed: nat,
    pub status: NodeStatus,
    pub outcome: OutcomeView,
}

impl View for StatusPing {
    type V = PingView;

    open spec fn view(&self) -> PingView {
        PingView { processed: self.processed as nat, status: self.status, outcome: self.outcome@ }
    }
}

/// What a non-blocking send into an agent's channel returned.
#[derive(Clone, Copy, Debug, PartialEq, Eq, Structural)]
pub enum SendOutcome {
    /// the message was queued
    Delivered,
    /// the channel is at capacity
    Full,
    /// the receiving runtime is gone
    Closed,
}

/// Errors of the app/runtime-side router commands.
#[derive(Debug)]
pub enum AgentError {
    AlreadyExists(AgentId),
    Unreachable(AgentId),
    Dead(AgentId),
    NotAttached(AgentId),
    MailboxFull(AgentId),
    AlreadyAttached(AgentId),
    Unknown(AgentId),
    TabAtCap,
    Collisions,
}

/// Mathematical view of an [`AgentError`].
pub enum AgentErrorView {
    AlreadyExists(Seq<char>),
    Unreachable(Seq<char>),
    Dead(Seq<char>),
    NotAttached(Seq<char>),
    MailboxFull(Seq<char>),
    AlreadyAttached(Seq<char>),
    Unknown(Seq<char>),
    TabAtCap,
    Collisions,
}

impl View for AgentError {
    type V = AgentErrorView;

    open spec fn view(&self) -> AgentErrorView {
        match self {
            AgentError::AlreadyExists(a) => AgentErrorView::AlreadyExists(a@),
            AgentError::Unreachable(a) => AgentErrorView::Unreachable(a@),
            AgentError::Dead(a) => AgentErrorView::Dead(a@),
            AgentError::NotAttached(a) => AgentErrorView::NotAttached(a@),
            AgentError::MailboxFull(a) => AgentErrorView::MailboxFull(a@),
            AgentError::AlreadyAttached(a) => AgentErrorView::AlreadyAttached(a@),
            AgentError::Unknown(a) => AgentErrorView::Unknown(a@),
            AgentError::TabAtCap => AgentErrorView::TabAtCap,
            AgentError::Collisions => AgentErrorView::Collisions,
        }
    }
}

/// The message of an [`AgentError`].
pub open spec fn agent_error_message(e: AgentErrorView) -> Seq<char> {
    match e {
        AgentErrorView::AlreadyExists(a) => "agent "@ + a + " already exists"@,
        AgentErrorView::Unreachable(a) => "agent "@ + a + " is unreachable"@,
        AgentErrorView::Dead(a) => "agent "@ + a + " is dead"@,
        AgentErrorView::NotAttached(a) => "agent "@ + a + " runtime is not attached"@,
        AgentErrorView::MailboxFull(a) => "agent "@ + a + " mailbox is full"@,
        AgentErrorView::AlreadyAttached(a) => "agent "@ + a + " runtime is already attached"@,
        AgentErrorView::Unknown(a) => "unknown agent "@ + a,
        AgentErrorView::TabAtCap => "this tab is at its agent cap (32): archive finished agents to free slots (list shows every member and its status)"@,
        AgentErrorView::Collisions => "3 collisions when generating agent id"@,
    }
}

impl AgentError {
    /// The error's message, as the error's `Display` prints it.
    pub fn message(&self) -> (s: String)
        ensures
            s@ == agent_error_message(self@),
    {
        match self {
            AgentError::AlreadyExists(a) => crate::text::concat3("agent ", a.as_str(), " already exists"),
            AgentError::Unreachable(a) => crate::text::concat3("agent ", a.as_str(), " is unreachable"),
            AgentError::Dead(a) => crate::text::concat3("agent ", a.as_str(), " is dead"),
            AgentError::NotAttached(a) => crate::text::concat3("agent ", a.as_str(), " runtime is not attached"),
            AgentError::MailboxFull(a) => crate::text::concat3("agent ", a.as_str(), " mailbox is full"),
            AgentError::AlreadyAttached(a) => crate::text::concat3("agent ", a.as_str(), " runtime is already attached"),
            AgentError::Unknown(a) => crate::text::concat2("unknown agent ", a.as_str()),
            AgentError::TabAtCap => String::from_str(
                "this tab is at its agent cap (32): archive finished agents to free slots (list shows every member and its status)",
            ),
            AgentError::Collisions => String::from_str("3 collisions when generating agent id"),
        }
    }
}

/// `r` failed with the error `e`.
pub open spec fn is_err<T>(r: Result<T, AgentError>, e: AgentErrorView) -> bool {
    match r {
        Err(x) => x@ == e,
        Ok(_) => false,
    }
}

} // verus!
