//! Resolving a finished task into the one event the agent handles next:
//! a turn's result, a resolved tool call, or a tool failure that keeps the
//! output it streamed before it died.

use crate::ledger::TaskId;
use crate::text::concat2;
use vstd::prelude::*;

verus! {

/// The error text of a task aborted by the user.
pub const ABORTED_BY_USER: &'static str = "aborted by user";

/// A panic payload as far as its message goes: `panic!` hands out a `&str`
/// for a literal message and a `String` for a formatted one.
#[derive(Debug)]
pub enum PanicPayload {
    Str(String),
    Owned(String),
    Other,
}

/// The message of a panic payload: its text when it is a `&str` or a
/// `String`, else `unknown panic`.
pub open spec fn panic_message_spec(p: PanicPayload) -> Seq<char> {
    match p {
        PanicPayload::Str(s) => s@,
        PanicPayload::Owned(s) => s@,
        PanicPayload::Other => "unknown panic"@,
    }
}

/// The message of a panic payload.
pub fn panic_message(payload: &PanicPayload) -> (s: String)
    ensures
        s@ == panic_message_spec(*payload),
{
    match payload {
        PanicPayload::Str(s) => s.clone(),
        PanicPayload::Owned(s) => s.clone(),
        PanicPayload::Other => String::from_str("unknown panic"),
    }
}

// ---------------------------------------------------------------------------
// streamed tool output

/// Accumulated entries `(call_id, text)`.
pub type AccEntries = Seq<(String, String)>;

/// No two entries share a call id.
pub open spec fn acc_keys_unique(e: AccEntries) -> bool {
    forall|i: int, j: int| 0 <= i < j < e.len() ==> e[i].0@ != e[j].0@
}

/// Some entry is keyed `k`.
pub open spec fn acc_has_key(e: AccEntries, k: Seq<char>) -> bool {
    exists|i: int| 0 <= i < e.len() && e[i].0@ == k
}

/// The entries as a map from call id to accumulated text.
pub open spec fn acc_map(e: AccEntries) -> Map<Seq<char>, Seq<char>>
    decreases e.len(),
{
    if e.len() == 0 {
        Map::empty()
    } else {
        acc_map(e.drop_last()).insert(e.last().0@, e.last().1@)
    }
}

proof fn lemma_acc_dom(e: AccEntries, k: Seq<char>)
    ensures
        acc_map(e).contains_key(k) <==> acc_has_key(e, k),
    decreases e.len(),
{
    if e.len() > 0 {
        lemma_acc_dom(e.drop_last(), k);
        if acc_has_key(e, k) {
            let i = choose|i: int| 0 <= i < e.len() && e[i].0@ == k;
            if i < e.len() - 1 {
                assert(e.drop_last()[i].0@ == k);
            }
        }
        if acc_has_key(e.drop_last(), k) {
            let i = choose|i: int| 0 <= i < e.drop_last().len() && e.drop_last()[i].0@ == k;
            assert(e[i].0@ == k);
        }
    }
}

proof fn lemma_acc_index(e: AccEntries, i: int)
    requires
        acc_keys_unique(e),
        0 <= i < e.len(),
    ensures
        acc_map(e).contains_key(e[i].0@),
        acc_map(e)[e[i].0@] == e[i].1@,
    decreases e.len(),
{
    if i < e.len() - 1 {
        lemma_acc_index(e.drop_last(), i);
    }
}

proof fn lemma_acc_update(e: AccEntries, i: int, x: (String, String))
    requires
        acc_keys_unique(e),
        0 <= i < e.len(),
        x.0@ == e[i].0@,
    ensures
        acc_keys_unique(e.update(i, x)),
        acc_map(e.update(i, x)) == acc_map(e).insert(x.0@, x.1@),
    decreases e.len(),
{
    let u = e.update(i, x);
    if i == e.len() - 1 {
        assert(u.drop_last() =~= e.drop_last());
        lemma_acc_dom(e.drop_last(), x.0@);
        assert(acc_map(u) =~= acc_map(e).insert(x.0@, x.1@));
    } else {
        lemma_acc_update(e.drop_last(), i, x);
        assert(u.drop_last() =~= e.drop_last().update(i, x));
        assert(e.last().0@ != x.0@);
        assert(acc_map(u) =~= acc_map(e).insert(x.0@, x.1@));
    }
}

proof fn lemma_acc_remove(e: AccEntries, i: int)
    requires
        acc_keys_unique(e),
        0 <= i < e.len(),
    ensures
        acc_keys_unique(e.remove(i)),
        acc_map(e.remove(i)) == acc_map(e).remove(e[i].0@),
    decreases e.len(),
{
    let r = e.remove(i);
    let k = e[i].0@;
    assert forall|a: int, b: int| 0 <= a < b < r.len() implies r[a].0@ != r[b].0@ by {
        let a2 = if a < i { a } else { a + 1 };
        let b2 = if b < i { b } else { b + 1 };
        assert(r[a] == e[a2]);
        assert(r[b] == e[b2]);
    }
    if i == e.len() - 1 {
        assert(r =~= e.drop_last());
        lemma_acc_dom(e.drop_last(), k);
        assert(acc_map(r) =~= acc_map(e).remove(k));
    } else {
        lemma_acc_remove(e.drop_last(), i);
        assert(r.drop_last() =~= e.drop_last().remove(i));
        assert(r.last() == e.last());
        assert(e.last().0@ != k);
        assert(acc_map(r) =~= acc_map(e).remove(k));
    }
}

proof fn lemma_acc_push(e: AccEntries, x: (String, String))
    requires
        acc_keys_unique(e),
        !acc_has_key(e, x.0@),
    ensures
        acc_keys_unique(e.push(x)),
        acc_map(e.push(x)) == acc_map(e).insert(x.0@, x.1@),
{
    let p = e.push(x);
    assert(p.drop_last() =~= e);
    assert forall|a: int, b: int| 0 <= a < b < p.len() implies p[a].0@ != p[b].0@ by {
        assert(p[a] == e[a]);
        if b < e.len() {
            assert(p[b] == e[b]);
        }
    }
}

/// The text streamed so far by `k` (empty when nothing was).
pub open spec fn streamed(m: Map<Seq<char>, Seq<char>>, k: Seq<char>) -> Seq<char> {
    if m.contains_key(k) { m[k] } else { Seq::empty() }
}

/// The accumulated texts after `k` streamed chunk `c`.
pub open spec fn chunk_step(m: Map<Seq<char>, Seq<char>>, k: Seq<char>, c: Seq<char>) -> Map<Seq<char>, Seq<char>> {
    m.insert(k, streamed(m, k) + c)
}

/// The accumulated texts after `k` streamed `chunks` in order.
pub open spec fn chunks_step(m: Map<Seq<char>, Seq<char>>, k: Seq<char>, chunks: Seq<Seq<char>>) -> Map<Seq<char>, Seq<char>>
    decreases chunks.len(),
{
    if chunks.len() == 0 {
        m
    } else {
        chunk_step(chunks_step(m, k, chunks.drop_last()), k, chunks.last())
    }
}

/// The concatenation of `chunks`.
pub open spec fn concat_all(chunks: Seq<Seq<char>>) -> Seq<char>
    decreases chunks.len(),
{
    if chunks.len() == 0 {
        Seq::empty()
    } else {
        concat_all(chunks.drop_last()) + chunks.last()
    }
}

/// What a call streams is what is taken back: after chunks `c1, .., cn`
/// from call `k`, its accumulated text is what it had (nothing, for a new
/// call) followed by `c1 + .. + cn`, and every other call's text is as it
/// was.
pub proof fn lemma_streamed_chunks(m: Map<Seq<char>, Seq<char>>, k: Seq<char>, chunks: Seq<Seq<char>>, other: Seq<char>)
    requires
        other != k,
    ensures
        chunks_step(m, k, chunks).contains_key(k) || chunks.len() == 0,
        streamed(chunks_step(m, k, chunks), k) == streamed(m, k) + concat_all(chunks),
        chunks_step(m, k, chunks).contains_key(other) == m.contains_key(other),
        streamed(chunks_step(m, k, chunks), other) == streamed(m, other),
    decreases chunks.len(),
{
    if chunks.len() == 0 {
        assert(streamed(m, k) + concat_all(chunks) =~= streamed(m, k));
    } else {
        lemma_streamed_chunks(m, k, chunks.drop_last(), other);
        assert(streamed(m, k) + concat_all(chunks) =~= streamed(m, k) + concat_all(chunks.drop_last()) + chunks.last());
    }
}

/// Text each running tool has streamed so far, by call id. It outlives the
/// tool's future, so an aborted or panicked call is finalized from it.
pub struct OutputAccumulators {
    entries: Vec<(String, String)>,
}

impl View for OutputAccumulators {
    type V = Map<Seq<char>, Seq<char>>;

    closed spec fn view(&self) -> Map<Seq<char>, Seq<char>> {
        acc_map(self.entries@)
    }
}

impl OutputAccumulators {
    /// The entries carry distinct call ids.
    pub closed spec fn wf(&self) -> bool {
        acc_keys_unique(self.entries@)
    }

    /// Nothing accumulated.
    pub fn new() -> (a: Self)
        ensures
            a.wf(),
            a@ == Map::<Seq<char>, Seq<char>>::empty(),
    {
        OutputAccumulators { entries: Vec::new() }
    }

    fn position(&self, call_id: &str) -> (r: Option<usize>)
        requires
            self.wf(),
        ensures
            match r {
                Some(i) => i < self.entries@.len() && self.entries@[i as int].0@ == call_id@,
                None => !acc_has_key(self.entries@, call_id@),
            },
    {
        let key = String::from_str(call_id);
        let mut i: usize = 0;
        while i < self.entries.len()
            invariant
                i <= self.entries@.len(),
                key@ == call_id@,
                forall|j: int| 0 <= j < i ==> self.entries@[j].0@ != call_id@,
            decreases self.entries@.len() - i,
        {
            if self.entries[i].0 == key {
                return Some(i);
            }
            i = i + 1;
        }
        None
    }

    /// Appends a chunk to the text streamed by `call_id`.
    pub fn on_chunk(&mut self, call_id: &str, chunk: &str)
        requires
            old(self).wf(),
        ensures
            final(self).wf(),
            final(self)@ == chunk_step(old(self)@, call_id@, chunk@),
    {
        proof {
            lemma_acc_dom(self.entries@, call_id@);
        }
        match self.position(call_id) {
            Some(i) => {
                proof {
                    lemma_acc_index(self.entries@, i as int);
                }
                let mut text = self.entries[i].1.clone();
                text.append(chunk);
                let key = self.entries[i].0.clone();
                proof {
                    lemma_acc_update(self.entries@, i as int, (key, text));
                }
                self.entries.set(i, (key, text));
            },
            None => {
                let key = String::from_str(call_id);
                let text = String::from_str(chunk);
                proof {
                    lemma_acc_push(self.entries@, (key, text));
                    assert(Seq::<char>::empty() + chunk@ =~= chunk@);
                }
                self.entries.push((key, text));
            },
        }
    }

    /// Removes and returns the text streamed by `call_id`, if any.
    pub fn take(&mut self, call_id: &str) -> (r: Option<String>)
        requires
            old(self).wf(),
        ensures
            final(self).wf(),
            final(self)@ == old(self)@.remove(call_id@),
            r is Some <==> old(self)@.contains_key(call_id@),
            r matches Some(t) ==> t@ == old(self)@[call_id@],
    {
        proof {
            lemma_acc_dom(self.entries@, call_id@);
        }
        match self.position(call_id) {
            Some(i) => {
                proof {
                    lemma_acc_index(self.entries@, i as int);
                    lemma_acc_remove(self.entries@, i as int);
                }
                let (_, text) = self.entries.remove(i);
                Some(text)
            },
            None => {
                proof {
                    assert(old(self)@.remove(call_id@) =~= old(self)@);
                }
                None
            },
        }
    }
}

// ---------------------------------------------------------------------------
// the reaper's resolution

/// The side record of a spawned task: its ledger id and, for a tool, the
/// call it answers.
#[derive(Debug)]
pub struct TaskMeta {
    pub id: TaskId,
    pub call_id: Option<String>,
}

/// What a task's future returned: a turn's result, or a tool's resolved
/// call (`item`, answering `call_id`).
#[derive(Debug)]
pub enum TaskOutput<T> {
    Turn(Result<(), String>),
    Tool { call_id: String, item: T },
}

/// Why a task's future did not return.
#[derive(Debug)]
pub enum JoinFailure {
    /// aborted
    Cancelled,
    /// panicked: the join error's own text, and the payload's message
    Panicked { display: String, payload: PanicPayload },
    /// any other join error, by its text
    Other(String),
}

/// A tool call as the reaper handles it: tools implement this.
pub trait ToolCall: Sized {
    /// The call after it was handed `streamed`, the text its tool streamed
    /// while it ran: a streaming tool adopts it as its authoritative output,
    /// another tool is left as it was.
    spec fn composed(&self, streamed: Seq<char>) -> Self;

    /// Hands the call the text its tool streamed.
    fn compose(&mut self, streamed: String)
        ensures
            *final(self) == old(self).composed(streamed@);
}

/// The one event a finished task resolves to.
#[derive(Debug)]
pub enum ReapEvent<T> {
    /// a turn ended with this result
    TaskDone(TaskId, Result<(), String>),
    /// a tool returned its call; `streamed` is the text it streamed, which
    /// the call has been composed with
    ToolResolved { id: TaskId, item: T, streamed: Option<String> },
    /// a tool died; `error` is a marker and the partial output
    ToolFailed { id: TaskId, call_id: String, error: String },
}

/// The marker of a dead tool: aborted by the user, a panic with its
/// message, or the join error's text.
pub open spec fn failure_marker(f: JoinFailure) -> Seq<char> {
    match f {
        JoinFailure::Cancelled => ABORTED_BY_USER@,
        JoinFailure::Panicked { payload, .. } => "tool panicked: "@ + panic_message_spec(payload),
        JoinFailure::Other(e) => "tool failed: "@ + e@,
    }
}

/// The error of a dead tool: its marker, followed by the output it had
/// streamed when there is any.
pub open spec fn tool_failure_spec(marker: Seq<char>, partial: Option<Seq<char>>) -> Seq<char> {
    match partial {
        Some(p) => if p.len() > 0 { marker + "; partial output:\n"@ + p } else { marker },
        None => marker,
    }
}

/// The marker of a dead tool.
pub fn failure_marker_text(f: &JoinFailure) -> (s: String)
    ensures
        s@ == failure_marker(*f),
{
    match f {
        JoinFailure::Cancelled => String::from_str(ABORTED_BY_USER),
        JoinFailure::Panicked { payload, .. } => {
            let m = panic_message(payload);
            concat2("tool panicked: ", m.as_str())
        },
        JoinFailure::Other(e) => concat2("tool failed: ", e.as_str()),
    }
}

/// The error of a dead tool from its marker and streamed output.
pub fn tool_failure_error(marker: String, partial: Option<String>) -> (s: String)
    ensures
        s@ == tool_failure_spec(marker@, match partial {
            Some(p) => Some(p@),
            None => None,
        }),
{
    match partial {
        Some(p) => {
            if !p.as_str().is_empty() {
                let mut s = marker;
                s.append("; partial output:\n");
                s.append(p.as_str());
                s
            } else {
                marker
            }
        },
        None => marker,
    }
}

/// Composes a returned call with the text its tool streamed, if it streamed
/// any; a call that streamed nothing is handed back as it is.
pub fn compose_streamed<T: ToolCall>(item: T, streamed: &Option<String>) -> (r: T)
    ensures
        streamed is None ==> r == item,
        streamed matches Some(t) ==> r == item.composed(t@),
{
    let mut item = item;
    match streamed {
        Some(text) => item.compose(text.clone()),
        None => {},
    }
    item
}

/// Resolves a finished task to its event, taking a tool's streamed text out
/// of the accumulators: a turn to its result; a returned tool to its call,
/// composed with what it streamed; a dead tool to its marker and partial
/// output; a panicked turn to an error; a cancelled turn to nothing, since
/// the abort that cancelled it resolved it already.
pub fn reap_event<T: ToolCall>(
    meta: TaskMeta,
    output: Result<TaskOutput<T>, JoinFailure>,
    acc: &mut OutputAccumulators,
) -> (r: Option<ReapEvent<T>>)
    requires
        old(acc).wf(),
    ensures
        final(acc).wf(),
        match output {
            Ok(TaskOutput::Turn(res)) => {
                &&& r == Some(ReapEvent::<T>::TaskDone(meta.id, res))
                &&& final(acc)@ == old(acc)@
            },
            Ok(TaskOutput::Tool { call_id, item }) => {
                &&& r matches Some(ReapEvent::ToolResolved { id, item: it, streamed })
                &&& id == meta.id
                &&& (streamed is None ==> it == item)
                &&& (streamed matches Some(t) ==> it == item.composed(t@))
                &&& (streamed is Some <==> old(acc)@.contains_key(call_id@))
                &&& (streamed matches Some(t) ==> t@ == old(acc)@[call_id@])
                &&& final(acc)@ == old(acc)@.remove(call_id@)
            },
            Err(f) => match meta.call_id {
                None => {
                    &&& final(acc)@ == old(acc)@
                    &&& match f {
                        JoinFailure::Panicked { display, .. } => r matches Some(ReapEvent::TaskDone(id, Err(e)))
                            && id == meta.id && e@ == "turn panicked: "@ + display@,
                        _ => r is None,
                    }
                },
                Some(call_id) => {
                    &&& r matches Some(ReapEvent::ToolFailed { id, call_id: c, error })
                    &&& id == meta.id
                    &&& c@ == call_id@
                    &&& error@ == tool_failure_spec(
                        failure_marker(f),
                        if old(acc)@.contains_key(call_id@) { Some(old(acc)@[call_id@]) } else { None },
                    )
                    &&& final(acc)@ == old(acc)@.remove(call_id@)
                },
            },
        },
{
    match output {
        Ok(TaskOutput::Turn(res)) => Some(ReapEvent::TaskDone(meta.id, res)),
        Ok(TaskOutput::Tool { call_id, item }) => {
            let streamed = acc.take(call_id.as_str());
            let item = compose_streamed(item, &streamed);
            Some(ReapEvent::ToolResolved { id: meta.id, item, streamed })
        },
        Err(f) => match meta.call_id {
            None => match f {
                JoinFailure::Panicked { display, .. } => {
                    let e = concat2("turn panicked: ", display.as_str());
                    Some(ReapEvent::TaskDone(meta.id, Err(e)))
                },
                _ => None,
            },
            Some(call_id) => {
                let marker = failure_marker_text(&f);
                let partial = acc.take(call_id.as_str());
                let error = tool_failure_error(marker, partial);
                Some(ReapEvent::ToolFailed { id: meta.id, call_id, error })
            },
        },
    }
}

// ---------------------------------------------------------------------------
// the end of an agent's runtime

/// How an agent's runtime future ended. It is meant to run until the
/// router kills it, so every end is reported as the agent going down.
#[derive(Debug)]
pub enum RuntimeEnd {
    /// returned normally
    Exited,
    /// returned an error, by its text with causes
    Failed(String),
    /// was aborted by something other than the router
    Cancelled,
    /// panicked
    Panicked(PanicPayload),
}

/// The error the router records for a runtime that went down.
pub open spec fn runtime_down_spec(end: RuntimeEnd) -> Seq<char> {
    match end {
        RuntimeEnd::Exited => "agent runtime exited unexpectedly"@,
        RuntimeEnd::Failed(e) => "agent runtime failed: "@ + e@,
        RuntimeEnd::Cancelled => "agent runtime cancelled unexpectedly"@,
        RuntimeEnd::Panicked(p) => "agent runtime panicked: "@ + panic_message_spec(p),
    }
}

/// The error the router records for a runtime that went down.
pub fn runtime_down_error(end: &RuntimeEnd) -> (s: String)
    ensures
        s@ == runtime_down_spec(*end),
{
    match end {
        RuntimeEnd::Exited => String::from_str("agent runtime exited unexpectedly"),
        RuntimeEnd::Failed(e) => concat2("agent runtime failed: ", e.as_str()),
        RuntimeEnd::Cancelled => String::from_str("agent runtime cancelled unexpectedly"),
        RuntimeEnd::Panicked(p) => {
            let m = panic_message(p);
            concat2("agent runtime panicked: ", m.as_str())
        },
    }
}

} // verus!
