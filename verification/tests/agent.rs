use vicode::agent_core::{
    abort, applies_task_event, delivery, ensure_idle, finish_task, followup_turn, resume_flushes, retry_turn,
    same_status, status_ping, submit_plan, sync_status, AbortPlan, CoreError, Delivery, HistoryFacts, SubmitPlan,
};
use vicode::events::{translate, AgentEvent, AgentState, CoreEvent, ExternalEvent, SubagentSpawnSnapshot, TurnType, UserPrompt};
use vicode::id::AgentId;
use vicode::ledger::{TaskId, TaskLedger};
use vicode::reap::{
    compose_streamed, panic_message, reap_event, runtime_down_error, tool_failure_error, JoinFailure, OutputAccumulators,
    PanicPayload, ReapEvent, RuntimeEnd, TaskMeta, TaskOutput, ABORTED_BY_USER,
};
use vicode::router::types::NodeStatus;
use vicode::status::{ActivityStatus, TurnStatus};
use vicode::tool::GenericTask;

fn facts(generation: u64, compacting: bool) -> HistoryFacts {
    HistoryFacts { generation, compacting, needs_another_turn: false, failable: false }
}

// ---------------------------------------------------------------------------
// decisions

#[test]
fn idle_submit_turns_at_the_current_generation() {
    let ledger = TaskLedger::new();
    assert_eq!(submit_plan(&ledger, &facts(0, false), Some(0)).unwrap(), SubmitPlan::Turn(0));
    assert_eq!(submit_plan(&ledger, &facts(4, false), None).unwrap(), SubmitPlan::Turn(4));
}

#[test]
fn stale_submit_is_refused_with_the_expected_generation() {
    let ledger = TaskLedger::new();
    let err = submit_plan(&ledger, &facts(0, false), Some(1)).unwrap_err();
    assert!(matches!(err, CoreError::GenerationMismatch { expected: 0 }));
    assert_eq!(err.message(), "history generation mismatch: expected 0");
    let err = submit_plan(&ledger, &facts(12, false), Some(3)).unwrap_err();
    assert_eq!(err.message(), "history generation mismatch: expected 12");
}

#[test]
fn busy_or_compacting_submit_is_queued_whatever_its_generation() {
    let mut ledger = TaskLedger::new();
    assert_eq!(submit_plan(&ledger, &facts(0, true), Some(999)).unwrap(), SubmitPlan::Queue);
    ledger.register();
    assert_eq!(submit_plan(&ledger, &facts(0, false), Some(999)).unwrap(), SubmitPlan::Queue);
    assert_eq!(submit_plan(&ledger, &facts(0, false), None).unwrap(), SubmitPlan::Queue);
}

#[test]
fn messages_wake_only_an_idle_agent_outside_compaction() {
    let mut ledger = TaskLedger::new();
    assert_eq!(delivery(&ledger, &facts(0, false)), Delivery::Wake);
    assert_eq!(delivery(&ledger, &facts(0, true)), Delivery::Buffer);
    ledger.register();
    assert_eq!(delivery(&ledger, &facts(0, false)), Delivery::Buffer);
    assert!(!resume_flushes(&ledger, &facts(0, false)));
}

#[test]
fn control_events_need_an_idle_agent() {
    let mut ledger = TaskLedger::new();
    assert!(ensure_idle(&ledger).is_ok());
    ledger.register();
    let err = ensure_idle(&ledger).unwrap_err();
    assert!(matches!(err, CoreError::Busy));
    assert_eq!(err.message(), "agent is busy");
}

#[test]
fn abort_clears_the_ledger_and_settles_the_open_work() {
    let mut ledger = TaskLedger::new();
    let t = ledger.register();
    let f = HistoryFacts { generation: 1, compacting: false, needs_another_turn: false, failable: true };
    assert_eq!(abort(&mut ledger, &f), AbortPlan::FailTurn);
    assert!(ledger.idle());
    // a late event of the aborted task is dropped
    assert!(!applies_task_event(&ledger, &t));
    assert_eq!(abort(&mut ledger, &facts(1, true)), AbortPlan::CompactAbort);
    assert_eq!(abort(&mut ledger, &facts(1, false)), AbortPlan::Nothing);
    // ids are not reused after the abort
    let u = ledger.register();
    assert_ne!(t, u);
}

#[test]
fn only_the_last_task_reaches_a_true_idle() {
    let mut ledger = TaskLedger::new();
    let a = ledger.register();
    let b = ledger.register();
    assert!(applies_task_event(&ledger, &a));
    assert!(!finish_task(&mut ledger, &a));
    assert!(!finish_task(&mut ledger, &a));
    assert!(finish_task(&mut ledger, &b));
    assert!(!finish_task(&mut ledger, &b));
}

#[test]
fn followup_turns_start_after_a_flush_or_on_request_but_never_mid_compaction() {
    let mut f = facts(0, false);
    assert!(!followup_turn(false, &f));
    assert!(followup_turn(true, &f));
    f.needs_another_turn = true;
    assert!(followup_turn(false, &f));
    f.compacting = true;
    assert!(!followup_turn(true, &f));
}

#[test]
fn status_updates_only_on_change() {
    let mut last = ActivityStatus::default();
    assert!(!sync_status(&mut last, ActivityStatus::Normal(TurnStatus::Idle)));
    assert!(sync_status(&mut last, ActivityStatus::Normal(TurnStatus::InProgress)));
    assert!(matches!(last, ActivityStatus::Normal(TurnStatus::InProgress)));
    assert!(sync_status(&mut last, ActivityStatus::Compact(TurnStatus::InProgress)));
    assert!(sync_status(&mut last, ActivityStatus::Compact(TurnStatus::Failed("oops".to_string()))));
    assert!(!sync_status(&mut last, ActivityStatus::Compact(TurnStatus::Failed("oops".to_string()))));
    assert!(!same_status(&last, &ActivityStatus::Compact(TurnStatus::Failed("other".to_string()))));
}

#[test]
fn activity_status_labels() {
    assert_eq!(ActivityStatus::Normal(TurnStatus::InProgress).label(), "+");
    assert_eq!(ActivityStatus::Compact(TurnStatus::Idle).label(), " ");
    assert_eq!(ActivityStatus::Normal(TurnStatus::Failed("x".to_string())).label(), "!");
    assert!(ActivityStatus::Compact(TurnStatus::Failed("x".to_string())).idle());
    assert!(!ActivityStatus::Compact(TurnStatus::InProgress).idle());
    assert!(matches!(ActivityStatus::default(), ActivityStatus::Normal(TurnStatus::Idle)));
    assert!(matches!(ActivityStatus::Compact(TurnStatus::Idle).turn(), TurnStatus::Idle));
}

#[test]
fn pings_report_output_when_idle_and_the_error_when_failed() {
    let p = status_ping(3, &ActivityStatus::Normal(TurnStatus::InProgress), Some("x".to_string()), None);
    assert_eq!(p.processed, 3);
    assert_eq!(p.status, NodeStatus::Running);
    assert!(p.outcome.output.is_none() && p.outcome.error.is_none());

    let p = status_ping(4, &ActivityStatus::Normal(TurnStatus::Idle), Some("done".to_string()), None);
    assert_eq!(p.status, NodeStatus::Idle);
    assert_eq!(p.outcome.output.as_deref(), Some("done"));

    let p = status_ping(5, &ActivityStatus::Compact(TurnStatus::Failed("oops".to_string())), Some("x".to_string()), None);
    assert_eq!(p.status, NodeStatus::Idle);
    assert!(p.outcome.output.is_none());
    assert_eq!(p.outcome.error.as_deref(), Some("oops"));

    // a handler error takes the place of the turn's
    let p = status_ping(6, &ActivityStatus::Normal(TurnStatus::Failed("oops".to_string())), None, Some("handler".to_string()));
    assert_eq!(p.outcome.error.as_deref(), Some("handler"));
}

// ---------------------------------------------------------------------------
// events and state

#[test]
fn translate_parks_the_duplicate_ack() {
    let mut slot: Option<u32> = None;
    let e: AgentEvent<(), (), String, u32> = AgentEvent::External(ExternalEvent::DuplicateRequest { copy: AgentId::from("copy".to_string()), ack: 9 });
    let c = translate(e, &mut slot);
    assert!(matches!(c, CoreEvent::Duplicate(ref a) if a.as_str() == "copy"));
    assert_eq!(slot, Some(9));

    let e: AgentEvent<(), (), String, u32> = AgentEvent::Inbound("hi".to_string());
    assert!(matches!(translate(e, &mut slot), CoreEvent::Message(ref m) if m == "hi"));
    assert_eq!(slot, Some(9));

    let e: AgentEvent<(), (), String, u32> = AgentEvent::External(ExternalEvent::Submit(UserPrompt { text: "go".to_string(), generation: Some(2) }));
    assert!(matches!(translate(e, &mut slot), CoreEvent::Submit(UserPrompt { ref text, generation: Some(2) }) if text == "go"));

    let e: AgentEvent<(), (), String, u32> = AgentEvent::TaskDone(TaskId(1), Err("bad".to_string()));
    assert!(matches!(translate(e, &mut slot), CoreEvent::TaskDone(TaskId(1), Err(ref s)) if s == "bad"));

    let e: AgentEvent<(), (), String, u32> = AgentEvent::External(ExternalEvent::Undo(2));
    assert!(matches!(translate(e, &mut slot), CoreEvent::Undo(2)));
}

#[test]
fn fresh_agent_state() {
    let s: AgentState<Vec<u8>, String> = AgentState::new("test".to_string(), "abc123".to_string(), vec![1]);
    assert!(matches!(s.status, ActivityStatus::Normal(TurnStatus::Idle)));
    assert_eq!(s.assistant, "test");
    assert_eq!(s.context.commit, "abc123");
    assert_eq!(s.context.base, "abc123");
    assert_eq!(s.context.history, vec![1]);
    assert!(s.pending_messages.is_empty());
    let snap = SubagentSpawnSnapshot { commit: s.context.commit.clone(), assistant_id: s.assistant.clone(), history: 0u8 };
    assert_eq!(snap.assistant_id, "test");
    assert_eq!(TurnType::Compact, TurnType::Compact);
}

#[test]
fn tool_call_records_its_run() {
    let mut t: GenericTask<&str, u8, String> = GenericTask::new("args");
    assert!(!t.resolved());
    t.record(Err("failed".to_string()));
    assert!(t.resolved());
    assert!(t.meta.is_none());
    assert_eq!(t.output, Some(Err("failed".to_string())));
    t.record(Ok(("fine".to_string(), 3)));
    assert_eq!(t.meta, Some(3));
    assert_eq!(t.output, Some(Ok("fine".to_string())));
    assert_eq!(t.arguments, Some("args"));
}

// ---------------------------------------------------------------------------
// reaping

#[test]
fn panic_messages() {
    assert_eq!(panic_message(&PanicPayload::Str("boom".to_string())), "boom");
    assert_eq!(panic_message(&PanicPayload::Owned("bang 3".to_string())), "bang 3");
    assert_eq!(panic_message(&PanicPayload::Other), "unknown panic");
}

#[test]
fn accumulators_give_back_what_was_streamed() {
    let mut acc = OutputAccumulators::new();
    acc.on_chunk("a", "one ");
    acc.on_chunk("b", "x");
    acc.on_chunk("a", "two");
    assert_eq!(acc.take("a").as_deref(), Some("one two"));
    assert_eq!(acc.take("a"), None);
    assert_eq!(acc.take("b").as_deref(), Some("x"));
}

#[test]
fn a_returned_turn_is_done() {
    let mut acc = OutputAccumulators::new();
    let meta = TaskMeta { id: TaskId(2), call_id: None };
    let r: Option<ReapEvent<Call>> = reap_event(meta, Ok(TaskOutput::Turn(Ok(()))), &mut acc);
    assert!(matches!(r, Some(ReapEvent::TaskDone(TaskId(2), Ok(())))));
}

type Call = GenericTask<&'static str, u8, String>;

fn returned_call(output: &str) -> Call {
    let mut call: Call = GenericTask::new("args");
    call.record(Ok((output.to_string(), 7)));
    call
}

#[test]
fn a_returned_tool_is_handed_its_stream() {
    let mut acc = OutputAccumulators::new();
    acc.on_chunk("call-1", "stream");
    acc.on_chunk("call-1", "ed");
    let meta = TaskMeta { id: TaskId(3), call_id: Some("call-1".to_string()) };
    let r = reap_event(meta, Ok(TaskOutput::Tool { call_id: "call-1".to_string(), item: returned_call("own") }), &mut acc);
    match r {
        Some(ReapEvent::ToolResolved { id, item, streamed }) => {
            assert_eq!(id, TaskId(3));
            // a generic tool does not stream: it keeps the output it returned
            assert_eq!(item, returned_call("own"));
            assert_eq!(streamed.as_deref(), Some("streamed"));
        },
        other => panic!("unexpected {other:?}"),
    }
    assert_eq!(acc.take("call-1"), None);
}

#[test]
fn a_tool_that_streamed_nothing_is_left_as_it_returned() {
    let mut acc = OutputAccumulators::new();
    acc.on_chunk("other", "x");
    let meta = TaskMeta { id: TaskId(9), call_id: Some("quiet".to_string()) };
    let r = reap_event(meta, Ok(TaskOutput::Tool { call_id: "quiet".to_string(), item: returned_call("own") }), &mut acc);
    assert!(matches!(r, Some(ReapEvent::ToolResolved { ref item, streamed: None, .. }) if *item == returned_call("own")));
    assert_eq!(acc.take("other").as_deref(), Some("x"));
    assert_eq!(compose_streamed(returned_call("a"), &None), returned_call("a"));
    assert_eq!(compose_streamed(returned_call("a"), &Some("s".to_string())), returned_call("a"));
}

#[test]
fn an_aborted_tool_keeps_its_partial_output() {
    let mut acc = OutputAccumulators::new();
    acc.on_chunk("c", "line 1\n");
    let meta = TaskMeta { id: TaskId(4), call_id: Some("c".to_string()) };
    let r: Option<ReapEvent<Call>> = reap_event(meta, Err(JoinFailure::Cancelled), &mut acc);
    match r {
        Some(ReapEvent::ToolFailed { id, call_id, error }) => {
            assert_eq!(id, TaskId(4));
            assert_eq!(call_id, "c");
            assert_eq!(error, "aborted by user; partial output:\nline 1\n");
        },
        other => panic!("unexpected {other:?}"),
    }
}

#[test]
fn a_panicked_tool_reports_its_message() {
    let mut acc = OutputAccumulators::new();
    let meta = TaskMeta { id: TaskId(5), call_id: Some("c".to_string()) };
    let f = JoinFailure::Panicked { display: "task 9 panicked".to_string(), payload: PanicPayload::Str("oops".to_string()) };
    let r: Option<ReapEvent<Call>> = reap_event(meta, Err(f), &mut acc);
    assert!(matches!(r, Some(ReapEvent::ToolFailed { ref error, .. }) if error == "tool panicked: oops"));
    let meta = TaskMeta { id: TaskId(6), call_id: Some("d".to_string()) };
    let r: Option<ReapEvent<Call>> = reap_event(meta, Err(JoinFailure::Other("join".to_string())), &mut acc);
    assert!(matches!(r, Some(ReapEvent::ToolFailed { ref error, .. }) if error == "tool failed: join"));
}

#[test]
fn a_cancelled_turn_resolves_to_nothing_and_a_panicked_one_to_an_error() {
    let mut acc = OutputAccumulators::new();
    let r: Option<ReapEvent<Call>> = reap_event(TaskMeta { id: TaskId(7), call_id: None }, Err(JoinFailure::Cancelled), &mut acc);
    assert!(r.is_none());
    let f = JoinFailure::Panicked { display: "task 3 panicked with message \"x\"".to_string(), payload: PanicPayload::Other };
    let r: Option<ReapEvent<Call>> = reap_event(TaskMeta { id: TaskId(8), call_id: None }, Err(f), &mut acc);
    assert!(matches!(r, Some(ReapEvent::TaskDone(TaskId(8), Err(ref e))) if e == "turn panicked: task 3 panicked with message \"x\""));
}

#[test]
fn empty_partial_output_is_not_appended() {
    assert_eq!(tool_failure_error(ABORTED_BY_USER.to_string(), Some(String::new())), "aborted by user");
    assert_eq!(tool_failure_error("m".to_string(), None), "m");
}

#[test]
fn runtime_down_messages() {
    assert_eq!(runtime_down_error(&RuntimeEnd::Exited), "agent runtime exited unexpectedly");
    assert_eq!(runtime_down_error(&RuntimeEnd::Failed("io: gone".to_string())), "agent runtime failed: io: gone");
    assert_eq!(runtime_down_error(&RuntimeEnd::Cancelled), "agent runtime cancelled unexpectedly");
    assert_eq!(runtime_down_error(&RuntimeEnd::Panicked(PanicPayload::Owned("p".to_string()))), "agent runtime panicked: p");
}

#[test]
fn only_router_deliveries_are_counted() {
    let e: AgentEvent<(), (), String, u32> = AgentEvent::Inbound("m".to_string());
    assert!(vicode::events::is_delivery(&e));
    let e: AgentEvent<(), (), String, u32> = AgentEvent::External(ExternalEvent::Retry);
    assert!(vicode::events::is_delivery(&e));
    let e: AgentEvent<(), (), String, u32> = AgentEvent::TaskDone(TaskId(0), Ok(()));
    assert!(!vicode::events::is_delivery(&e));
    let e: AgentEvent<(), (), String, u32> = AgentEvent::ToolFailed { id: TaskId(0), call_id: "c".to_string(), error: "e".to_string() };
    assert!(!vicode::events::is_delivery(&e));
}

#[test]
fn retry_restarts_the_interrupted_kind_of_turn() {
    assert_eq!(retry_turn(&facts(3, true)), TurnType::Compact);
    assert_eq!(retry_turn(&facts(3, false)), TurnType::Default);
}
