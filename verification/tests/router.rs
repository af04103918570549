use vicode::id::AgentId;
use vicode::router::types::{AgentError, GraphRecord, NodeStatus, RouterError, SendOutcome, StatusPing, TurnOutcome};
use vicode::router::{free_variant, Action, AgentRouter, TAB_AGENT_CAP};

fn id(s: &str) -> AgentId {
    AgentId::from(s.to_string())
}

fn ping(processed: u64, status: NodeStatus, output: Option<&str>, error: Option<&str>) -> StatusPing {
    StatusPing {
        processed,
        status,
        outcome: TurnOutcome { output: output.map(|s| s.to_string()), error: error.map(|s| s.to_string()) },
    }
}

/// a router with an attached primary `prime` and an attached child `child`
fn rig() -> (AgentRouter, AgentId, AgentId) {
    let mut router = AgentRouter::empty();
    let prime = id("prime");
    let rec = router.register_root(prime.clone()).unwrap();
    assert_eq!(rec.root.as_str(), "prime");
    assert!(rec.parent.is_none());
    assert!(!rec.archived);
    router.attach_runtime(&prime).unwrap();
    let plan = router.handle_spawn(&prime, "do it", "child").unwrap();
    assert_eq!(plan.child.as_str(), "child");
    router.attach_runtime(&plan.child).unwrap();
    (router, prime, plan.child)
}

#[test]
fn free_variant_suffixes_per_name() {
    let mut taken: Vec<AgentId> = Vec::new();
    assert_eq!(free_variant("a-b-c", &taken).to_string(), "a-b-c");
    taken.push(AgentId::from("a-b-c".to_string()));
    assert_eq!(free_variant("a-b-c", &taken).to_string(), "a-b-c-2");
    taken.push(AgentId::from("a-b-c-2".to_string()));
    assert_eq!(free_variant("a-b-c", &taken).to_string(), "a-b-c-3");
}

#[test]
fn free_variant_takes_the_smallest_gap() {
    let taken = vec![id("x"), id("x-3")];
    assert_eq!(free_variant("x", &taken).to_string(), "x-2");
}

#[test]
fn spawn_registers_child_with_tagged_seed() {
    let mut router = AgentRouter::empty();
    let prime = id("prime");
    router.register_root(prime.clone()).unwrap();
    let plan = router.handle_spawn(&prime, "hello", "kid").unwrap();
    assert_eq!(plan.child.as_str(), "kid");
    assert_eq!(plan.seed, "[from: prime]\nhello");
    assert_eq!(plan.record.root.as_str(), "prime");
    assert_eq!(plan.record.parent.as_ref().unwrap().as_str(), "prime");
    assert!(!plan.record.archived);
    // the next spawn under the same base takes the next free variant
    let second = router.handle_spawn(&prime, "again", "kid").unwrap();
    assert_eq!(second.child.as_str(), "kid-2");
    assert_eq!(router.handle_inspect(&prime, &second.child), Ok(NodeStatus::Spawning));
}

#[test]
fn spawn_under_unknown_or_dead_parent_is_refused() {
    let (mut router, prime, child) = rig();
    let r = router.handle_spawn(&id("ghost"), "x", "kid");
    assert!(matches!(r, Err(AgentError::Unknown(ref a)) if a.as_str() == "ghost"));
    let mut actions = Vec::new();
    router.handle_runtime_down(&child, "boom".to_string(), &mut actions);
    let r = router.handle_spawn(&child, "x", "kid");
    assert!(matches!(r, Err(AgentError::Dead(ref a)) if a.as_str() == "child"));
    assert!(router.handle_spawn(&prime, "x", "kid").is_ok());
}

#[test]
fn tab_cap_refuses_the_spawn_past_the_cap() {
    let mut router = AgentRouter::empty();
    let prime = id("prime");
    router.register_root(prime.clone()).unwrap();
    for _ in 1..TAB_AGENT_CAP {
        router.handle_spawn(&prime, "x", "kid").unwrap();
    }
    assert_eq!(router.tab_size(&prime), TAB_AGENT_CAP);
    let r = router.handle_spawn(&prime, "x", "kid");
    assert!(matches!(r, Err(AgentError::TabAtCap)));
    assert_eq!(
        AgentError::TabAtCap.message(),
        "this tab is at its agent cap (32): archive finished agents to free slots (list shows every member and its status)"
    );
    // another tab is not affected
    let other = id("other");
    router.register_root(other.clone()).unwrap();
    assert!(router.handle_spawn(&other, "x", "kid").is_ok());
}

#[test]
fn register_root_twice_is_refused() {
    let mut router = AgentRouter::empty();
    router.register_root(id("prime")).unwrap();
    let r = router.register_root(id("prime"));
    assert!(matches!(r, Err(AgentError::AlreadyExists(_))));
    assert_eq!(r.unwrap_err().message(), "agent prime already exists");
}

#[test]
fn attach_is_once_per_node() {
    let (mut router, prime, _child) = rig();
    let r = router.attach_runtime(&prime);
    assert!(matches!(r, Err(AgentError::AlreadyAttached(_))));
    let r = router.attach_runtime(&id("ghost"));
    assert_eq!(r.unwrap_err().message(), "agent ghost is unreachable");
}

#[test]
fn wait_parks_until_the_target_goes_idle() {
    let (mut router, prime, child) = rig();
    let open: Vec<bool> = Vec::new();
    assert!(router.handle_wait(prime.clone(), child.clone(), 7, &open).is_none());
    let mut actions = Vec::new();
    // the child processed its seed delivery and went idle with output
    router.handle_status(&child, ping(1, NodeStatus::Idle, Some("child result"), None), &mut actions);
    assert_eq!(actions.len(), 1);
    match &actions[0] {
        Action::Reply { token, result: Ok(w) } => {
            assert_eq!(*token, 7);
            assert_eq!(w.status, NodeStatus::Idle);
            assert_eq!(w.outcome.output.as_deref(), Some("child result"));
            assert!(w.outcome.error.is_none());
        },
        other => panic!("unexpected action {other:?}"),
    }
    // a second wait on the already idle target is answered at once
    let r = router.handle_wait(prime.clone(), child.clone(), 8, &Vec::new()).unwrap().unwrap();
    assert_eq!(r.status, NodeStatus::Idle);
    assert_eq!(r.outcome.output.as_deref(), Some("child result"));
}

#[test]
fn stale_idle_ping_counts_as_running() {
    let (mut router, prime, child) = rig();
    let mut actions = Vec::new();
    // processed 0 < delivered 1: the seed is still unread
    router.handle_status(&child, ping(0, NodeStatus::Idle, None, None), &mut actions);
    assert!(actions.is_empty());
    assert_eq!(router.handle_inspect(&prime, &child), Ok(NodeStatus::Running));
}

#[test]
fn wait_cycle_is_refused() {
    let (mut router, prime, child) = rig();
    assert!(router.handle_wait(prime.clone(), child.clone(), 1, &Vec::new()).is_none());
    let open = vec![true];
    let r = router.handle_wait(child.clone(), prime.clone(), 2, &open);
    assert_eq!(r.unwrap().unwrap_err(), RouterError::WouldDeadlock);
    assert_eq!(RouterError::WouldDeadlock.message(), "this wait would close a wait cycle");
    // once the first waiter stopped listening, the reverse wait may park
    let closed = vec![false];
    assert!(router.handle_wait(child.clone(), prime.clone(), 3, &closed).is_none());
}

#[test]
fn waiting_on_oneself_is_a_cycle() {
    let (mut router, prime, _child) = rig();
    let r = router.handle_wait(prime.clone(), prime.clone(), 1, &Vec::new());
    assert_eq!(r.unwrap().unwrap_err(), RouterError::WouldDeadlock);
}

#[test]
fn other_tabs_are_unreachable() {
    let (mut router, prime, child) = rig();
    let other = id("other");
    router.register_root(other.clone()).unwrap();
    assert_eq!(router.handle_inspect(&other, &child), Err(RouterError::Unreachable));
    assert_eq!(router.send_target(&other, &prime), Err(RouterError::Unreachable));
    let r = router.handle_wait(other.clone(), child.clone(), 1, &Vec::new());
    assert_eq!(r.unwrap().unwrap_err(), RouterError::Unreachable);
    assert_eq!(RouterError::Unreachable.message(), "target unreachable: not a live agent in your tab");
    assert_eq!(router.handle_inspect(&prime, &child), Ok(NodeStatus::Spawning));
}

#[test]
fn send_commits_a_delivery() {
    let (mut router, prime, child) = rig();
    let mut actions = Vec::new();
    router.handle_status(&child, ping(1, NodeStatus::Idle, Some("out"), None), &mut actions);
    assert!(router.send_target(&prime, &child).is_ok());
    let before = router.delivered_count(&child).unwrap();
    assert!(router.send_done(&child, SendOutcome::Delivered, &mut actions).is_ok());
    assert_eq!(router.delivered_count(&child), Some(before + 1));
    assert_eq!(router.delivered_count(&id("nobody")), None);
    // committed to a turn: a wait now parks instead of firing stale
    assert_eq!(router.handle_inspect(&prime, &child), Ok(NodeStatus::Running));
    assert!(router.handle_wait(prime.clone(), child.clone(), 4, &Vec::new()).is_none());
    assert_eq!(router.send_done(&child, SendOutcome::Full, &mut actions), Err(RouterError::Busy));
}

#[test]
fn closed_mailbox_kills_the_target_and_answers_its_waiters() {
    let (mut router, prime, child) = rig();
    assert!(router.handle_wait(prime.clone(), child.clone(), 9, &Vec::new()).is_none());
    let mut actions = Vec::new();
    assert_eq!(router.send_done(&child, SendOutcome::Closed, &mut actions), Err(RouterError::Unreachable));
    assert!(matches!(&actions[0], Action::Abort(a) if a.as_str() == "child"));
    match &actions[1] {
        Action::Reply { token, result: Ok(w) } => {
            assert_eq!(*token, 9);
            assert_eq!(w.status, NodeStatus::Dead);
            assert_eq!(w.outcome.error.as_deref(), Some("agent runtime mailbox closed"));
        },
        other => panic!("unexpected action {other:?}"),
    }
    assert_eq!(router.handle_inspect(&prime, &child), Ok(NodeStatus::Dead));
}

#[test]
fn death_is_terminal_and_keeps_the_first_error() {
    let (mut router, prime, child) = rig();
    let mut actions = Vec::new();
    router.handle_runtime_down(&child, "boom".to_string(), &mut actions);
    router.handle_status(&child, ping(5, NodeStatus::Idle, Some("late"), None), &mut actions);
    router.handle_runtime_down(&child, "later".to_string(), &mut actions);
    assert!(actions.is_empty());
    let w = router.handle_wait(prime.clone(), child.clone(), 1, &Vec::new()).unwrap().unwrap();
    assert_eq!(w.status, NodeStatus::Dead);
    assert_eq!(w.outcome.error.as_deref(), Some("boom"));
    assert!(w.outcome.output.is_none());
    let r = router.forward_target(&child);
    assert_eq!(r.unwrap_err().message(), "agent child is dead");
}

#[test]
fn forward_needs_an_attached_live_runtime() {
    let mut router = AgentRouter::empty();
    let prime = id("prime");
    router.register_root(prime.clone()).unwrap();
    let r = router.forward_target(&prime);
    assert_eq!(r.unwrap_err().message(), "agent prime runtime is not attached");
    router.attach_runtime(&prime).unwrap();
    assert!(router.forward_target(&prime).is_ok());
    let mut actions = Vec::new();
    let r = router.forward_done(&prime, SendOutcome::Full, &mut actions);
    assert_eq!(r.unwrap_err().message(), "agent prime mailbox is full");
    assert!(router.forward_done(&prime, SendOutcome::Delivered, &mut actions).is_ok());
}

#[test]
fn list_is_sorted_and_scoped_to_the_tab() {
    let (mut router, prime, child) = rig();
    let a = router.handle_spawn(&prime, "x", "aardvark").unwrap().child;
    let g = router.handle_spawn(&child, "y", "zebra").unwrap().child;
    router.register_root(id("other")).unwrap();
    let all = router.handle_list(&prime, false).unwrap();
    let names: Vec<String> = all.iter().map(|e| e.id.to_string()).collect();
    assert_eq!(names, vec!["aardvark", "child", "prime", "zebra"]);
    let sub = router.handle_list(&child, true).unwrap();
    let names: Vec<String> = sub.iter().map(|e| e.id.to_string()).collect();
    assert_eq!(names, vec!["child", "zebra"]);
    assert_eq!(sub[1].parent.as_ref().unwrap().as_str(), "child");
    assert!(router.handle_list(&id("ghost"), false).is_none());
    assert!(router.descends(&g, &prime));
    assert!(!router.descends(&a, &child));
}

#[test]
fn archive_removes_the_subtree_and_answers_waits() {
    let (mut router, prime, child) = rig();
    let grandchild = router.handle_spawn(&child, "y", "grand").unwrap().child;
    assert!(router.handle_wait(prime.clone(), grandchild.clone(), 5, &Vec::new()).is_none());
    let mut actions = Vec::new();
    // only a strict descendant of the caller may be archived
    assert_eq!(router.handle_archive(&child, &prime, &mut actions).unwrap_err(), RouterError::NotOwned);
    assert_eq!(router.handle_archive(&prime, &prime, &mut actions).unwrap_err(), RouterError::NotOwned);
    let records = router.handle_archive(&prime, &child, &mut actions).unwrap();
    assert_eq!(records.len(), 2);
    assert!(records.iter().all(|(_, r)| r.archived));
    assert_eq!(router.handle_inspect(&prime, &child), Err(RouterError::Unreachable));
    assert_eq!(router.handle_inspect(&prime, &grandchild), Err(RouterError::Unreachable));
    assert!(actions.iter().any(|a| matches!(a, Action::Reply { token: 5, .. })));
    // archived ids stay allocated: a new spawn does not reuse them
    let again = router.handle_spawn(&prime, "z", "child").unwrap();
    assert_eq!(again.child.as_str(), "child-2");
}

#[test]
fn archive_tab_removes_every_member() {
    let (mut router, prime, child) = rig();
    let mut actions = Vec::new();
    let records = router.handle_archive_tab(&prime, &mut actions).unwrap();
    assert_eq!(records.len(), 2);
    assert!(router.handle_list(&prime, false).is_none());
    assert!(router.handle_list(&child, false).is_none());
}

#[test]
fn rollback_removes_a_provisional_spawn() {
    let mut router = AgentRouter::empty();
    let prime = id("prime");
    router.register_root(prime.clone()).unwrap();
    let child = router.handle_spawn(&prime, "x", "kid").unwrap().child;
    let mut actions = Vec::new();
    router.handle_rollback_spawn(&child, &mut actions);
    assert_eq!(router.handle_inspect(&prime, &child), Err(RouterError::Unreachable));
}

#[test]
fn restore_keeps_live_records_and_revives_failed_ones_dead() {
    let records = vec![
        (id("prime"), GraphRecord { root: id("prime"), parent: None, archived: false }),
        (id("kid"), GraphRecord { root: id("prime"), parent: Some(id("prime")), archived: false }),
        (id("gone"), GraphRecord { root: id("prime"), parent: Some(id("prime")), archived: true }),
        (id("lost"), GraphRecord { root: id("prime"), parent: Some(id("prime")), archived: false }),
    ];
    let state_ids = vec![id("orphan")];
    let outcomes = vec![
        (id("prime"), TurnOutcome { output: Some("hi".to_string()), error: None }),
        (id("kid"), TurnOutcome { output: None, error: Some("crashed".to_string()) }),
        (id("gone"), TurnOutcome { output: None, error: None }),
    ];
    let mut router = AgentRouter::restore(&records, &state_ids, &outcomes);
    let prime = id("prime");
    assert_eq!(router.handle_inspect(&prime, &prime), Ok(NodeStatus::Spawning));
    assert_eq!(router.handle_inspect(&prime, &id("kid")), Ok(NodeStatus::Dead));
    assert_eq!(router.handle_inspect(&prime, &id("gone")), Err(RouterError::Unreachable));
    assert_eq!(router.handle_inspect(&prime, &id("lost")), Err(RouterError::Unreachable));
    // every recorded or saved id stays allocated
    assert_eq!(router.allocate("orphan").as_str(), "orphan-2");
    assert_eq!(router.allocate("gone").as_str(), "gone-2");
}

#[test]
fn allocation_takes_the_first_fresh_candidate() {
    let mut router = AgentRouter::empty();
    router.register_root(id("a")).unwrap();
    let r = router.handle_allocate(vec![id("a"), id("b"), id("c")]).unwrap();
    assert_eq!(r.as_str(), "b");
    let r = router.handle_allocate(vec![id("a"), id("b")]);
    assert_eq!(r.unwrap_err().message(), "3 collisions when generating agent id");
}

#[test]
fn generated_ids_are_fresh() {
    let mut router = AgentRouter::empty();
    assert_eq!(router.allocated_count(), 0);
    let a = router.allocate_agent_id().unwrap();
    let b = router.allocate_agent_id().unwrap();
    assert_eq!(router.allocated_count(), 2);
    assert!(!a.as_str().is_empty());
    assert_ne!(a, b);
    assert_eq!(a.as_str().split('-').count(), 3);
    let names = AgentId::generate();
    assert_eq!(names.len(), vicode::id::PATIENCE);
    assert!(names.iter().all(|n| n.as_str().split('-').count() == 3));
    assert!(names.iter().all(|n| n.as_str().split('-').all(|w| !w.is_empty())));
    assert!(a.as_str().split('-').all(|w| !w.is_empty()));
}

#[test]
fn node_status_names() {
    assert_eq!(NodeStatus::Spawning.name(), "Spawning");
    assert_eq!(NodeStatus::Running.name(), "Running");
    assert_eq!(NodeStatus::Idle.name(), "Idle");
    assert_eq!(NodeStatus::Dead.name(), "Dead");
    assert_eq!(RouterError::Busy.message(), "target mailbox full; retry later");
    assert_eq!(RouterError::NotOwned.message(), "target is not a strict spawn-descendant of yours");
}

#[test]
fn failed_ping_keeps_the_cached_output() {
    let (mut router, prime, child) = rig();
    let mut actions = Vec::new();
    router.handle_status(&child, ping(1, NodeStatus::Idle, Some("first"), None), &mut actions);
    router.handle_status(&child, ping(1, NodeStatus::Idle, None, Some("turn failed")), &mut actions);
    let w = router.handle_wait(prime.clone(), child.clone(), 1, &Vec::new()).unwrap().unwrap();
    assert_eq!(w.outcome.output.as_deref(), Some("first"));
    assert_eq!(w.outcome.error.as_deref(), Some("turn failed"));
    // a later success clears the error and replaces the output
    router.handle_status(&child, ping(1, NodeStatus::Idle, Some("second"), None), &mut actions);
    let w = router.handle_wait(prime.clone(), child.clone(), 2, &Vec::new()).unwrap().unwrap();
    assert_eq!(w.outcome.output.as_deref(), Some("second"));
    assert!(w.outcome.error.is_none());
}

#[test]
fn parked_wait_tokens_in_registration_order() {
    let (mut router, prime, child) = rig();
    let other = router.handle_spawn(&prime, "x", "other").unwrap().child;
    assert!(router.handle_wait(prime.clone(), child.clone(), 11, &Vec::new()).is_none());
    assert!(router.handle_wait(prime.clone(), other.clone(), 12, &vec![true]).is_none());
    assert_eq!(router.wait_tokens(), vec![11, 12]);
    let mut actions = Vec::new();
    router.handle_status(&child, ping(1, NodeStatus::Idle, None, None), &mut actions);
    assert_eq!(router.wait_tokens(), vec![12]);
}

#[test]
fn a_settled_spawn_answers_with_the_child() {
    let mut router = AgentRouter::empty();
    let prime = id("prime");
    router.register_root(prime.clone()).unwrap();
    let child = router.handle_spawn(&prime, "x", "kid").unwrap().child;
    let mut actions = Vec::new();
    let r = router.settle_spawn(&child, Ok(()), &mut actions).unwrap();
    assert_eq!(r.as_str(), "kid");
    assert!(actions.is_empty());
    assert_eq!(router.handle_inspect(&prime, &child), Ok(NodeStatus::Spawning));
}

#[test]
fn a_failed_spawn_setup_is_rolled_back() {
    let mut router = AgentRouter::empty();
    let prime = id("prime");
    router.register_root(prime.clone()).unwrap();
    let child = router.handle_spawn(&prime, "x", "kid").unwrap().child;
    assert!(router.handle_wait(prime.clone(), child.clone(), 4, &Vec::new()).is_none());
    let mut actions = Vec::new();
    let r = router.settle_spawn(&child, Err("no workdir".to_string()), &mut actions);
    assert_eq!(r.unwrap_err(), "no workdir");
    assert_eq!(router.handle_inspect(&prime, &child), Err(RouterError::Unreachable));
    assert!(matches!(&actions[0], Action::Reply { token: 4, result: Err(RouterError::Unreachable) }));
    assert_eq!(
        vicode::router::spawn::rollback_failed_error("no workdir", &child, "busy"),
        "no workdir; failed to roll back child kid: busy"
    );
}
