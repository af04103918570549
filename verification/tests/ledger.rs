use vicode::ledger::TaskLedger;

#[test]
fn register_finish_pending_idle() {
    let mut ledger = TaskLedger::default();
    assert!(ledger.idle());

    let a = ledger.register();
    let b = ledger.register();
    assert!(!ledger.idle());
    assert!(ledger.pending(&a) && ledger.pending(&b));

    assert!(ledger.finish(&a));
    assert!(!ledger.finish(&a));
    assert!(!ledger.pending(&a));
    assert!(!ledger.idle());

    assert!(ledger.finish(&b));
    assert!(ledger.idle());
}

#[test]
fn clear_keeps_next_so_ids_are_never_reused() {
    let mut ledger = TaskLedger::default();
    let a = ledger.register();
    ledger.clear();
    assert!(ledger.idle());
    assert!(!ledger.pending(&a));

    let b = ledger.register();
    assert_ne!(a, b);
}

#[test]
fn ids_strictly_increase_across_finishes_and_clears() {
    let mut ledger = TaskLedger::new();
    let a = ledger.register();
    assert!(ledger.finish(&a));
    let b = ledger.register();
    ledger.clear();
    let c = ledger.register();
    assert_eq!(a.0, 0);
    assert_eq!(b.0, 1);
    assert_eq!(c.0, 2);
    assert!(!ledger.pending(&b));
    assert!(ledger.pending(&c));
}

#[test]
fn finishing_an_unknown_task_changes_nothing() {
    let mut ledger = TaskLedger::new();
    let a = ledger.register();
    assert!(!ledger.finish(&vicode::ledger::TaskId(7)));
    assert!(ledger.pending(&a));
    assert!(!ledger.idle());
}
