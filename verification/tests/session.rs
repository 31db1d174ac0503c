use termgrid::session::{
    LivenessMonitor, ProbeOutcome, PtyError, PtySize, SessionHandles, SpawnLedger,
};

#[test]
fn pty_size_rejects_zero_dimension() {
    assert!(matches!(
        PtySize { cols: 0, rows: 24 }.validate(),
        Err(PtyError::InvalidSize { cols: 0, rows: 24 })
    ));
    assert!(matches!(
        PtySize { cols: 80, rows: 0 }.validate(),
        Err(PtyError::InvalidSize { cols: 80, rows: 0 })
    ));
    assert!(PtySize { cols: 80, rows: 24 }.validate().is_ok());
}

#[test]
fn liveness_needs_two_consecutive_misses() {
    let mut monitor = LivenessMonitor::new();
    assert!(!monitor.observe(ProbeOutcome::NotRunning));
    assert!(monitor.observe(ProbeOutcome::NotRunning));
    assert!(monitor.is_closed());
}

#[test]
fn liveness_running_resets_the_count() {
    let mut monitor = LivenessMonitor::new();
    assert!(!monitor.observe(ProbeOutcome::NotRunning));
    assert!(!monitor.observe(ProbeOutcome::Running));
    assert!(!monitor.observe(ProbeOutcome::NotRunning));
    assert!(monitor.observe(ProbeOutcome::NotRunning));
}

#[test]
fn liveness_probe_failure_changes_nothing() {
    let mut monitor = LivenessMonitor::new();
    assert!(!monitor.observe(ProbeOutcome::NotRunning));
    assert!(!monitor.observe(ProbeOutcome::ProbeFailed));
    assert!(monitor.observe(ProbeOutcome::NotRunning));
}

#[test]
fn liveness_probe_rate_limit() {
    assert!(!LivenessMonitor::probe_due(499));
    assert!(LivenessMonitor::probe_due(500));
    assert!(LivenessMonitor::probe_due(10_000));
}

#[test]
fn liveness_mark_closed_is_definitive() {
    let mut monitor = LivenessMonitor::new();
    monitor.mark_closed();
    assert!(monitor.is_closed());
    assert!(monitor.observe(ProbeOutcome::Running));
}

#[test]
fn aborted_spawn_releases_everything_newest_first() {
    let mut ledger = SpawnLedger::begin();
    ledger.acquire(11);
    ledger.acquire(22);
    ledger.acquire(33);
    assert_eq!(ledger.held_count(), 3);
    let plan = ledger.abort();
    assert_eq!(plan, vec![33, 22, 11]);
    assert_eq!(ledger.held_count(), 0);
}

#[test]
fn abort_of_empty_attempt_closes_nothing() {
    let mut ledger = SpawnLedger::begin();
    let plan = ledger.abort();
    assert!(plan.is_empty());
    assert_eq!(ledger.held_count(), 0);
}

#[test]
fn abort_after_partial_acquisition() {
    // A failure after only the pipes were created closes exactly those.
    let mut ledger = SpawnLedger::begin();
    ledger.acquire(1);
    ledger.acquire(2);
    let plan = ledger.abort();
    assert_eq!(plan, vec![2, 1]);
    assert_eq!(ledger.held_count(), 0);
}

#[test]
fn successful_spawn_transfers_everything() {
    let mut ledger = SpawnLedger::begin();
    ledger.acquire(7);
    ledger.acquire(8);
    let transferred = ledger.transfer_all();
    assert_eq!(transferred, vec![7, 8]);
    assert_eq!(ledger.held_count(), 0);
}

#[test]
fn teardown_closes_console_before_process_handles() {
    let handles = SessionHandles {
        console: 100,
        conpty_input: 101,
        conpty_output: 102,
        process: 103,
        thread: 104,
    };
    let plan = handles.teardown_sequence();
    assert_eq!(plan, vec![100, 101, 102, 103, 104]);
    let console_pos = plan.iter().position(|h| *h == 100).unwrap();
    let process_pos = plan.iter().position(|h| *h == 103).unwrap();
    let thread_pos = plan.iter().position(|h| *h == 104).unwrap();
    assert!(console_pos < process_pos);
    assert!(console_pos < thread_pos);
}
