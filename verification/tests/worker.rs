use ir_affinity::persistence::{CpuSelections, PersistentStore};
use ir_affinity::worker::{
    HeartbeatChannel, TickAction, TickEvent, TickMachine, WorkerHeartbeat,
    HEARTBEAT_STALE_PERIOD_MS,
};

fn store_all_selected(name: &str, cpu_count: usize) -> PersistentStore {
    PersistentStore {
        process: String::from(name),
        selections: CpuSelections::new_all_selected(cpu_count),
    }
}

#[test]
fn staleness_threshold() {
    let now = 1_000_000;
    let beat = WorkerHeartbeat::from_parts(now - 11_000, Some(true), None);
    assert!(beat.is_stale_given(now));
    let beat = WorkerHeartbeat::from_parts(now - 5_000, Some(true), None);
    assert!(!beat.is_stale_given(now));
    // The threshold itself is not yet stale: staleness needs strictly more.
    let beat = WorkerHeartbeat::from_parts(now - HEARTBEAT_STALE_PERIOD_MS, None, None);
    assert!(!beat.is_stale_given(now));
    assert!(!WorkerHeartbeat::now(None, None).get_is_stale());
}

#[test]
fn heartbeat_accessors() {
    let beat = WorkerHeartbeat::from_parts(42, Some(false), Some(String::from("boom")));
    assert_eq!(beat.get_at(), 42);
    assert_eq!(*beat.get_is_synced(), Some(false));
    assert_eq!(*beat.get_error(), Some(String::from("boom")));
}

#[test]
fn tick_without_target_process() {
    let mut machine = TickMachine::new();
    assert!(matches!(machine.step(TickEvent::Slept), TickAction::LoadStore));
    let action = machine.step(TickEvent::Loaded(Ok(store_all_selected("game.exe", 2))));
    match action {
        TickAction::Enumerate { name } => assert_eq!(name, "game.exe"),
        _ => panic!("expected an enumeration request"),
    }
    let action = machine.step(TickEvent::Enumerated(vec![]));
    assert!(matches!(
        action,
        TickAction::Publish { is_synced: None, error: None }
    ));
}

#[test]
fn tick_load_failure_publishes_error() {
    let mut machine = TickMachine::new();
    machine.step(TickEvent::Slept);
    let action = machine.step(TickEvent::Loaded(Err(String::from("storage unavailable"))));
    match action {
        TickAction::Publish { is_synced, error } => {
            assert_eq!(is_synced, None);
            assert_eq!(error, Some(String::from("storage unavailable")));
        }
        _ => panic!("expected the tick to end in a heartbeat"),
    }
    // The machine is asleep again: the loop goes on to its next cycle.
    assert!(matches!(machine.step(TickEvent::Slept), TickAction::LoadStore));
}

#[test]
fn tick_gateway_failure_publishes_error() {
    let mut machine = TickMachine::new();
    machine.step(TickEvent::Slept);
    machine.step(TickEvent::Loaded(Ok(store_all_selected("game.exe", 2))));
    let action = machine.step(TickEvent::Enumerated(vec![42]));
    assert!(matches!(action, TickAction::ReadAffinity { pid: 42 }));
    let action = machine.step(TickEvent::AffinityRead(Err(String::from("access denied"))));
    match action {
        TickAction::Publish { is_synced, error } => {
            assert_eq!(is_synced, None);
            assert_eq!(error, Some(String::from("access denied")));
        }
        _ => panic!("expected the tick to end in a heartbeat"),
    }
    assert!(matches!(machine.step(TickEvent::Slept), TickAction::LoadStore));
}

#[test]
fn tick_drift_then_correction() {
    // Two matched processes, both drifted: the desired mask is written to
    // each exactly once, the re-check passes, and the heartbeat says
    // synced with no error.
    let desired_mask = 0b11;
    let mut machine = TickMachine::new();
    machine.step(TickEvent::Slept);
    machine.step(TickEvent::Loaded(Ok(store_all_selected("game.exe", 2))));
    let mut writes: Vec<u32> = Vec::new();

    let action = machine.step(TickEvent::Enumerated(vec![42, 43]));
    assert!(matches!(action, TickAction::ReadAffinity { pid: 42 }));

    let action = machine.step(TickEvent::AffinityRead(Ok(0b01)));
    match action {
        TickAction::SetAffinity { pid, mask } => {
            assert_eq!(mask, desired_mask);
            writes.push(pid);
        }
        _ => panic!("a drifted process must be corrected"),
    }
    let action = machine.step(TickEvent::SyncApplied(Ok(())));
    match action {
        TickAction::SetAffinity { pid, mask } => {
            assert_eq!(mask, desired_mask);
            writes.push(pid);
        }
        _ => panic!("every matched process must be corrected"),
    }
    assert_eq!(writes, vec![42, 43]);

    // After the last write the machine re-checks every process.
    let action = machine.step(TickEvent::SyncApplied(Ok(())));
    assert!(matches!(action, TickAction::ReadAffinity { pid: 42 }));
    let action = machine.step(TickEvent::AffinityRead(Ok(desired_mask)));
    assert!(matches!(action, TickAction::ReadAffinity { pid: 43 }));
    let action = machine.step(TickEvent::AffinityRead(Ok(desired_mask)));
    assert!(matches!(
        action,
        TickAction::Publish { is_synced: Some(true), error: None }
    ));
}

#[test]
fn tick_sync_failure_keeps_precheck_verdict() {
    let mut machine = TickMachine::new();
    machine.step(TickEvent::Slept);
    machine.step(TickEvent::Loaded(Ok(store_all_selected("game.exe", 2))));
    machine.step(TickEvent::Enumerated(vec![42]));
    let action = machine.step(TickEvent::AffinityRead(Ok(0b01)));
    assert!(matches!(action, TickAction::SetAffinity { .. }));
    let action = machine.step(TickEvent::SyncApplied(Err(String::from("invalid mask"))));
    match action {
        TickAction::Publish { is_synced, error } => {
            assert_eq!(is_synced, Some(false));
            assert_eq!(error, Some(String::from("invalid mask")));
        }
        _ => panic!("expected the tick to end in a heartbeat"),
    }
}

#[test]
fn channel_keeps_latest_value_only() {
    let mut channel = HeartbeatChannel::new();
    assert!(channel.latest().is_none());
    let first = WorkerHeartbeat::from_parts(100, None, None);
    let second = WorkerHeartbeat::from_parts(200, Some(true), None);
    channel.publish(first.clone());
    assert!(*channel.latest() == Some(first));
    channel.publish(second.clone());
    assert!(*channel.latest() == Some(second));
}

#[test]
fn running_worker_logic() {
    // Two full ticks over one matched process (id 42): the first corrects
    // drift and reports synced, the second finds everything in place and
    // reports synced again. The two published heartbeats never coincide.
    let mut machine = TickMachine::new();
    let mut channel = HeartbeatChannel::new();
    let mut slept = 0;
    let mut syncs = 0;

    // First tick: load, enumerate, mismatch, correct, re-check, publish.
    assert!(matches!(machine.step(TickEvent::Slept), TickAction::LoadStore));
    slept += 1;
    machine.step(TickEvent::Loaded(Ok(store_all_selected("game.exe", 2))));
    machine.step(TickEvent::Enumerated(vec![42]));
    let action = machine.step(TickEvent::AffinityRead(Ok(0b10)));
    assert!(matches!(action, TickAction::SetAffinity { pid: 42, mask: 0b11 }));
    syncs += 1;
    machine.step(TickEvent::SyncApplied(Ok(())));
    let action = machine.step(TickEvent::AffinityRead(Ok(0b11)));
    let first_beat = match action {
        TickAction::Publish { is_synced, error } => WorkerHeartbeat::from_parts(100, is_synced, error),
        _ => panic!("a tick always ends in a heartbeat"),
    };
    assert_eq!(*first_beat.get_is_synced(), Some(true));
    channel.publish(first_beat.clone());
    assert!(channel.latest().is_some());

    // Second tick: everything already synced; nothing is written.
    assert!(matches!(machine.step(TickEvent::Slept), TickAction::LoadStore));
    slept += 1;
    machine.step(TickEvent::Loaded(Ok(store_all_selected("game.exe", 2))));
    machine.step(TickEvent::Enumerated(vec![42]));
    let action = machine.step(TickEvent::AffinityRead(Ok(0b11)));
    assert!(matches!(action, TickAction::ReadAffinity { pid: 42 }));
    let action = machine.step(TickEvent::AffinityRead(Ok(0b11)));
    let second_beat = match action {
        TickAction::Publish { is_synced, error } => WorkerHeartbeat::from_parts(200, is_synced, error),
        _ => panic!("a tick always ends in a heartbeat"),
    };
    assert_eq!(*second_beat.get_is_synced(), Some(true));
    channel.publish(second_beat.clone());
    assert!(channel.latest().is_some());

    assert_eq!(slept, 2);
    assert_eq!(syncs, 1);
    assert!(first_beat != second_beat);
    assert!(*channel.latest() == Some(second_beat));
}
