use sitebuild::watch::{run_events, triggers_rebuild, ChangeKind, Debouncer, LoopAction, LoopEvent, DEBOUNCE_NANOS};

#[test]
fn five_rapid_changes_rebuild_once() {
    let mut events: Vec<LoopEvent> = (0..5).map(|i| LoopEvent::Signal { now: 1000 + i }).collect();
    events.push(LoopEvent::Quiet);
    let actions = run_events(DEBOUNCE_NANOS, &events);
    let rebuilds = actions.iter().filter(|a| **a == LoopAction::Rebuild).count();
    assert_eq!(rebuilds, 1);
    assert_eq!(actions[0], LoopAction::WaitUntil(1000 + DEBOUNCE_NANOS));
    assert_eq!(actions[4], LoopAction::WaitUntil(1000 + DEBOUNCE_NANOS));
    assert_eq!(*actions.last().unwrap(), LoopAction::Rebuild);
}

#[test]
fn two_bursts_rebuild_twice() {
    let events = vec![
        LoopEvent::Signal { now: 1 },
        LoopEvent::Quiet,
        LoopEvent::Quiet,
        LoopEvent::Signal { now: 50 },
        LoopEvent::Signal { now: 51 },
        LoopEvent::Quiet,
    ];
    let actions = run_events(10, &events);
    assert_eq!(
        actions,
        vec![
            LoopAction::WaitUntil(11),
            LoopAction::Rebuild,
            LoopAction::WaitForSignal,
            LoopAction::WaitUntil(60),
            LoopAction::WaitUntil(60),
            LoopAction::Rebuild,
        ]
    );
}

#[test]
fn deadline_saturates() {
    let mut d = Debouncer::new(10);
    assert_eq!(d.on_event(LoopEvent::Signal { now: u64::MAX - 3 }), LoopAction::WaitUntil(u64::MAX));
}

#[test]
fn access_events_are_ignored() {
    assert!(!triggers_rebuild(ChangeKind::Access));
    assert!(triggers_rebuild(ChangeKind::Modify));
    assert!(triggers_rebuild(ChangeKind::Create));
    assert!(triggers_rebuild(ChangeKind::Remove));
    assert!(triggers_rebuild(ChangeKind::Any));
    assert!(triggers_rebuild(ChangeKind::Other));
}
