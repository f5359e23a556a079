use search_agent::lifecycle::{
    should_shutdown_on_exit, InitPhase, LifecycleAction, LifecycleEvent, Outcome, Ownership,
    ServerState, ServerStatus, ShutdownPhase, WaitOutcome,
};

#[test]
fn ownership_values_are_distinct() {
    assert_ne!(Ownership::External, Ownership::SelfManaged);
}

#[test]
fn shutdown_only_for_self() {
    assert!(should_shutdown_on_exit("self"));
    assert!(!should_shutdown_on_exit("external"));
}

fn run_init(state: &mut ServerState, events: Vec<LifecycleEvent>) -> Vec<LifecycleAction> {
    let mut phase = InitPhase::Begin;
    let mut actions = Vec::new();
    for e in events {
        assert!(phase.accepts(&e));
        let (p, a) = phase.step(state, &e);
        phase = p;
        actions.push(a);
    }
    actions
}

#[test]
fn healthy_server_is_reused_as_external() {
    let mut s = ServerState::new();
    let actions = run_init(
        &mut s,
        vec![LifecycleEvent::Start, LifecycleEvent::Health(true), LifecycleEvent::Persisted(true)],
    );
    assert!(matches!(actions[0], LifecycleAction::CheckHealth));
    assert!(matches!(actions[1], LifecycleAction::Persist { ownership: Ownership::External, .. }));
    assert!(matches!(actions[2], LifecycleAction::Finish(Outcome::Done)));
    assert_eq!(s.ownership, Ownership::External);
    assert_eq!(s.status, ServerStatus::Running);
    assert_eq!(s.message.as_deref(), Some("external server detected"));
    let snap = s.snapshot("http://127.0.0.1:11434");
    assert_eq!(snap.ownership, "external");
    assert_eq!(snap.status, "running");
    assert!(!should_shutdown_on_exit(&snap.ownership));
}

#[test]
fn unhealthy_endpoint_spawns_and_owns() {
    let mut s = ServerState::new();
    let actions = run_init(
        &mut s,
        vec![
            LifecycleEvent::Start,
            LifecycleEvent::Health(false),
            LifecycleEvent::Spawned(Some(42)),
            LifecycleEvent::Health(false),
            LifecycleEvent::Waited(WaitOutcome::Running),
            LifecycleEvent::Slept,
            LifecycleEvent::Health(true),
            LifecycleEvent::Persisted(true),
        ],
    );
    assert!(matches!(actions[1], LifecycleAction::Spawn));
    assert!(matches!(actions[3], LifecycleAction::TryWait));
    assert!(matches!(actions[4], LifecycleAction::Sleep));
    assert!(matches!(actions[6], LifecycleAction::Persist { pid: Some(42), must_succeed: true, .. }));
    assert!(matches!(actions[7], LifecycleAction::Finish(Outcome::Done)));
    assert_eq!(s.ownership, Ownership::SelfManaged);
    assert!(s.has_child);
    assert_eq!(s.message.as_deref(), Some("local server ready"));
    assert!(should_shutdown_on_exit(&s.snapshot("e").ownership));
}

#[test]
fn spawn_failure_is_recorded() {
    let mut s = ServerState::new();
    let actions = run_init(
        &mut s,
        vec![
            LifecycleEvent::Start,
            LifecycleEvent::Health(false),
            LifecycleEvent::SpawnFailed("not found".to_string()),
            LifecycleEvent::Persisted(false),
        ],
    );
    assert!(matches!(actions[2], LifecycleAction::Persist { must_succeed: false, .. }));
    assert!(matches!(actions[3], LifecycleAction::Finish(Outcome::SpawnError)));
    assert_eq!(s.status, ServerStatus::Error);
    assert_eq!(s.ownership, Ownership::Unowned);
    assert_eq!(s.message.as_deref(), Some("failed to spawn llama server: not found"));
}

#[test]
fn early_exit_ends_as_startup_timeout() {
    let mut s = ServerState::new();
    let actions = run_init(
        &mut s,
        vec![
            LifecycleEvent::Start,
            LifecycleEvent::Health(false),
            LifecycleEvent::Spawned(Some(7)),
            LifecycleEvent::Health(false),
            LifecycleEvent::Waited(WaitOutcome::Exited("exit status: 1".to_string())),
        ],
    );
    assert!(matches!(actions[4], LifecycleAction::Finish(Outcome::NotReady)));
    assert_eq!(s.status, ServerStatus::Error);
    assert_eq!(s.message.as_deref(), Some("server startup timeout"));
}

#[test]
fn startup_gives_up_after_sixty_polls() {
    let mut s = ServerState::new();
    let mut phase = InitPhase::Begin;
    let mut last = None;
    let mut events = vec![LifecycleEvent::Start, LifecycleEvent::Health(false), LifecycleEvent::Spawned(None)];
    for _ in 0..60 {
        events.push(LifecycleEvent::Health(false));
        events.push(LifecycleEvent::Waited(WaitOutcome::Running));
        events.push(LifecycleEvent::Slept);
    }
    for e in events {
        assert!(phase.accepts(&e));
        let (p, a) = phase.step(&mut s, &e);
        phase = p;
        last = Some(a);
    }
    assert!(matches!(last, Some(LifecycleAction::Finish(Outcome::NotReady))));
    assert_eq!(phase, InitPhase::Finished);
}

#[test]
fn shutdown_leaves_external_server_alone() {
    let mut s = ServerState::new();
    run_init(&mut s, vec![LifecycleEvent::Start, LifecycleEvent::Health(true), LifecycleEvent::Persisted(true)]);
    let (p, a) = ShutdownPhase::Begin.step(&mut s, &LifecycleEvent::Start);
    assert_eq!(p, ShutdownPhase::Finished);
    assert!(matches!(a, LifecycleAction::Finish(Outcome::Done)));
    assert_eq!(s.ownership, Ownership::External);
    assert_eq!(s.status, ServerStatus::Running);
}

#[test]
fn shutdown_kills_owned_server() {
    let mut s = ServerState::new();
    run_init(
        &mut s,
        vec![
            LifecycleEvent::Start,
            LifecycleEvent::Health(false),
            LifecycleEvent::Spawned(Some(9)),
            LifecycleEvent::Health(true),
            LifecycleEvent::Persisted(true),
        ],
    );
    let mut phase = ShutdownPhase::Begin;
    let mut actions = Vec::new();
    for e in vec![
        LifecycleEvent::Start,
        LifecycleEvent::Killed,
        LifecycleEvent::Waited(WaitOutcome::Exited("signal: 9".to_string())),
        LifecycleEvent::Waited(WaitOutcome::Exited("signal: 9".to_string())),
        LifecycleEvent::Persisted(true),
    ] {
        assert!(phase.accepts(&e));
        let (p, a) = phase.step(&mut s, &e);
        phase = p;
        actions.push(a);
    }
    assert!(matches!(actions[0], LifecycleAction::StartKill));
    assert!(matches!(actions[3], LifecycleAction::Persist { status: ServerStatus::Stopped, ownership: Ownership::Unowned, .. }));
    assert!(matches!(actions[4], LifecycleAction::Finish(Outcome::Done)));
    assert_eq!(s.status, ServerStatus::Stopped);
    assert_eq!(s.ownership, Ownership::Unowned);
    assert_eq!(s.pid, None);
    assert!(!s.has_child);
    assert_eq!(s.snapshot("e").ownership, "none");
}

#[test]
fn crash_is_detected_only_for_owned_server() {
    let mut s = ServerState::new();
    assert!(!s.needs_crash_check());
    assert!(s.record_crash_check(&WaitOutcome::Exited("x".to_string())).is_none());
    assert_eq!(s.status, ServerStatus::Stopped);
    run_init(
        &mut s,
        vec![
            LifecycleEvent::Start,
            LifecycleEvent::Health(false),
            LifecycleEvent::Spawned(Some(3)),
            LifecycleEvent::Health(true),
            LifecycleEvent::Persisted(true),
        ],
    );
    assert!(s.needs_crash_check());
    let a = s.record_crash_check(&WaitOutcome::Exited("exit status: 2".to_string()));
    assert!(matches!(a, Some(LifecycleAction::Persist { status: ServerStatus::Error, must_succeed: false, .. })));
    assert_eq!(s.message.as_deref(), Some("server crashed: exit status: 2"));
    assert!(!s.has_child);
    assert_eq!(s.snapshot("e").status, "error");
}

#[test]
fn stubborn_server_is_forced_after_eight_waits() {
    let mut s = ServerState::new();
    run_init(
        &mut s,
        vec![
            LifecycleEvent::Start,
            LifecycleEvent::Health(false),
            LifecycleEvent::Spawned(Some(3)),
            LifecycleEvent::Health(true),
            LifecycleEvent::Persisted(true),
        ],
    );
    let mut phase = ShutdownPhase::Begin;
    let mut events = vec![LifecycleEvent::Start, LifecycleEvent::Killed];
    for _ in 0..8 {
        events.push(LifecycleEvent::Waited(WaitOutcome::Running));
        events.push(LifecycleEvent::Slept);
    }
    events.push(LifecycleEvent::Waited(WaitOutcome::Running));
    events.push(LifecycleEvent::Killed);
    events.push(LifecycleEvent::Persisted(true));
    let mut actions = Vec::new();
    for e in events {
        assert!(phase.accepts(&e));
        let (p, a) = phase.step(&mut s, &e);
        phase = p;
        actions.push(a);
    }
    let n = actions.len();
    assert!(matches!(actions[n - 3], LifecycleAction::ForceKill));
    assert!(matches!(actions[n - 1], LifecycleAction::Finish(Outcome::Done)));
    assert_eq!(phase, ShutdownPhase::Finished);
    assert_eq!(s.status, ServerStatus::Stopped);
}
