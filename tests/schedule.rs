use bs_site_builder::schedule::{BuildAction, BuildEvent, BuildState, Scheduler};

fn starts(s: &mut Scheduler, events: &[BuildEvent]) -> usize {
    events
        .iter()
        .filter(|e| s.handle(**e) == BuildAction::StartBuild)
        .count()
}

#[test]
fn burst_of_triggers_builds_once() {
    let mut s = Scheduler::new(300);
    let events = [
        BuildEvent::Trigger { at: 1000 },
        BuildEvent::Trigger { at: 1010 },
        BuildEvent::Trigger { at: 1100 },
        BuildEvent::Trigger { at: 1250 },
        BuildEvent::Tick { at: 1200 },
        BuildEvent::Tick { at: 1300 },
    ];
    assert_eq!(starts(&mut s, &events), 1);
    assert_eq!(s.state, BuildState::Building { rerun: false });
}

#[test]
fn first_trigger_waits_for_the_window() {
    let mut s = Scheduler::new(300);
    assert_eq!(s.handle(BuildEvent::Trigger { at: 5 }), BuildAction::WaitUntil { due: 305 });
    assert_eq!(s.handle(BuildEvent::Tick { at: 304 }), BuildAction::WaitUntil { due: 305 });
    assert_eq!(s.handle(BuildEvent::Tick { at: 305 }), BuildAction::StartBuild);
}

#[test]
fn trigger_during_build_builds_exactly_once_more() {
    let mut s = Scheduler::new(200);
    s.handle(BuildEvent::Trigger { at: 0 });
    assert_eq!(s.handle(BuildEvent::Tick { at: 200 }), BuildAction::StartBuild);
    let events = [
        BuildEvent::Trigger { at: 250 },
        BuildEvent::Trigger { at: 260 },
        BuildEvent::Finished { at: 400 },
        BuildEvent::Tick { at: 600 },
        BuildEvent::Finished { at: 700 },
        BuildEvent::Tick { at: 2000 },
        BuildEvent::Tick { at: 9000 },
    ];
    assert_eq!(starts(&mut s, &events), 1);
    assert_eq!(s.state, BuildState::Idle);
}

#[test]
fn build_without_new_trigger_goes_idle() {
    let mut s = Scheduler::new(200);
    s.handle(BuildEvent::Trigger { at: 0 });
    s.handle(BuildEvent::Tick { at: 200 });
    assert_eq!(s.handle(BuildEvent::Finished { at: 300 }), BuildAction::Nothing);
    assert_eq!(s.state, BuildState::Idle);
    assert_eq!(s.handle(BuildEvent::Tick { at: 10_000 }), BuildAction::Nothing);
}

#[test]
fn stop_lets_the_running_build_finish() {
    let mut s = Scheduler::new(200);
    s.handle(BuildEvent::Trigger { at: 0 });
    s.handle(BuildEvent::Tick { at: 200 });
    assert_eq!(s.handle(BuildEvent::Stop), BuildAction::Nothing);
    assert_eq!(s.state, BuildState::Stopping);
    assert_eq!(s.handle(BuildEvent::Trigger { at: 250 }), BuildAction::Nothing);
    assert_eq!(s.handle(BuildEvent::Finished { at: 300 }), BuildAction::Exit);
    assert_eq!(s.state, BuildState::Stopped);
    let mut idle = Scheduler::new(200);
    assert_eq!(idle.handle(BuildEvent::Stop), BuildAction::Exit);
}

#[test]
fn due_time_saturates() {
    let mut s = Scheduler::new(300);
    assert_eq!(
        s.handle(BuildEvent::Trigger { at: u64::MAX - 1 }),
        BuildAction::WaitUntil { due: u64::MAX }
    );
}
