use mdblog::watcher::{step, ChangeKind, WatchAction, WatchEvent, WatchState, Watcher};

fn changed(now: u64) -> WatchEvent {
    WatchEvent::Changed { kind: ChangeKind::Modified, now }
}

#[test]
fn burst_collapses_into_one_reload() {
    let mut w = Watcher::new(100);
    let mut reloads = 0;
    for t in [0u64, 30, 60, 90, 150] {
        if w.handle(changed(t)) == WatchAction::Reload {
            reloads += 1;
        }
        if w.handle(WatchEvent::TimerFired { now: t + 20 }) == WatchAction::Reload {
            reloads += 1;
        }
    }
    assert_eq!(w.state, WatchState::PendingDebounce { deadline: 250 });
    if w.handle(WatchEvent::TimerFired { now: 250 }) == WatchAction::Reload {
        reloads += 1;
    }
    assert_eq!(reloads, 1);
    assert_eq!(w.state, WatchState::Reloading { changed: false });
    assert_eq!(w.handle(WatchEvent::ReloadDone { now: 260 }), WatchAction::Nothing);
    assert_eq!(w.state, WatchState::Idle);
}

#[test]
fn change_restarts_the_timer() {
    let mut w = Watcher::new(100);
    assert_eq!(w.handle(changed(10)), WatchAction::ArmTimer { deadline: 110 });
    assert_eq!(w.handle(changed(50)), WatchAction::ArmTimer { deadline: 150 });
    assert_eq!(w.handle(WatchEvent::TimerFired { now: 110 }), WatchAction::Nothing);
    assert_eq!(w.handle(WatchEvent::TimerFired { now: 150 }), WatchAction::Reload);
}

#[test]
fn change_during_reload_schedules_another() {
    let mut w = Watcher::new(100);
    w.handle(changed(0));
    assert_eq!(w.handle(WatchEvent::TimerFired { now: 100 }), WatchAction::Reload);
    assert_eq!(w.handle(changed(120)), WatchAction::Nothing);
    assert_eq!(w.handle(WatchEvent::ReloadDone { now: 130 }), WatchAction::ArmTimer { deadline: 230 });
}

#[test]
fn other_events_are_ignored() {
    let (s, a) = step(WatchState::Idle, 100, WatchEvent::Changed { kind: ChangeKind::Other, now: 5 });
    assert_eq!(s, WatchState::Idle);
    assert_eq!(a, WatchAction::Nothing);
    let (s, a) = step(WatchState::Idle, 100, WatchEvent::Changed { kind: ChangeKind::Removed, now: 5 });
    assert_eq!(s, WatchState::PendingDebounce { deadline: 105 });
    assert_eq!(a, WatchAction::ArmTimer { deadline: 105 });
}

#[test]
fn watch_failure_stops_for_good() {
    let mut w = Watcher::new(100);
    assert_eq!(w.handle(WatchEvent::WatchFailed), WatchAction::Stop);
    assert_eq!(w.handle(changed(1)), WatchAction::Nothing);
    assert_eq!(w.state, WatchState::Stopped);
}

#[test]
fn deadline_saturates() {
    let (s, _) = step(WatchState::Idle, 100, WatchEvent::Changed { kind: ChangeKind::Created, now: u64::MAX - 10 });
    assert_eq!(s, WatchState::PendingDebounce { deadline: u64::MAX });
}
