//! The change watcher's decisions: a debounce state machine driven by
//! filesystem notifications, timer expiries and reload completions.
use vstd::prelude::*;

verus! {

/// What happened to a file in the watched directory.
#[derive(Clone, Copy, Debug, PartialEq, Eq, Structural)]
pub enum ChangeKind {
    Created,
    Modified,
    Removed,
    Other,
}

#[derive(Clone, Copy, Debug, PartialEq, Eq, Structural)]
pub enum WatchState {
    /// Waiting for a notification.
    Idle,
    /// A change was seen; a reload starts once the clock reaches `deadline`.
    PendingDebounce { deadline: u64 },
    /// A reload is running; `changed` records a notification seen meanwhile.
    Reloading { changed: bool },
    /// The directory could not be watched; no further reloads happen.
    Stopped,
}

/// An input to the watcher; times are in milliseconds of a monotonic clock.
#[derive(Clone, Copy, Debug, PartialEq, Eq, Structural)]
pub enum WatchEvent {
    Changed { kind: ChangeKind, now: u64 },
    TimerFired { now: u64 },
    ReloadDone { now: u64 },
    WatchFailed,
}

/// What the driver of the watcher must do next.
#[derive(Clone, Copy, Debug, PartialEq, Eq, Structural)]
pub enum WatchAction {
    Nothing,
    /// (Re)start the debounce timer so that it fires at `deadline`.
    ArmTimer { deadline: u64 },
    /// Scan the directory, parse every file, and replace the store's set.
    Reload,
    /// Give up watching; the store keeps serving its last set.
    Stop,
}

/// Only creations, modifications and removals start a reload.
pub open spec fn qualifies(kind: ChangeKind) -> bool {
    kind != ChangeKind::Other
}

/// The debounce deadline for a change at `now`, saturating at the clock's end.
pub open spec fn deadline_after(now: u64, delay: u64) -> u64 {
    if now + delay > u64::MAX {
        u64::MAX
    } else {
        (now + delay) as u64
    }
}

/// One transition of the watcher.
pub open spec fn next(s: WatchState, delay: u64, ev: WatchEvent) -> (WatchState, WatchAction) {
    match (s, ev) {
        (WatchState::Stopped, _) => (WatchState::Stopped, WatchAction::Nothing),
        (_, WatchEvent::WatchFailed) => (WatchState::Stopped, WatchAction::Stop),
        (WatchState::Idle, WatchEvent::Changed { kind, now })
        | (WatchState::PendingDebounce { .. }, WatchEvent::Changed { kind, now }) => {
            if qualifies(kind) {
                let d = deadline_after(now, delay);
                (WatchState::PendingDebounce { deadline: d }, WatchAction::ArmTimer { deadline: d })
            } else {
                (s, WatchAction::Nothing)
            }
        },
        (WatchState::PendingDebounce { deadline }, WatchEvent::TimerFired { now }) => {
            if now >= deadline {
                (WatchState::Reloading { changed: false }, WatchAction::Reload)
            } else {
                (s, WatchAction::Nothing)
            }
        },
        (WatchState::Reloading { changed }, WatchEvent::Changed { kind, now }) => {
            (WatchState::Reloading { changed: changed || qualifies(kind) }, WatchAction::Nothing)
        },
        (WatchState::Reloading { changed }, WatchEvent::ReloadDone { now }) => {
            if changed {
                let d = deadline_after(now, delay);
                (WatchState::PendingDebounce { deadline: d }, WatchAction::ArmTimer { deadline: d })
            } else {
                (WatchState::Idle, WatchAction::Nothing)
            }
        },
        _ => (s, WatchAction::Nothing),
    }
}

/// Whether a change of this kind starts a reload.
pub fn is_qualifying(kind: ChangeKind) -> (r: bool)
    ensures
        r == qualifies(kind),
{
    !matches!(kind, ChangeKind::Other)
}

fn deadline_for(now: u64, delay: u64) -> (r: u64)
    ensures
        r == deadline_after(now, delay),
{
    if now > u64::MAX - delay {
        u64::MAX
    } else {
        now + delay
    }
}

/// One transition of the watcher: the next state and the action to perform.
pub fn step(s: WatchState, delay: u64, ev: WatchEvent) -> (r: (WatchState, WatchAction))
    ensures
        r == next(s, delay, ev),
{
    match (s, ev) {
        (WatchState::Stopped, _) => (WatchState::Stopped, WatchAction::Nothing),
        (_, WatchEvent::WatchFailed) => (WatchState::Stopped, WatchAction::Stop),
        (WatchState::Idle, WatchEvent::Changed { kind, now })
        | (WatchState::PendingDebounce { .. }, WatchEvent::Changed { kind, now }) => {
            if is_qualifying(kind) {
                let d = deadline_for(now, delay);
                (WatchState::PendingDebounce { deadline: d }, WatchAction::ArmTimer { deadline: d })
            } else {
                (s, WatchAction::Nothing)
            }
        },
        (WatchState::PendingDebounce { deadline }, WatchEvent::TimerFired { now }) => {
            if now >= deadline {
                (WatchState::Reloading { changed: false }, WatchAction::Reload)
            } else {
                (s, WatchAction::Nothing)
            }
        },
        (WatchState::Reloading { changed }, WatchEvent::Changed { kind, now: _ }) => {
            (WatchState::Reloading { changed: changed || is_qualifying(kind) }, WatchAction::Nothing)
        },
        (WatchState::Reloading { changed }, WatchEvent::ReloadDone { now }) => {
            if changed {
                let d = deadline_for(now, delay);
                (WatchState::PendingDebounce { deadline: d }, WatchAction::ArmTimer { deadline: d })
            } else {
                (WatchState::Idle, WatchAction::Nothing)
            }
        },
        _ => (s, WatchAction::Nothing),
    }
}

/// The watcher: its current state and its debounce delay in milliseconds.
pub struct Watcher {
    pub state: WatchState,
    pub delay: u64,
}

impl Watcher {
    /// A watcher that waits for its first change.
    pub fn new(delay: u64) -> (r: Watcher)
        ensures
            r.state == WatchState::Idle,
            r.delay == delay,
    {
        Watcher { state: WatchState::Idle, delay }
    }

    /// Feeds one event to the watcher and returns what to do next.
    pub fn handle(&mut self, ev: WatchEvent) -> (r: WatchAction)
        ensures
            final(self).delay == old(self).delay,
            (final(self).state, r) == next(old(self).state, old(self).delay, ev),
    {
        let (s, a) = step(self.state, self.delay, ev);
        self.state = s;
        a
    }
}

/// The state after a sequence of events, and how many reloads it started.
pub open spec fn run(s: WatchState, delay: u64, evs: Seq<WatchEvent>) -> (WatchState, nat)
    decreases evs.len(),
{
    if evs.len() == 0 {
        (s, 0)
    } else {
        let (s1, a) = next(s, delay, evs[0]);
        let (s2, n) = run(s1, delay, evs.drop_first());
        (s2, n + if a == WatchAction::Reload { 1nat } else { 0nat })
    }
}

/// A burst: a modification at each of `times`, each followed by a timer
/// expiry at the matching entry of `ticks`.
pub open spec fn burst(times: Seq<u64>, ticks: Seq<u64>) -> Seq<WatchEvent>
    decreases times.len(),
{
    if times.len() == 0 || ticks.len() == 0 {
        Seq::empty()
    } else {
        seq![
            WatchEvent::Changed { kind: ChangeKind::Modified, now: times[0] },
            WatchEvent::TimerFired { now: ticks[0] },
        ] + burst(times.drop_first(), ticks.drop_first())
    }
}

/// A timer expiry at each tick falls short of the deadline the change
/// before it set, except for the last, which reaches it.
pub open spec fn collapsing(delay: u64, times: Seq<u64>, ticks: Seq<u64>) -> bool {
    &&& times.len() >= 1
    &&& ticks.len() == times.len()
    &&& forall|i: int| 0 <= i < times.len() ==> times[i] + delay <= u64::MAX
    &&& forall|i: int|
        0 <= i < times.len() - 1 ==> times[i] <= #[trigger] ticks[i] <= times[i + 1] && times[i
            + 1] < times[i] + delay
    &&& ticks[times.len() - 1] >= times[times.len() - 1] + delay
}

proof fn lemma_run_two(s: WatchState, delay: u64, a: WatchEvent, b: WatchEvent, rest: Seq<WatchEvent>)
    ensures
        ({
            let (s1, x) = next(s, delay, a);
            let (s2, y) = next(s1, delay, b);
            let (s3, n) = run(s2, delay, rest);
            run(s, delay, seq![a, b] + rest) == (s3, n + (if x == WatchAction::Reload {
                1nat
            } else {
                0nat
            }) + (if y == WatchAction::Reload {
                1nat
            } else {
                0nat
            }))
        }),
{
    let all = seq![a, b] + rest;
    assert(all[0] == a);
    assert(all.drop_first() =~= seq![b] + rest);
    assert((seq![b] + rest)[0] == b);
    assert((seq![b] + rest).drop_first() =~= rest);
    reveal_with_fuel(run, 2);
}

proof fn lemma_burst_from(s: WatchState, delay: u64, times: Seq<u64>, ticks: Seq<u64>)
    requires
        collapsing(delay, times, ticks),
        s == WatchState::Idle || s is PendingDebounce,
    ensures
        run(s, delay, burst(times, ticks)) == (WatchState::Reloading { changed: false }, 1nat),
    decreases times.len(),
{
    let a = WatchEvent::Changed { kind: ChangeKind::Modified, now: times[0] };
    let b = WatchEvent::TimerFired { now: ticks[0] };
    let rest = burst(times.drop_first(), ticks.drop_first());
    lemma_run_two(s, delay, a, b, rest);
    if times.len() == 1 {
        assert(rest == Seq::<WatchEvent>::empty());
    } else {
        assert(ticks[0] <= times[1]);
        let (t2, k2) = (times.drop_first(), ticks.drop_first());
        assert forall|i: int| 0 <= i < t2.len() - 1 implies t2[i] <= #[trigger] k2[i] <= t2[i + 1]
            && t2[i + 1] < t2[i] + delay by {
            assert(times[i + 1] <= ticks[i + 1] <= times[i + 2]);
        }
        lemma_burst_from(WatchState::PendingDebounce { deadline: (times[0] + delay) as u64 }, delay, t2, k2);
    }
}

/// Changes that come less than the debounce delay apart, with timer expiries
/// between them, start exactly one reload once the delay has passed after
/// the last of them.
pub proof fn lemma_debounce_collapse(delay: u64, times: Seq<u64>, ticks: Seq<u64>)
    requires
        collapsing(delay, times, ticks),
    ensures
        run(WatchState::Idle, delay, burst(times, ticks)).1 == 1,
{
    lemma_burst_from(WatchState::Idle, delay, times, ticks);
}

} // verus!
