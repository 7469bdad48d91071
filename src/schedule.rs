//! When to build: the decisions of the build loop, as a state machine from
//! state and event to next state and action. The loop that waits, builds
//! and reports back lives with the caller.
//!
//! A trigger starts no build at once: it schedules one for when the
//! debounce window after it has passed, and the triggers that come before
//! then join it. A trigger during a build asks for exactly one more build
//! after it. Times are milliseconds on any clock that does not go back.
use vstd::prelude::*;

verus! {

#[derive(Debug, Clone, Copy, PartialEq, Eq, Structural)]
pub enum BuildState {
    /// Nothing to do.
    Idle,
    /// A build starts at `due`.
    Scheduled { due: u64 },
    /// A build runs; `rerun` records a trigger that came during it.
    Building { rerun: bool },
    /// A build runs and the loop ends when it finishes.
    Stopping,
    /// The loop has ended.
    Stopped,
}

#[derive(Debug, Clone, Copy, PartialEq, Eq, Structural)]
pub enum BuildEvent {
    /// Something changed.
    Trigger { at: u64 },
    /// Time has passed.
    Tick { at: u64 },
    /// The running build is done.
    Finished { at: u64 },
    /// An interrupt or terminate signal came.
    Stop,
}

#[derive(Debug, Clone, Copy, PartialEq, Eq, Structural)]
pub enum BuildAction {
    Nothing,
    /// Report back with a tick at `due`.
    WaitUntil { due: u64 },
    /// Run one full build, then report back that it finished.
    StartBuild,
    /// Leave the loop.
    Exit,
}

/// `at + window`, or the largest time where that overflows.
pub open spec fn due_after(at: u64, window: u64) -> u64 {
    if at as int + window as int > u64::MAX as int {
        u64::MAX
    } else {
        (at + window) as u64
    }
}

pub open spec fn next_spec(s: BuildState, window: u64, e: BuildEvent) -> (BuildState, BuildAction) {
    match (s, e) {
        (BuildState::Stopped, _) => (s, BuildAction::Exit),
        (BuildState::Stopping, BuildEvent::Finished { .. }) => (
            BuildState::Stopped,
            BuildAction::Exit,
        ),
        (BuildState::Stopping, _) => (s, BuildAction::Nothing),
        (BuildState::Building { .. }, BuildEvent::Stop) => (
            BuildState::Stopping,
            BuildAction::Nothing,
        ),
        (_, BuildEvent::Stop) => (BuildState::Stopped, BuildAction::Exit),
        (BuildState::Idle, BuildEvent::Trigger { at }) => {
            let due = due_after(at, window);
            (BuildState::Scheduled { due }, BuildAction::WaitUntil { due })
        },
        (BuildState::Scheduled { due }, BuildEvent::Tick { at }) => if at >= due {
            (BuildState::Building { rerun: false }, BuildAction::StartBuild)
        } else {
            (s, BuildAction::WaitUntil { due })
        },
        (BuildState::Building { .. }, BuildEvent::Trigger { .. }) => (
            BuildState::Building { rerun: true },
            BuildAction::Nothing,
        ),
        (BuildState::Building { rerun }, BuildEvent::Finished { at }) => if rerun {
            let due = due_after(at, window);
            (BuildState::Scheduled { due }, BuildAction::WaitUntil { due })
        } else {
            (BuildState::Idle, BuildAction::Nothing)
        },
        _ => (s, BuildAction::Nothing),
    }
}

/// A build is owed: one will start without another trigger.
pub open spec fn owes_build(s: BuildState) -> bool {
    s is Scheduled || s == (BuildState::Building { rerun: true })
}

fn due_after_exec(at: u64, window: u64) -> (r: u64)
    ensures
        r == due_after(at, window),
{
    if at > u64::MAX - window {
        u64::MAX
    } else {
        at + window
    }
}

/// The next state and what to do.
pub fn next_step(s: BuildState, window: u64, e: BuildEvent) -> (r: (BuildState, BuildAction))
    ensures
        r == next_spec(s, window, e),
        r.1 == BuildAction::StartBuild ==> !(s is Building) && !(s is Stopping) && r.0 == (
        BuildState::Building { rerun: false }),
        e is Trigger && !(s is Stopping) && !(s is Stopped) ==> owes_build(r.0),
{
    match (s, e) {
        (BuildState::Stopped, _) => (s, BuildAction::Exit),
        (BuildState::Stopping, BuildEvent::Finished { .. }) => (
            BuildState::Stopped,
            BuildAction::Exit,
        ),
        (BuildState::Stopping, _) => (s, BuildAction::Nothing),
        (BuildState::Building { .. }, BuildEvent::Stop) => (
            BuildState::Stopping,
            BuildAction::Nothing,
        ),
        (_, BuildEvent::Stop) => (BuildState::Stopped, BuildAction::Exit),
        (BuildState::Idle, BuildEvent::Trigger { at }) => {
            let due = due_after_exec(at, window);
            (BuildState::Scheduled { due }, BuildAction::WaitUntil { due })
        },
        (BuildState::Scheduled { due }, BuildEvent::Tick { at }) => if at >= due {
            (BuildState::Building { rerun: false }, BuildAction::StartBuild)
        } else {
            (s, BuildAction::WaitUntil { due })
        },
        (BuildState::Building { .. }, BuildEvent::Trigger { .. }) => (
            BuildState::Building { rerun: true },
            BuildAction::Nothing,
        ),
        (BuildState::Building { rerun }, BuildEvent::Finished { at }) => if rerun {
            let due = due_after_exec(at, window);
            (BuildState::Scheduled { due }, BuildAction::WaitUntil { due })
        } else {
            (BuildState::Idle, BuildAction::Nothing)
        },
        _ => (s, BuildAction::Nothing),
    }
}

/// The build loop's state and its debounce window.
#[derive(Debug, Clone, Copy)]
pub struct Scheduler {
    pub state: BuildState,
    pub window_ms: u64,
}

impl Scheduler {
    pub fn new(window_ms: u64) -> (r: Scheduler)
        ensures
            r.state == BuildState::Idle,
            r.window_ms == window_ms,
    {
        Scheduler { state: BuildState::Idle, window_ms }
    }

    /// Takes in one event; returns what to do.
    pub fn handle(&mut self, e: BuildEvent) -> (r: BuildAction)
        ensures
            (final(self).state, r) == next_spec(old(self).state, old(self).window_ms, e),
            final(self).window_ms == old(self).window_ms,
    {
        let (s, a) = next_step(self.state, self.window_ms, e);
        self.state = s;
        a
    }
}

/// The state after `es`, and how many builds they started.
pub open spec fn run(s: BuildState, window: u64, es: Seq<BuildEvent>) -> (BuildState, nat)
    decreases es.len(),
{
    if es.len() == 0 {
        (s, 0)
    } else {
        let (s1, a) = next_spec(s, window, es[0]);
        let (last, n) = run(s1, window, es.drop_first());
        (last, n + if a == BuildAction::StartBuild {
            1nat
        } else {
            0nat
        })
    }
}

pub open spec fn all_triggers(es: Seq<BuildEvent>) -> bool {
    forall|i: int| 0 <= i < es.len() ==> (#[trigger] es[i]) is Trigger
}

pub open spec fn all_ticks(es: Seq<BuildEvent>) -> bool {
    forall|i: int| 0 <= i < es.len() ==> (#[trigger] es[i]) is Tick
}

/// Where a build is owed, more triggers change nothing.
proof fn lemma_triggers_absorbed(s: BuildState, window: u64, es: Seq<BuildEvent>, rest: Seq<BuildEvent>)
    requires
        owes_build(s),
        all_triggers(es),
    ensures
        run(s, window, es + rest) == run(s, window, rest),
    decreases es.len(),
{
    if es.len() > 0 {
        assert((es + rest)[0] == es[0]);
        assert((es + rest).drop_first() =~= es.drop_first() + rest);
        lemma_triggers_absorbed(s, window, es.drop_first(), rest);
    } else {
        assert(es + rest =~= rest);
    }
}

/// Ticks start nothing while idle.
proof fn lemma_idle_ticks(window: u64, es: Seq<BuildEvent>)
    requires
        all_ticks(es),
    ensures
        run(BuildState::Idle, window, es) == (BuildState::Idle, 0nat),
    decreases es.len(),
{
    if es.len() > 0 {
        lemma_idle_ticks(window, es.drop_first());
    }
}

/// A burst of triggers that all come before the first one's window has
/// passed starts exactly one build.
pub proof fn lemma_burst_builds_once(window: u64, burst: Seq<BuildEvent>, at: u64)
    requires
        burst.len() >= 1,
        all_triggers(burst),
        at >= due_after(burst[0]->Trigger_at, window),
    ensures
        run(BuildState::Idle, window, burst.push(BuildEvent::Tick { at })) == (
        BuildState::Building { rerun: false }, 1nat),
{
    let s1 = next_spec(BuildState::Idle, window, burst[0]).0;
    let tick = seq![BuildEvent::Tick { at }];
    assert(burst.push(BuildEvent::Tick { at }).drop_first() =~= burst.drop_first() + tick);
    lemma_triggers_absorbed(s1, window, burst.drop_first(), tick);
    assert(tick.drop_first() =~= Seq::<BuildEvent>::empty());
    assert(run(s1, window, tick) == (BuildState::Building { rerun: false }, 1nat)) by {
        reveal_with_fuel(run, 2);
    }
    assert(burst.push(BuildEvent::Tick { at })[0] == burst[0]);
}

/// Triggers during a build give exactly one more build: it starts once the
/// window after the build's end has passed, and after it the loop is idle
/// however long it waits.
pub proof fn lemma_trigger_during_build_builds_once_more(
    window: u64,
    burst: Seq<BuildEvent>,
    done: u64,
    at: u64,
    done_again: u64,
    later: Seq<BuildEvent>,
)
    requires
        burst.len() >= 1,
        all_triggers(burst),
        at >= due_after(done, window),
        all_ticks(later),
    ensures
        run(
            BuildState::Building { rerun: false },
            window,
            burst + seq![
                BuildEvent::Finished { at: done },
                BuildEvent::Tick { at },
                BuildEvent::Finished { at: done_again },
            ] + later,
        ) == (BuildState::Idle, 1nat),
{
    let tail = seq![
        BuildEvent::Finished { at: done },
        BuildEvent::Tick { at },
        BuildEvent::Finished { at: done_again },
    ] + later;
    let es = burst + tail;
    assert(es =~= burst + seq![
        BuildEvent::Finished { at: done },
        BuildEvent::Tick { at },
        BuildEvent::Finished { at: done_again },
    ] + later);
    let s1 = BuildState::Building { rerun: true };
    assert(es.drop_first() =~= burst.drop_first() + tail);
    lemma_triggers_absorbed(s1, window, burst.drop_first(), tail);
    assert(tail.drop_first().drop_first().drop_first() =~= later);
    lemma_idle_ticks(window, later);
    let t1 = tail.drop_first();
    let t2 = t1.drop_first();
    assert(t2[0] == BuildEvent::Finished { at: done_again });
    assert(run(BuildState::Building { rerun: false }, window, t2) == (BuildState::Idle, 0nat));
    assert(t1[0] == BuildEvent::Tick { at });
    let due = due_after(done, window);
    assert(run(BuildState::Scheduled { due }, window, t1) == (BuildState::Idle, 1nat));
    assert(tail[0] == BuildEvent::Finished { at: done });
    assert(run(s1, window, tail) == (BuildState::Idle, 1nat));
    assert(es[0] == burst[0]);
}

} // verus!
