//! The watch loop: which file system events ask for a rebuild, and how a burst
//! of them is folded into one rebuild.

use vstd::prelude::*;

verus! {

/// How long the loop waits for a burst of changes to settle, in nanoseconds.
pub const DEBOUNCE_NANOS: u64 = 10_000_000;

/// The kind of a file system event.
#[derive(Debug, Clone, Copy, PartialEq, Eq, Structural)]
pub enum ChangeKind {
    Any,
    Access,
    Create,
    Modify,
    Remove,
    Other,
}

/// Whether an event of this kind asks for a rebuild: every kind does but a
/// pure access, which changes nothing.
pub fn triggers_rebuild(kind: ChangeKind) -> (r: bool)
    ensures
        r == (kind != ChangeKind::Access),
{
    match kind {
        ChangeKind::Access => false,
        _ => true,
    }
}

/// The state of the watch loop.
#[derive(Debug, Clone, Copy, PartialEq, Eq, Structural)]
pub enum Debounce {
    /// Waiting for a change.
    Idle,
    /// A change came; further ones are drained until the deadline.
    Settling { deadline: u64 },
}

/// What the watch loop observes.
#[derive(Debug, Clone, Copy, PartialEq, Eq, Structural)]
pub enum LoopEvent {
    /// A change signal, received at `now`.
    Signal { now: u64 },
    /// The deadline passed with no further signal.
    Quiet,
}

/// What the watch loop does next.
#[derive(Debug, Clone, Copy, PartialEq, Eq, Structural)]
pub enum LoopAction {
    /// Block until a signal comes.
    WaitForSignal,
    /// Drain signals until this instant.
    WaitUntil(u64),
    /// Run the build graph once.
    Rebuild,
}

/// The deadline of a burst whose first signal came at `now`.
pub open spec fn deadline_after(now: u64, window: u64) -> u64 {
    if now as int + window as int > u64::MAX {
        u64::MAX
    } else {
        (now + window) as u64
    }
}

/// One transition of the watch loop.
pub open spec fn next(s: Debounce, e: LoopEvent, window: u64) -> (Debounce, LoopAction) {
    match (s, e) {
        (Debounce::Idle, LoopEvent::Signal { now }) => {
            let d = deadline_after(now, window);
            (Debounce::Settling { deadline: d }, LoopAction::WaitUntil(d))
        },
        (Debounce::Settling { deadline }, LoopEvent::Signal { .. }) => (
            s,
            LoopAction::WaitUntil(deadline),
        ),
        (Debounce::Settling { .. }, LoopEvent::Quiet) => (Debounce::Idle, LoopAction::Rebuild),
        (Debounce::Idle, LoopEvent::Quiet) => (Debounce::Idle, LoopAction::WaitForSignal),
    }
}

/// The state and the actions of the loop after `es`, from `s`.
pub open spec fn run_from(s: Debounce, es: Seq<LoopEvent>, window: u64) -> (Debounce, Seq<LoopAction>)
    decreases es.len(),
{
    if es.len() == 0 {
        (s, Seq::empty())
    } else {
        let (s1, acts) = run_from(s, es.drop_last(), window);
        let (s2, a) = next(s1, es.last(), window);
        (s2, acts.push(a))
    }
}

/// How many rebuilds `acts` holds.
pub open spec fn rebuilds(acts: Seq<LoopAction>) -> nat
    decreases acts.len(),
{
    if acts.len() == 0 {
        0
    } else {
        rebuilds(acts.drop_last()) + if acts.last() == LoopAction::Rebuild {
            1nat
        } else {
            0nat
        }
    }
}

/// A signal at each instant of `times`.
pub open spec fn signals(times: Seq<u64>) -> Seq<LoopEvent> {
    times.map_values(|t: u64| LoopEvent::Signal { now: t })
}

/// The events of a burst: a signal at each instant of `times`, then quiet.
pub open spec fn burst(times: Seq<u64>) -> Seq<LoopEvent> {
    signals(times).push(LoopEvent::Quiet)
}

/// The watch loop: its state and the length of its settling window.
pub struct Debouncer {
    pub state: Debounce,
    pub window: u64,
}

impl Debouncer {
    /// An idle loop that waits `window` nanoseconds for a burst to settle.
    pub fn new(window: u64) -> (r: Debouncer)
        ensures
            r.state == Debounce::Idle,
            r.window == window,
    {
        Debouncer { state: Debounce::Idle, window }
    }

    /// Takes `event` and says what to do next.
    pub fn on_event(&mut self, event: LoopEvent) -> (r: LoopAction)
        ensures
            (final(self).state, r) == next(old(self).state, event, old(self).window),
            final(self).window == old(self).window,
    {
        match (self.state, event) {
            (Debounce::Idle, LoopEvent::Signal { now }) => {
                let d = if now > u64::MAX - self.window {
                    u64::MAX
                } else {
                    now + self.window
                };
                self.state = Debounce::Settling { deadline: d };
                LoopAction::WaitUntil(d)
            },
            (Debounce::Settling { deadline }, LoopEvent::Signal { .. }) => LoopAction::WaitUntil(
                deadline,
            ),
            (Debounce::Settling { .. }, LoopEvent::Quiet) => {
                self.state = Debounce::Idle;
                LoopAction::Rebuild
            },
            (Debounce::Idle, LoopEvent::Quiet) => LoopAction::WaitForSignal,
        }
    }
}

/// The actions of an idle loop that observes `events` in order.
pub fn run_events(window: u64, events: &Vec<LoopEvent>) -> (r: Vec<LoopAction>)
    ensures
        r@ == run_from(Debounce::Idle, events@, window).1,
{
    let mut d = Debouncer::new(window);
    let mut acts: Vec<LoopAction> = Vec::new();
    let mut i: usize = 0;
    while i < events.len()
        invariant
            0 <= i <= events.len(),
            d.window == window,
            (d.state, acts@) == run_from(Debounce::Idle, events@.take(i as int), window),
        decreases events.len() - i,
    {
        assert(events@.take(i + 1).drop_last() =~= events@.take(i as int));
        let a = d.on_event(events[i]);
        acts.push(a);
        i += 1;
    }
    assert(events@.take(i as int) =~= events@);
    acts
}

proof fn lemma_signals_keep_settling(times: Seq<u64>, window: u64)
    requires
        times.len() >= 1,
    ensures
        run_from(Debounce::Idle, signals(times), window).0 == (Debounce::Settling {
            deadline: deadline_after(times[0], window),
        }),
        rebuilds(run_from(Debounce::Idle, signals(times), window).1) == 0,
    decreases times.len(),
{
    let es = signals(times);
    if times.len() == 1 {
        assert(es.drop_last() =~= Seq::<LoopEvent>::empty());
        let r0 = run_from(Debounce::Idle, es.drop_last(), window);
        assert(r0.1 =~= Seq::<LoopAction>::empty());
        assert(es.last() == LoopEvent::Signal { now: times[0] });
        let r = run_from(Debounce::Idle, es, window);
        assert(r.1 =~= seq![LoopAction::WaitUntil(deadline_after(times[0], window))]);
        assert(r.1.drop_last() =~= Seq::<LoopAction>::empty());
        assert(rebuilds(r.1.drop_last()) == 0);
        assert(rebuilds(r.1) == 0);
    } else {
        lemma_signals_keep_settling(times.drop_last(), window);
        assert(es.drop_last() =~= signals(times.drop_last()));
        assert(times.drop_last()[0] == times[0]);
        let r = run_from(Debounce::Idle, es, window);
        let r0 = run_from(Debounce::Idle, es.drop_last(), window);
        assert(r.1.drop_last() =~= r0.1);
        assert(es.last() == LoopEvent::Signal { now: times.last() });
        assert(r.1.last() == LoopAction::WaitUntil(deadline_after(times[0], window)));
        assert(rebuilds(r.1) == rebuilds(r0.1));
    }
}

/// A burst of one or more change signals followed by quiet makes the loop
/// rebuild exactly once, at the end of the burst.
pub proof fn lemma_burst_rebuilds_once(times: Seq<u64>, window: u64)
    requires
        times.len() >= 1,
    ensures
        rebuilds(run_from(Debounce::Idle, burst(times), window).1) == 1,
        run_from(Debounce::Idle, burst(times), window).1.last() == LoopAction::Rebuild,
        run_from(Debounce::Idle, burst(times), window).0 == Debounce::Idle,
{
    lemma_signals_keep_settling(times, window);
    let es = burst(times);
    assert(es.drop_last() =~= signals(times));
    let r = run_from(Debounce::Idle, es, window);
    let r0 = run_from(Debounce::Idle, signals(times), window);
    assert(r.1.drop_last() =~= r0.1);
}

} // verus!
