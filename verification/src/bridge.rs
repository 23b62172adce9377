//! The deferred-execution bridge.
//!
//! Signal delivery happens in a restricted context where user logic cannot
//! run. The bridge converts each delivery into a counted request consumed by
//! one dedicated worker thread: the restricted side only bumps a saturating
//! per-kind counter (and posts a wake that the surrounding glue owns), and
//! the worker, on each wake, takes every pending count and replays the
//! notifications in a fixed order — all pending interrupts, then all
//! pending terminations. Counting never blocks the deliverer and never
//! loses a notification; only timing is coalesced.
//!
//! This module is the decision half of that protocol: the counters, the
//! stop flag, and the replay plan. Waiting on and posting the semaphore,
//! and the thread itself, live in the glue, which consults
//! [`Bridge::should_run`], [`Bridge::drain`] and the stop handshake below.

use vstd::prelude::*;
use crate::ShutdownType;
use crate::backend::spec_kind_of_signal;
use crate::backend::kind_of_signal;

verus! {

/// Spec-level state of the bridge.
pub struct BridgeView {
    /// Pending interrupt notifications not yet replayed.
    pub interrupts: usize,
    /// Pending termination notifications not yet replayed.
    pub terminates: usize,
    /// Whether the worker has been asked to stop.
    pub stopping: bool,
}

/// Pending-notification counters and the worker stop flag.
pub struct Bridge {
    interrupts: usize,
    terminates: usize,
    stopping: bool,
}

impl View for Bridge {
    type V = BridgeView;

    closed spec fn view(&self) -> BridgeView {
        BridgeView {
            interrupts: self.interrupts,
            terminates: self.terminates,
            stopping: self.stopping,
        }
    }
}

/// A counter bumped by one, staying put at its maximum instead of wrapping.
pub open spec fn spec_saturating_inc(count: usize) -> usize {
    if count == usize::MAX {
        count
    } else {
        (count + 1) as usize
    }
}

/// One recorded notification: the counter of its kind is bumped,
/// saturating; nothing else moves.
pub open spec fn spec_record(v: BridgeView, kind: ShutdownType) -> BridgeView {
    match kind {
        ShutdownType::Interrupt => BridgeView {
            interrupts: spec_saturating_inc(v.interrupts),
            ..v
        },
        ShutdownType::Terminate => BridgeView {
            terminates: spec_saturating_inc(v.terminates),
            ..v
        },
    }
}

/// A whole burst of recorded notifications, in delivery order.
pub open spec fn spec_record_all(v: BridgeView, burst: Seq<ShutdownType>) -> BridgeView
    decreases burst.len(),
{
    if burst.len() == 0 {
        v
    } else {
        spec_record(spec_record_all(v, burst.drop_last()), burst.last())
    }
}

/// The replay plan for pending counts: every pending interrupt first, then
/// every pending termination.
pub open spec fn spec_drain_plan(interrupts: usize, terminates: usize) -> Seq<ShutdownType> {
    Seq::new(interrupts as nat, |i: int| ShutdownType::Interrupt)
        + Seq::new(terminates as nat, |i: int| ShutdownType::Terminate)
}

/// Read a pending counter and reset it, handing the caller the whole count.
pub fn load_and_reset(counter: &mut usize) -> (count: usize)
    ensures
        count == *old(counter),
        *final(counter) == 0,
{
    let count = *counter;
    *counter = 0;
    count
}

/// Build the replay plan for the given pending counts: exactly
/// `interrupts` interrupt replays followed by exactly `terminates`
/// termination replays.
pub fn drain_plan(interrupts: usize, terminates: usize) -> (plan: Vec<ShutdownType>)
    ensures
        plan@ == spec_drain_plan(interrupts, terminates),
{
    let mut plan: Vec<ShutdownType> = Vec::new();
    let mut i: usize = 0;
    while i < interrupts
        invariant
            i <= interrupts,
            plan@ =~= Seq::new(i as nat, |j: int| ShutdownType::Interrupt),
        decreases interrupts - i,
    {
        plan.push(ShutdownType::Interrupt);
        i += 1;
    }
    let mut t: usize = 0;
    while t < terminates
        invariant
            t <= terminates,
            plan@ =~= Seq::new(interrupts as nat, |j: int| ShutdownType::Interrupt)
                + Seq::new(t as nat, |j: int| ShutdownType::Terminate),
        decreases terminates - t,
    {
        plan.push(ShutdownType::Terminate);
        t += 1;
    }
    proof {
        assert(plan@ =~= spec_drain_plan(interrupts, terminates));
    }
    plan
}

impl Bridge {
    /// A fresh bridge: nothing pending, not stopping.
    pub fn new() -> (bridge: Bridge)
        ensures
            bridge@ == (BridgeView { interrupts: 0, terminates: 0, stopping: false }),
    {
        Bridge { interrupts: 0, terminates: 0, stopping: false }
    }

    /// Record one notification of `kind` from the restricted context. This
    /// and a wake post are the only work done there: no allocation, no
    /// lock.
    pub fn record(&mut self, kind: ShutdownType)
        ensures
            final(self)@ == spec_record(old(self)@, kind),
    {
        match kind {
            ShutdownType::Interrupt => {
                if self.interrupts < usize::MAX {
                    self.interrupts = self.interrupts + 1;
                }
            },
            ShutdownType::Terminate => {
                if self.terminates < usize::MAX {
                    self.terminates = self.terminates + 1;
                }
            },
        }
    }

    /// The restricted-context recorder for a raw POSIX signal: count the
    /// notification the signal announces and report the signal consumed.
    /// Only the two shutdown signals are ever registered for, so any other
    /// number is ruled out by contract rather than handled.
    pub fn record_signal(&mut self, signum: i32) -> (consumed: bool)
        requires
            spec_kind_of_signal(signum) is Some,
        ensures
            consumed,
            final(self)@ == spec_record(old(self)@, spec_kind_of_signal(signum)->Some_0),
    {
        match kind_of_signal(signum) {
            Some(kind) => {
                self.record(kind);
                true
            },
            None => true,
        }
    }

    /// Whether the worker should keep waiting for wakes: its loop condition.
    pub fn should_run(&self) -> (run: bool)
        ensures
            run == !self@.stopping,
    {
        !self.stopping
    }

    /// Take every pending notification and hand back the replay plan:
    /// exactly the pending number of interrupts, each replayed
    /// individually, followed by exactly the pending number of
    /// terminations. The counters return to zero; the stop flag is
    /// untouched.
    pub fn drain(&mut self) -> (plan: Vec<ShutdownType>)
        ensures
            final(self)@ == (BridgeView {
                interrupts: 0,
                terminates: 0,
                stopping: old(self)@.stopping,
            }),
            plan@ == spec_drain_plan(old(self)@.interrupts, old(self)@.terminates),
    {
        let ints = load_and_reset(&mut self.interrupts);
        let terms = load_and_reset(&mut self.terminates);
        drain_plan(ints, terms)
    }

    /// Ask the worker to stop. The caller posts one extra wake afterwards,
    /// so the worker drains anything already recorded, observes the flag,
    /// and leaves its loop.
    pub fn request_stop(&mut self)
        ensures
            final(self)@ == (BridgeView { stopping: true, ..old(self)@ }),
    {
        self.stopping = true;
    }

    /// The worker's last act before posting the stop handshake: clear the
    /// flag so a later first registration can start a fresh worker.
    pub fn acknowledge_stop(&mut self)
        ensures
            final(self)@ == (BridgeView { stopping: false, ..old(self)@ }),
    {
        self.stopping = false;
    }
}

/// Burst coalescing loses no notification and keeps the stable order: a
/// burst with `k` interrupts and `m` terminations recorded before the
/// worker wakes — in any interleaving — drains to exactly `k` interrupt
/// replays followed by exactly `m` termination replays.
pub proof fn lemma_burst_replay(v: BridgeView, burst: Seq<ShutdownType>)
    requires
        v.interrupts + burst.filter(|kind: ShutdownType| kind is Interrupt).len() <= usize::MAX,
        v.terminates + burst.filter(|kind: ShutdownType| kind is Terminate).len() <= usize::MAX,
    ensures
        spec_record_all(v, burst).interrupts
            == v.interrupts + burst.filter(|kind: ShutdownType| kind is Interrupt).len(),
        spec_record_all(v, burst).terminates
            == v.terminates + burst.filter(|kind: ShutdownType| kind is Terminate).len(),
        spec_record_all(v, burst).stopping == v.stopping,
        spec_drain_plan(
            spec_record_all(v, burst).interrupts,
            spec_record_all(v, burst).terminates,
        ).len() == spec_record_all(v, burst).interrupts + spec_record_all(v, burst).terminates,
    decreases burst.len(),
{
    reveal(Seq::filter);
    if burst.len() > 0 {
        lemma_burst_replay(v, burst.drop_last());
    }
}

} // verus!
