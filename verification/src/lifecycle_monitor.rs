//! Wake-gap policy of the desktop network monitor: a tick that comes much
//! later than expected means the machine slept, and the network is brought
//! down and up again instead of merely reconciled.  Instants are counted in
//! nanoseconds on a monotonic clock.
use vstd::prelude::*;

verus! {

#[derive(Debug, Clone, Copy, PartialEq, Eq, Structural)]
pub enum WakeAction {
    Reconcile,
    SuspendThenResume,
}

pub struct WakeGapDetector {
    last: u128,
    gap: u128,
}

/// What a tick at `now` calls for after a tick at `last`: the elapsed time
/// (zero when `now` is earlier) beyond `gap` means a sleep.
pub open spec fn wake_action(last: u128, gap: u128, now: u128) -> WakeAction {
    let elapsed = if now >= last { now - last } else { 0 };
    if elapsed > gap {
        WakeAction::SuspendThenResume
    } else {
        WakeAction::Reconcile
    }
}

impl WakeGapDetector {
    /// The instant of the last tick.
    pub closed spec fn last_tick(&self) -> u128 {
        self.last
    }

    /// The elapsed time beyond which a tick means a sleep.
    pub closed spec fn allowed_gap(&self) -> u128 {
        self.gap
    }

    /// A detector started at `now` for ticks every `interval`; a sleep is a
    /// gap of more than twice the interval (saturating).
    pub fn new(now: u128, interval: u128) -> (detector: Self)
        ensures
            detector.last_tick() == now,
            detector.allowed_gap() == if 2 * interval > u128::MAX {
                u128::MAX
            } else {
                (2 * interval) as u128
            },
    {
        let gap = if interval > u128::MAX / 2 {
            u128::MAX
        } else {
            interval * 2
        };
        WakeGapDetector { last: now, gap }
    }

    /// Records a tick at `now` and says what it calls for.
    pub fn tick(&mut self, now: u128) -> (action: WakeAction)
        ensures
            action == wake_action(old(self).last_tick(), old(self).allowed_gap(), now),
            final(self).last_tick() == now,
            final(self).allowed_gap() == old(self).allowed_gap(),
    {
        let elapsed = if now >= self.last {
            now - self.last
        } else {
            0
        };
        let action = if elapsed > self.gap {
            WakeAction::SuspendThenResume
        } else {
            WakeAction::Reconcile
        };
        self.last = now;
        action
    }
}

/// Ticking again at the instant of the last tick never reports a sleep.
pub proof fn lemma_repeated_tick_reconciles(last: u128, gap: u128)
    ensures
        wake_action(last, gap, last) == WakeAction::Reconcile,
{
}

} // verus!
