//! The adaptive in-flight limiter of one worker.
//!
//! It starts at the declared ceiling, halves on a transient overload signal, and
//! grows by one after a streak of successes: it converges on the engine's real
//! throughput without hand-tuning, and never oversubscribes past the ceiling.

use vstd::prelude::*;

verus! {

/// Successes in a row after which the limit grows by one.
pub const AIMD_INCREASE_AFTER: usize = 8;

/// The adaptive limit and its slots.
///
/// A decrease that cannot at once reclaim slots in flight records a debt, which is
/// paid as those slots return.
#[derive(Debug, Clone, Copy, PartialEq, Eq, Structural)]
pub struct AimdLimit {
    ceiling: usize,
    effective: usize,
    debt: usize,
    streak: usize,
    available: usize,
    in_flight: usize,
}

/// The lesser limit after an overload signal.
pub open spec fn halved(effective: nat) -> nat {
    if effective / 2 < 1 {
        1
    } else {
        effective / 2
    }
}

/// `after` is `before` with a permit taken, if one was free.
pub open spec fn takes(before: AimdLimit, after: AimdLimit, taken: bool) -> bool {
    &&& taken == (before.spec_in_flight() < before.spec_effective())
    &&& after.spec_in_flight() == before.spec_in_flight() + if taken {
        1nat
    } else {
        0nat
    }
    &&& after.spec_effective() == before.spec_effective()
    &&& after.spec_debt() == before.spec_debt()
    &&& after.spec_streak() == before.spec_streak()
    &&& after.spec_ceiling() == before.spec_ceiling()
}

/// `after` is `before` with a permit back, which pays off debt before it is free again.
pub open spec fn gives_back(before: AimdLimit, after: AimdLimit) -> bool {
    &&& after.spec_in_flight() == before.spec_in_flight() - 1
    &&& after.spec_debt() == if before.spec_debt() > 0 {
        (before.spec_debt() - 1) as nat
    } else {
        0
    }
    &&& after.spec_effective() == before.spec_effective()
    &&& after.spec_streak() == before.spec_streak()
    &&& after.spec_ceiling() == before.spec_ceiling()
}

/// A success adds a permit below the ceiling once the streak is long enough and no debt
/// is left.
pub open spec fn grows(before: AimdLimit) -> bool {
    &&& before.spec_streak() + 1 >= AIMD_INCREASE_AFTER
    &&& before.spec_debt() == 0
    &&& before.spec_effective() < before.spec_ceiling()
}

/// `after` is `before` having learnt of a success or a failure: a success lengthens the
/// streak or adds a permit, a failure halves the limit and leaves what is in flight
/// beyond it as debt.
pub open spec fn learns(before: AimdLimit, success: bool, after: AimdLimit) -> bool {
    &&& after.spec_in_flight() == before.spec_in_flight()
    &&& after.spec_ceiling() == before.spec_ceiling()
    &&& if success {
        &&& after.spec_effective() == before.spec_effective() + if grows(before) {
            1nat
        } else {
            0nat
        }
        &&& after.spec_debt() == before.spec_debt()
        &&& after.spec_streak() == if grows(before) {
            0nat
        } else if before.spec_streak() < usize::MAX {
            before.spec_streak() + 1
        } else {
            usize::MAX as nat
        }
    } else {
        &&& after.spec_streak() == 0
        &&& after.spec_effective() == halved(before.spec_effective())
        &&& after.spec_debt() == if before.spec_in_flight() > after.spec_effective() {
            (before.spec_in_flight() - after.spec_effective()) as nat
        } else {
            0
        }
    }
}

impl AimdLimit {
    /// The most slots that are ever in flight.
    pub closed spec fn spec_ceiling(self) -> nat {
        self.ceiling as nat
    }

    /// The current limit.
    pub closed spec fn spec_effective(self) -> nat {
        self.effective as nat
    }

    /// Slots in flight that are no longer within the limit.
    pub closed spec fn spec_debt(self) -> nat {
        self.debt as nat
    }

    /// Successes in a row since the limit last changed.
    pub closed spec fn spec_streak(self) -> nat {
        self.streak as nat
    }

    /// Free slots.
    pub closed spec fn spec_available(self) -> nat {
        self.available as nat
    }

    /// Slots in use.
    pub closed spec fn spec_in_flight(self) -> nat {
        self.in_flight as nat
    }

    /// The limit stays between one and the ceiling, every slot is accounted for, and
    /// while a debt is open no slot is free.
    pub open spec fn wf(self) -> bool {
        &&& 1 <= self.spec_effective()
        &&& self.spec_effective() + self.spec_debt() <= self.spec_ceiling() <= usize::MAX
        &&& self.spec_available() + self.spec_in_flight() == self.spec_effective()
            + self.spec_debt()
        &&& self.spec_debt() > 0 ==> self.spec_available() == 0
    }

    /// A limiter at its ceiling, which is at least one, with every slot free.
    pub fn new(ceiling: usize) -> (l: Self)
        ensures
            l.wf(),
            l.spec_ceiling() == if ceiling < 1 { 1 } else { ceiling as nat },
            l.spec_effective() == l.spec_ceiling(),
            l.spec_debt() == 0,
            l.spec_streak() == 0,
            l.spec_in_flight() == 0,
    {
        let top: usize = if ceiling < 1 {
            1
        } else {
            ceiling
        };
        AimdLimit {
            ceiling: top,
            effective: top,
            debt: 0,
            streak: 0,
            available: top,
            in_flight: 0,
        }
    }

    /// Takes a slot if the limit allows one more in flight.
    pub fn try_acquire(&mut self) -> (taken: bool)
        requires
            old(self).wf(),
        ensures
            final(self).wf(),
            takes(*old(self), *final(self), taken),
    {
        if self.available > 0 {
            self.available = self.available - 1;
            self.in_flight = self.in_flight + 1;
            true
        } else {
            false
        }
    }

    /// Gives a slot back: it pays an open debt, or becomes free.
    pub fn release(&mut self)
        requires
            old(self).wf(),
            old(self).spec_in_flight() > 0,
        ensures
            final(self).wf(),
            gives_back(*old(self), *final(self)),
    {
        self.in_flight = self.in_flight - 1;
        if self.debt > 0 {
            self.debt = self.debt - 1;
        } else {
            self.available = self.available + 1;
        }
    }

    /// Records one request's congestion signal: `true` for a clean 2xx, `false` for a
    /// transient overload. A terminal 4xx or a failed content check is no congestion
    /// and is not recorded.
    pub fn record(&mut self, success: bool)
        requires
            old(self).wf(),
        ensures
            final(self).wf(),
            learns(*old(self), success, *final(self)),
    {
        if success {
            if self.streak < usize::MAX {
                self.streak = self.streak + 1;
            }
            if self.streak >= AIMD_INCREASE_AFTER && self.debt == 0 && self.effective
                < self.ceiling {
                self.effective = self.effective + 1;
                self.streak = 0;
                self.available = self.available + 1;
            }
        } else {
            self.streak = 0;
            let target: usize = if self.effective / 2 < 1 {
                1
            } else {
                self.effective / 2
            };
            self.debt = self.debt + (self.effective - target);
            self.effective = target;
            let paid: usize = if self.debt < self.available {
                self.debt
            } else {
                self.available
            };
            self.debt = self.debt - paid;
            self.available = self.available - paid;
        }
    }

    /// The current limit.
    pub fn effective(&self) -> (r: usize)
        ensures
            r == self.spec_effective(),
    {
        self.effective
    }

    /// Slots in flight that are no longer within the limit.
    pub fn debt(&self) -> (r: usize)
        ensures
            r == self.spec_debt(),
    {
        self.debt
    }

    /// Free slots.
    pub fn available(&self) -> (r: usize)
        ensures
            r == self.spec_available(),
    {
        self.available
    }

    /// Slots in use.
    pub fn in_flight(&self) -> (r: usize)
        ensures
            r == self.spec_in_flight(),
    {
        self.in_flight
    }
}

/// Free slots and slots in flight add up to the limit and the debt.
pub proof fn law_slots_are_conserved(l: AimdLimit)
    requires
        l.wf(),
    ensures
        l.spec_available() + l.spec_in_flight() == l.spec_effective() + l.spec_debt(),
{
}

/// The limit stays between one and the ceiling, and no more than the ceiling is ever
/// in flight.
pub proof fn law_limit_is_bounded(l: AimdLimit)
    requires
        l.wf(),
    ensures
        1 <= l.spec_effective() <= l.spec_ceiling(),
        l.spec_in_flight() <= l.spec_ceiling(),
{
}

/// A debt is open exactly while more slots are in flight than the limit allows, and
/// it says how many.
pub proof fn law_debt_is_the_excess(l: AimdLimit)
    requires
        l.wf(),
    ensures
        l.spec_debt() == if l.spec_in_flight() > l.spec_effective() {
            (l.spec_in_flight() - l.spec_effective()) as nat
        } else {
            0
        },
{
}

/// An overload signal lowers every limit above one, and none below it.
pub proof fn law_overload_lowers_the_limit(effective: nat)
    requires
        effective >= 1,
    ensures
        halved(effective) >= 1,
        effective > 1 ==> halved(effective) < effective,
        effective == 1 ==> halved(effective) == 1,
{
}

/// A limiter starts with its whole ceiling free, and never with less than one slot.
pub proof fn law_limits_start_at_the_ceiling(ceiling: usize, l: AimdLimit)
    requires
        call_ensures(AimdLimit::new, (ceiling,), l),
    ensures
        ceiling >= 1 ==> l.spec_ceiling() == ceiling,
        ceiling == 0 ==> l.spec_ceiling() == 1,
        l.spec_effective() == l.spec_ceiling(),
        l.spec_in_flight() == 0,
{
}

/// A slot is handed out just while fewer are in flight than the limit, and giving it back
/// undoes that.
pub proof fn law_slots_come_and_go(
    before: AimdLimit,
    held: AimdLimit,
    after: AimdLimit,
    taken: bool,
)
    requires
        before.wf(),
        exists|l: &mut AimdLimit|
            *l == before && *final(l) == held && #[trigger] call_ensures(
                AimdLimit::try_acquire,
                (l,),
                taken,
            ),
        taken ==> exists|l: &mut AimdLimit|
            *l == held && *final(l) == after && #[trigger] call_ensures(
                AimdLimit::release,
                (l,),
                (),
            ),
    ensures
        taken <==> before.spec_in_flight() < before.spec_effective(),
        taken ==> held.spec_in_flight() == before.spec_in_flight() + 1,
        !taken ==> held.spec_in_flight() == before.spec_in_flight(),
        held.spec_effective() == before.spec_effective(),
        taken ==> after.spec_in_flight() == before.spec_in_flight() && after.spec_effective()
            == before.spec_effective(),
{
}

/// An overload halves the limit, down to one, and starts the streak anew; a success leaves
/// the limit, unless it is the eighth in a row below the ceiling without debt, which raises
/// it by one.
pub proof fn law_overload_halves_and_success_adds_one(
    before: AimdLimit,
    over: AimdLimit,
    well: AimdLimit,
)
    requires
        before.wf(),
        exists|l: &mut AimdLimit|
            *l == before && *final(l) == over && #[trigger] call_ensures(
                AimdLimit::record,
                (l, false),
                (),
            ),
        exists|l: &mut AimdLimit|
            *l == before && *final(l) == well && #[trigger] call_ensures(
                AimdLimit::record,
                (l, true),
                (),
            ),
    ensures
        before.spec_effective() >= 2 ==> over.spec_effective() == before.spec_effective() / 2,
        before.spec_effective() == 1 ==> over.spec_effective() == 1,
        over.spec_streak() == 0,
        over.spec_in_flight() == before.spec_in_flight(),
        well.spec_in_flight() == before.spec_in_flight(),
        before.spec_streak() >= 7 && before.spec_debt() == 0 && before.spec_effective()
            < before.spec_ceiling() ==> well.spec_effective() == before.spec_effective() + 1
            && well.spec_streak() == 0,
        before.spec_streak() < 7 || before.spec_debt() > 0 || before.spec_effective()
            == before.spec_ceiling() ==> well.spec_effective() == before.spec_effective(),
        before.spec_streak() < 7 ==> well.spec_streak() == before.spec_streak() + 1,
{
}

} // verus!
