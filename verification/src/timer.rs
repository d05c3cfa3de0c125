//! Repeating timers. A timer holds a state and the deltas that each of its
//! calls applies to the state; a scheduler calls it when it is due, and again
//! an interval later, for as long as repetitions are left.

use vstd::prelude::*;
use crate::state::{State, StateDelta};
use crate::ticks::current_ticks;

verus! {

/// A timer over a state of type `T`. Times are in milliseconds.
pub struct Timer<T: State> {
    /// How many calls are left.
    pub repetitions: isize,
    /// The time from one call to the next.
    pub interval: i64,
    /// When the next call is due.
    pub next: i64,
    /// What the calls act on.
    pub state: T,
    /// What each call applies to the state.
    pub state_deltas: Vec<StateDelta>,
}

/// What a scheduler needs of a timer.
pub trait Callback {
    /// Whether the timer can be called: its numbers have room for one call.
    spec fn can_call(&self) -> bool;

    /// How many calls are left.
    spec fn repetitions_left(&self) -> isize;

    /// When the next call is due.
    spec fn next_due(&self) -> i64;

    /// The time from one call to the next.
    spec fn period(&self) -> i64;

    /// Makes one call: one repetition less is left, and the next is due an
    /// interval later.
    fn callback(&mut self)
        requires
            old(self).can_call(),
        ensures
            final(self).repetitions_left() == old(self).repetitions_left() - 1,
            final(self).next_due() == old(self).next_due() + old(self).period(),
            final(self).period() == old(self).period(),
    ;

    /// Tells whether the timer can be called.
    fn ready(&self) -> (ready: bool)
        ensures
            ready == self.can_call(),
    ;

    /// How many calls are left.
    fn repetitions(&self) -> (repetitions: isize)
        ensures
            repetitions == self.repetitions_left(),
    ;

    /// When the next call is due.
    fn next(&self) -> (next: i64)
        ensures
            next == self.next_due(),
    ;
}

impl<T> Callback for Timer<T> where T: State {
    open spec fn can_call(&self) -> bool {
        &&& self.repetitions > isize::MIN
        &&& i64::MIN <= self.next + self.interval <= i64::MAX
        &&& self.state.can_update(self.state_deltas@)
    }

    open spec fn repetitions_left(&self) -> isize {
        self.repetitions
    }

    open spec fn next_due(&self) -> i64 {
        self.next
    }

    open spec fn period(&self) -> i64 {
        self.interval
    }

    /// A call of a timer applies its deltas to its state, and keeps them.
    fn callback(&mut self)
        ensures
            old(self).state.updated(old(self).state_deltas@, &final(self).state),
            final(self).state_deltas == old(self).state_deltas,
    {
        self.repetitions -= 1;
        self.next = self.next + self.interval;
        self.state.update_state(&self.state_deltas);
    }

    fn ready(&self) -> bool {
        self.repetitions > isize::MIN && self.next.checked_add(self.interval).is_some()
            && self.state.accepts(&self.state_deltas)
    }

    fn repetitions(&self) -> isize {
        return self.repetitions;
    }

    fn next(&self) -> i64 {
        return self.next;
    }
}

impl<T: State> Timer<T> {
    /// A timer whose first call is due one interval after `now`; `None`
    /// where that time is past the end of the clock.
    pub fn new(
        repetitions: isize,
        interval: i64,
        now: i64,
        state: T,
        state_deltas: Vec<StateDelta>,
    ) -> (timer: Option<Self>)
        ensures
            timer is Some <==> i64::MIN <= now + interval <= i64::MAX,
            timer matches Some(timer) ==> {
                &&& timer.repetitions == repetitions
                &&& timer.interval == interval
                &&& timer.next == now + interval
                &&& timer.state == state
                &&& timer.state_deltas == state_deltas
            },
    {
        match now.checked_add(interval) {
            Some(next) => Some(Timer { repetitions, interval, next, state, state_deltas }),
            None => None,
        }
    }

    /// A timer whose first call is due one interval from now by the clock;
    /// `None` where that time is past the end of the clock. Whether it is
    /// depends on the clock, but for an interval of zero: a timer that is
    /// due at once can be had at any time.
    pub fn starting_now(
        repetitions: isize,
        interval: i64,
        state: T,
        state_deltas: Vec<StateDelta>,
    ) -> (timer: Option<Self>)
        ensures
            interval == 0 ==> timer is Some,
            timer matches Some(timer) ==> {
                &&& timer.repetitions == repetitions
                &&& timer.interval == interval
                &&& i64::MIN <= timer.next - interval <= i64::MAX
                &&& timer.state == state
                &&& timer.state_deltas == state_deltas
            },
    {
        Timer::new(repetitions, interval, current_ticks(), state, state_deltas)
    }
}

/// Whether a timer is due at `now`: its time has passed.
pub fn is_due<C: Callback + ?Sized>(timer: &C, now: i64) -> (due: bool)
    ensures
        due == (timer.next_due() < now),
{
    timer.next() < now
}

/// Whether a timer is to be scheduled again after a call: repetitions are
/// left.
pub fn repeats<C: Callback + ?Sized>(timer: &C) -> (again: bool)
    ensures
        again == (timer.repetitions_left() > 0),
{
    timer.repetitions() > 0
}

} // verus!
