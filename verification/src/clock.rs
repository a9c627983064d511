//! The deadline of a query.
use vstd::prelude::*;

use std::time::Instant;

verus! {

/// A moment of a clock that never goes back.
#[verifier::external_type_specification]
#[verifier::external_body]
pub struct ExInstant(Instant);

/// What time it is, by `Instant::now`. The answer depends on the time, so nothing is claimed of it.
#[verifier::external_body]
pub(crate) fn current_time() -> (now: Instant) {
    Instant::now()
}

/// How many nanoseconds `now` is after `earlier`, by `Instant::saturating_duration_since`; none,
/// if it is not after it. A moment is opaque, so there is nothing in terms of which the answer
/// could be stated.
#[verifier::external_body]
pub(crate) fn nanos_since(now: Instant, earlier: Instant) -> (nanos: u128) {
    now.saturating_duration_since(earlier).as_nanos()
}

/// A clock, with what it has been read as so far.
pub struct Clock {
    readings: Ghost<Seq<Instant>>,
}

impl Clock {
    /// What the clock has been read as, in this order.
    pub closed spec fn readings(self) -> Seq<Instant> {
        self.readings@
    }

    /// A clock that has not been read yet.
    pub fn new() -> (clock: Clock)
        ensures
            clock.readings() == Seq::<Instant>::empty(),
    {
        Clock { readings: Ghost(Seq::empty()) }
    }

    /// Reads the clock.
    fn read(&mut self) -> (now: Instant)
        ensures
            call_ensures(current_time, (), now),
            final(self).readings() == old(self).readings().push(now),
    {
        let now = current_time();
        proof {
            self.readings@ = self.readings@.push(now);
        }
        now
    }
}

/// Whether `overdue` is by how many nanoseconds the deadline had passed when the clock was read as
/// `reading`. The clock is read if there is a deadline, and not read if there is none.
pub closed spec fn clock_answer(
    deadline: Option<Instant>,
    reading: Option<Instant>,
    overdue: u128,
) -> bool {
    match (deadline, reading) {
        (Some(instant), Some(now)) => call_ensures(current_time, (), now) && call_ensures(
            nanos_since,
            (now, instant),
            overdue,
        ),
        (None, None) => true,
        _ => false,
    }
}

/// The clock is read if and only if there is a deadline.
pub proof fn lemma_clock_answer(deadline: Option<Instant>, reading: Option<Instant>, overdue: u128)
    requires
        clock_answer(deadline, reading, overdue),
    ensures
        reading is Some <==> deadline is Some,
{
}

/// Where there is a deadline, the clock is asked what time it is, and then by how much that time is
/// after the deadline.
proof fn overdue_is_the_time_since_the_deadline(deadline: Instant, now: Instant, overdue: u128)
    ensures
        clock_answer(Some(deadline), Some(now), overdue) <==> call_ensures(current_time, (), now)
            && call_ensures(nanos_since, (now, deadline), overdue),
{
}

/// The reading `reading` alone, if there is one.
pub open spec fn taken(reading: Option<Instant>) -> Seq<Instant> {
    match reading {
        Some(now) => seq![now],
        None => Seq::empty(),
    }
}

/// Reads the clock to find by how many nanoseconds the deadline has passed, if there is one.
pub(crate) fn ask_clock(clock: &mut Clock, deadline: Option<Instant>) -> (answer: (
    u128,
    Ghost<Option<Instant>>,
))
    ensures
        clock_answer(deadline, answer.1@, answer.0),
        final(clock).readings() == old(clock).readings() + taken(answer.1@),
{
    let ghost before = clock.readings();
    match deadline {
        Some(instant) => {
            let now = clock.read();
            assert(clock.readings() =~= before + taken(Some(now)));
            (nanos_since(now, instant), Ghost(Some(now)))
        },
        None => {
            assert(clock.readings() =~= before + taken(None));
            (0, Ghost(None))
        },
    }
}

/// Whether the deadline has passed, if there is one that had passed by `overdue` nanoseconds.
pub open spec fn timed_out(deadline: Option<Instant>, overdue: u128) -> bool {
    deadline is Some && overdue > 0
}

/// Whether the deadline has passed, by an answer of the clock.
pub fn is_timed_out(deadline: &Option<Instant>, overdue: u128) -> (late: bool)
    ensures
        late == timed_out(*deadline, overdue),
{
    match deadline {
        Some(_) => overdue > 0,
        None => false,
    }
}

} // verus!
