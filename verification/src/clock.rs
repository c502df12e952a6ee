//! The system clock, with the record of every value read from it. The record
//! is private, so only `now_seconds`, which makes the read it records,
//! changes it.

use vstd::prelude::*;

verus! {

/// The values read from the clock, in order.
pub struct Clock {
    reads: Ghost<Seq<i64>>,
}

impl Clock {
    /// The seconds since the epoch that each read gave, in order.
    pub closed spec fn reads(&self) -> Seq<i64> {
        self.reads@
    }

    /// A clock not read yet.
    pub fn new() -> (c: Clock)
        ensures
            c.reads() == Seq::<i64>::empty(),
    {
        Clock { reads: Ghost(Seq::empty()) }
    }
}

/// Calls `time::get_time` and returns its seconds since the epoch, and
/// records that value. It reads the wall clock, so nothing is stated of the
/// value itself.
#[verifier::external_body]
pub fn now_seconds(clock: &mut Clock) -> (t: i64)
    ensures
        final(clock).reads() == old(clock).reads().push(t),
{
    let t = time::get_time().sec;
    clock.reads = Ghost(clock.reads@.push(t));
    t
}

} // verus!
