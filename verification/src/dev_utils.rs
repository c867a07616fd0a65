//! A timer for profiling blocks of code.

use vstd::prelude::*;
use crate::text::{decimal, owned, push_str, u128_to_string};

verus! {

#[verifier::external_type_specification]
#[verifier::external_body]
pub struct ExInstant(std::time::Instant);

/// The current instant, by `std::time::Instant::now`.
///
/// Trusted: nothing is stated of the instant, which depends on the clock.
#[verifier::external_body]
fn instant_now() -> (r: std::time::Instant) {
    std::time::Instant::now()
}

/// The microseconds elapsed since an instant, by `Instant::elapsed`.
///
/// Trusted: nothing is stated of the duration, which depends on the clock.
#[verifier::external_body]
fn micros_since(start: &std::time::Instant) -> (r: u128) {
    start.elapsed().as_micros()
}

/// A timer started at its creation, with the name of the timed block.
#[derive(Debug)]
pub struct BlockTimer {
    name: String,
    start: std::time::Instant,
}

impl BlockTimer {
    /// The name of the timed block.
    pub closed spec fn label(&self) -> Seq<char> {
        self.name@
    }

    /// Starts a timer for a named block.
    pub fn new(name: &str) -> (r: BlockTimer)
        ensures
            r.label() == name@,
    {
        BlockTimer { name: owned(name), start: instant_now() }
    }

    /// The profiling line of the block: its name and the microseconds elapsed
    /// since the timer started.
    pub fn report(&self) -> (r: String)
        ensures
            exists|us: nat| r@ == "PROFILE ["@ + self.label() + "]: "@ + decimal(us) + " µs"@,
    {
        let us = micros_since(&self.start);
        let mut line = owned("PROFILE [");
        push_str(&mut line, self.name.as_str());
        push_str(&mut line, "]: ");
        let digits = u128_to_string(us);
        push_str(&mut line, digits.as_str());
        push_str(&mut line, " µs");
        assert(line@ == "PROFILE ["@ + self.label() + "]: "@ + decimal(us as nat) + " µs"@);
        line
    }
}

} // verus!
