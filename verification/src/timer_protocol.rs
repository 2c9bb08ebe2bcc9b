//! Message schema for the timer service that lives beside this driver.
//!
//! The timer shares no logic, state, or protocol with the block
//! driver; its request and response shapes are kept here as a wholly
//! separate, trivial module.

use vstd::prelude::*;

verus! {

/// Microseconds since the timer's epoch, or a relative duration.
pub type Microseconds = u64;

/// A request to the timer service.
#[derive(Debug)]
pub enum Request {
    /// Ask for the current time.
    Now,
    /// Arm a timeout this many microseconds from now.
    SetTimeout { relative_micros: Microseconds },
    /// Disarm any armed timeout.
    ClearTimeout,
}

/// The timer's answer to `Request::Now`.
#[derive(Debug)]
pub struct NowResponse {
    /// The current time in microseconds.
    pub micros: Microseconds,
}

} // verus!
