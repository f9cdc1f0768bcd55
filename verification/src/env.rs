//! The injected host capability: caller identity and clock.
//!
//! The core never reads ambient state; the host supplies an `Environment`
//! on each call, so behaviour is deterministic under test.  Caller identity
//! is an opaque numeric id chosen by the host.

use vstd::prelude::*;

verus! {

pub type TimestampMillis = u64;

/// Opaque caller identity as the host hands it to the core.
pub type CallerId = u64;

/// The capability interface the host implements.
pub trait Environment {
    spec fn spec_now(&self) -> TimestampMillis;

    spec fn spec_caller(&self) -> CallerId;

    fn now(&self) -> (t: TimestampMillis)
        ensures
            t == self.spec_now(),
    ;

    fn caller(&self) -> (c: CallerId)
        ensures
            c == self.spec_caller(),
    ;
}

/// A deterministic environment with a fixed clock and caller.
pub struct TestEnvironment {
    pub now: TimestampMillis,
    pub caller: CallerId,
}

impl Environment for TestEnvironment {
    open spec fn spec_now(&self) -> TimestampMillis {
        self.now
    }

    open spec fn spec_caller(&self) -> CallerId {
        self.caller
    }

    fn now(&self) -> TimestampMillis {
        self.now
    }

    fn caller(&self) -> CallerId {
        self.caller
    }
}

} // verus!
