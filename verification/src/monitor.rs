//! The monitors of the engine: the health monitor compares pools with the
//! chain, the state monitor reads each block's storage changes. Both hold
//! the provider they read through; the reading is the caller's I/O.

use vstd::prelude::*;

verus! {

/// Checks the pools' state against the chain's.
pub struct HealthMonitor<P> {
    provider: P,
}

impl<P> HealthMonitor<P> {
    pub closed spec fn provider_spec(&self) -> P {
        self.provider
    }

    pub fn new(provider: P) -> (m: HealthMonitor<P>)
        ensures
            m.provider_spec() == provider,
    {
        HealthMonitor { provider }
    }

    pub fn provider(&self) -> (p: &P)
        ensures
            *p == self.provider_spec(),
    {
        &self.provider
    }
}

/// Follows new blocks and their storage changes.
pub struct StateMonitor<P> {
    provider: P,
}

impl<P> StateMonitor<P> {
    pub closed spec fn provider_spec(&self) -> P {
        self.provider
    }

    pub fn new(provider: P) -> (m: StateMonitor<P>)
        ensures
            m.provider_spec() == provider,
    {
        StateMonitor { provider }
    }

    pub fn provider(&self) -> (p: &P)
        ensures
            *p == self.provider_spec(),
    {
        &self.provider
    }
}

} // verus!
