//! The sandbox as mounted: a provider only. The policy belongs to the session, so one machine
//! can run a read-only agent beside an editing one.

use vstd::prelude::*;

use crate::sandbox::machine::{Host, Sandbox, chosen_for, for_this_machine};
use crate::sandbox::seam::SandboxProvider;

verus! {

/// The name the sandbox is mounted under.
pub const PLUGIN_NAME: &'static str = "sandbox";

pub struct SandboxPlugin<P> {
    provider: P,
}

impl SandboxPlugin<Sandbox> {
    /// The provider for the machine that was probed.
    pub fn new(host: Host) -> (p: SandboxPlugin<Sandbox>)
        ensures
            chosen_for(host, p.provider_view()),
    {
        SandboxPlugin { provider: for_this_machine(host) }
    }
}

impl<P: SandboxProvider> SandboxPlugin<P> {
    pub closed spec fn provider_view(&self) -> P {
        self.provider
    }

    /// A caller-supplied provider, for tests and for runs sandboxed on a remote machine.
    pub fn with_provider(provider: P) -> (p: SandboxPlugin<P>)
        ensures
            p.provider_view() == provider,
    {
        SandboxPlugin { provider }
    }

    pub fn provider(&self) -> (r: &P)
        ensures
            *r == self.provider_view(),
    {
        &self.provider
    }

    pub fn name(&self) -> (r: &'static str)
        ensures
            r@ == PLUGIN_NAME@,
    {
        PLUGIN_NAME
    }
}

} // verus!
