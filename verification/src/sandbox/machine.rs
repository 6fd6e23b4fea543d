//! The provider for the running machine: chosen by operating system first, by what the
//! machine can actually do second. Every answer carries a provider, with a reason when it
//! cannot confine.

use vstd::prelude::*;

use crate::sandbox::landlock::{
    ABI1_REASON, ABI2_REASON, Landlock, NO_KERNEL_REASON, no_runner_reason, runner_argv,
};
use crate::sandbox::policy::{Policy, views};
use crate::sandbox::seam::{Enforcement, SandboxError, SandboxProvider};
use crate::sandbox::seatbelt::{
    END_OF_OPTIONS, MISSING_RUNNER_REASON, PROFILE_FLAG, RUNNER, Seatbelt, profile_text,
};
use crate::sandbox::unconfined::{Unconfined, WINDOWS_REASON};

verus! {

/// What was probed on the running machine, per operating system.
pub enum Host {
    /// macOS, and whether `sandbox-exec` is there and ran a trivial profile.
    MacOs { sandbox_exec_usable: bool },
    /// Linux: the helper binary next to the executable, when found, and the Landlock ABI.
    Linux { runner: Option<String>, abi: Option<i32> },
    /// Anything else, today Windows.
    Other,
}

/// The seam as mounted: exactly one provider per machine.
pub enum Sandbox {
    Landlock(Landlock),
    Seatbelt(Seatbelt),
    Unconfined(Unconfined),
}

/// What the choice is for each machine: `sandbox-exec` on macOS when it works, Landlock on
/// Linux whatever the probe found (it reports its own gaps), and otherwise a provider that says
/// why nothing is confined.
pub open spec fn chosen_for(host: Host, s: Sandbox) -> bool {
    match host {
        Host::MacOs { sandbox_exec_usable: true } => s matches Sandbox::Seatbelt(b) && b.runner_text()
            == RUNNER@,
        Host::MacOs { sandbox_exec_usable: false } => s matches Sandbox::Unconfined(u)
            && u.reason_text() == MISSING_RUNNER_REASON@,
        Host::Linux { runner, abi } => s matches Sandbox::Landlock(l) && l.abi_level() == abi
            && l.has_runner() == runner is Some && (match runner {
            Some(path) => l.runner_text() == path@,
            None => l.runner_text() == Seq::<char>::empty(),
        }),
        Host::Other => s matches Sandbox::Unconfined(u) && u.reason_text() == WINDOWS_REASON@,
    }
}

/// Pick the provider for the running machine: select by OS first, probe capabilities second.
pub fn for_this_machine(host: Host) -> (s: Sandbox)
    ensures
        chosen_for(host, s),
{
    match host {
        Host::MacOs { sandbox_exec_usable } => {
            if sandbox_exec_usable {
                Sandbox::Seatbelt(Seatbelt::with_runner(String::from_str(RUNNER)))
            } else {
                Sandbox::Unconfined(Unconfined::new(String::from_str(MISSING_RUNNER_REASON)))
            }
        },
        Host::Linux { runner, abi } => Sandbox::Landlock(Landlock::detect(runner, abi)),
        Host::Other => Sandbox::Unconfined(Unconfined::new(String::from_str(WINDOWS_REASON))),
    }
}

impl SandboxProvider for Sandbox {
    /// The mounted provider's own rewrite.
    open spec fn wrapped(&self, argv: Seq<Seq<char>>, policy: Policy, roots: Seq<Seq<char>>) -> Result<Seq<Seq<char>>, Seq<char>> {
        match self {
            Sandbox::Landlock(l) => l.wrapped(argv, policy, roots),
            Sandbox::Seatbelt(b) => b.wrapped(argv, policy, roots),
            Sandbox::Unconfined(u) => u.wrapped(argv, policy, roots),
        }
    }

    /// The mounted provider's own rewrite.
    fn wrap(&self, argv: Vec<String>, policy: &Policy, roots: &Vec<String>) -> (r: Result<
        Vec<String>,
        SandboxError,
    >)
        ensures
            argv@.len() > 0 && policy.mode.confines() ==> match self {
                Sandbox::Unconfined(u) => r matches Err(SandboxError::Unavailable(why)) && why@
                    == u.reason_text(),
                Sandbox::Seatbelt(b) => r matches Ok(v) && views(v@) == seq![
                    b.runner_text(),
                    PROFILE_FLAG@,
                    profile_text(policy.deny_network, views(roots@)),
                    END_OF_OPTIONS@,
                ] + views(argv@),
                Sandbox::Landlock(l) => if l.abi_level() is None {
                    r matches Err(SandboxError::Unavailable(why)) && why@ == NO_KERNEL_REASON@
                } else if !l.has_runner() {
                    r matches Err(SandboxError::Unavailable(why)) && why@ == no_runner_reason()
                } else {
                    r matches Ok(v) && views(v@) == runner_argv(
                        l.runner_text(),
                        policy.deny_network,
                        views(roots@),
                        views(argv@),
                    )
                },
            },
    {
        match self {
            Sandbox::Landlock(l) => l.wrap(argv, policy, roots),
            Sandbox::Seatbelt(b) => b.wrap(argv, policy, roots),
            Sandbox::Unconfined(u) => u.wrap(argv, policy, roots),
        }
    }

    /// The mounted provider's own report.
    fn enforcement(&self) -> (e: Enforcement)
        ensures
            self matches Sandbox::Unconfined(u) ==> (e matches Enforcement::Absent(why) && why@
                == u.reason_text()),
            self is Seatbelt ==> e is Full,
            self matches Sandbox::Landlock(l) ==> (if l.abi_level() is None {
                e matches Enforcement::Absent(why) && why@ == NO_KERNEL_REASON@
            } else if !l.has_runner() {
                e matches Enforcement::Absent(why) && why@ == no_runner_reason()
            } else if l.abi_level() == Some(1i32) {
                e matches Enforcement::Partial(why) && why@ == ABI1_REASON@
            } else if l.abi_level() == Some(2i32) {
                e matches Enforcement::Partial(why) && why@ == ABI2_REASON@
            } else {
                e is Full
            }),
    {
        match self {
            Sandbox::Landlock(l) => l.enforcement(),
            Sandbox::Seatbelt(b) => b.enforcement(),
            Sandbox::Unconfined(u) => u.enforcement(),
        }
    }

    /// `sandbox-exec` always can; Landlock from ABI 4; an unconfined machine never.
    fn network_confinable(&self) -> (r: bool)
        ensures
            r == match self {
                Sandbox::Landlock(l) => l.abi_level() matches Some(abi) && abi >= 4,
                Sandbox::Seatbelt(_) => true,
                Sandbox::Unconfined(_) => false,
            },
    {
        match self {
            Sandbox::Landlock(l) => l.network_confinable(),
            Sandbox::Seatbelt(b) => b.network_confinable(),
            Sandbox::Unconfined(u) => u.network_confinable(),
        }
    }
}

} // verus!
