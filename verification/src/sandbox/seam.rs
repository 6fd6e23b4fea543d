//! The process-confinement seam. [`SandboxProvider::wrap`] rewrites argv, since every OS
//! confines by having a process bind itself then `exec`. [`SandboxProvider::enforcement`]
//! reports whether confinement is real on this machine, which the approval dialog reads.

use vstd::prelude::*;

use crate::sandbox::policy::{Policy, views};
use crate::session::error::format_text;

verus! {

/// How real the confinement is right now; three states, since `Partial` must not be rounded either way.
#[derive(Debug, Clone, PartialEq, Eq)]
pub enum Enforcement {
    /// The kernel enforces exactly what was declared; a write outside the area fails.
    Full,
    /// A boundary that leaks in known places; a caller needing an absolute one must refuse.
    Partial(String),
    /// Nothing at all. The command will run with the user's full privileges.
    Absent(String),
}

pub const FULL_LABEL: &'static str = "full";

pub const PARTIAL_LABEL: &'static str = "partial";

pub const NONE_LABEL: &'static str = "none";

impl Enforcement {
    /// The reason carried by a state that is not airtight.
    pub open spec fn reason_view(&self) -> Option<Seq<char>> {
        match self {
            Enforcement::Full => Option::None,
            Enforcement::Partial(reason) => Some(reason@),
            Enforcement::Absent(reason) => Some(reason@),
        }
    }

    /// Is there any boundary at all, including a leaky one.
    pub fn confines(&self) -> (r: bool)
        ensures
            r == !(self is Absent),
    {
        !matches!(self, Enforcement::Absent(_))
    }

    /// Is the boundary airtight. For places that need an absolute boundary.
    pub fn is_full(&self) -> (r: bool)
        ensures
            r == (self is Full),
    {
        matches!(self, Enforcement::Full)
    }

    /// Why it is not airtight. `None` when it is.
    pub fn reason(&self) -> (r: Option<&str>)
        ensures
            match r {
                Some(s) => self.reason_view() == Some(s@),
                Option::None => self.reason_view() is None,
            },
    {
        match self {
            Enforcement::Full => Option::None,
            Enforcement::Partial(reason) => Some(reason.as_str()),
            Enforcement::Absent(reason) => Some(reason.as_str()),
        }
    }

    /// One word, for logs and for the UI.
    pub fn label(&self) -> (r: &'static str)
        ensures
            r@ == match self {
                Enforcement::Full => FULL_LABEL@,
                Enforcement::Partial(_) => PARTIAL_LABEL@,
                Enforcement::Absent(_) => NONE_LABEL@,
            },
    {
        match self {
            Enforcement::Full => FULL_LABEL,
            Enforcement::Partial(_) => PARTIAL_LABEL,
            Enforcement::Absent(_) => NONE_LABEL,
        }
    }
}

#[derive(Debug)]
pub enum SandboxError {
    /// Confinement is impossible, so nothing runs; never fall through to the unconfined argv.
    Unavailable(String),
    /// Empty argv: wrapping it would produce a runnable command nobody intended to run.
    EmptyArgv,
    /// A root in the policy could not be resolved.
    Unresolvable(String, String),
}

pub const UNAVAILABLE_HEAD: &'static str = "không giam được tiến trình trên máy này";

pub const EMPTY_ARGV_TEXT: &'static str = "argv rỗng: không có gì để giam";

pub const UNRESOLVABLE_HEAD: &'static str = "không phân giải được ";

impl SandboxError {
    /// The message shown to the user.
    pub open spec fn text(&self) -> Seq<char> {
        match self {
            SandboxError::Unavailable(why) => UNAVAILABLE_HEAD@ + ": "@ + why@,
            SandboxError::EmptyArgv => EMPTY_ARGV_TEXT@,
            SandboxError::Unresolvable(path, why) => UNRESOLVABLE_HEAD@ + path@ + ": "@ + why@,
        }
    }

    /// The message shown to the user.
    pub fn message(&self) -> (r: String)
        ensures
            r@ == self.text(),
    {
        match self {
            SandboxError::Unavailable(why) => format_text(UNAVAILABLE_HEAD, why.as_str()),
            SandboxError::EmptyArgv => String::from_str(EMPTY_ARGV_TEXT),
            SandboxError::Unresolvable(path, why) => {
                let head = String::from_str(UNRESOLVABLE_HEAD).concat(path.as_str());
                let r = format_text(head.as_str(), why.as_str());
                proof {
                    assert(r@ =~= UNRESOLVABLE_HEAD@ + path@ + ": "@ + why@);
                }
                r
            },
        }
    }
}

/// The text of a refusal because confinement is impossible here.
pub open spec fn unavailable_text(why: Seq<char>) -> Seq<char> {
    UNAVAILABLE_HEAD@ + ": "@ + why
}

/// What every provider does before its own rewrite: an empty argv is refused, and a mode that
/// confines nothing passes argv through; otherwise `confined` is the provider's answer.
pub open spec fn seam_rewrite(argv: Seq<Seq<char>>, policy: Policy, confined: Result<Seq<Seq<char>>, Seq<char>>) -> Result<Seq<Seq<char>>, Seq<char>> {
    if argv.len() == 0 {
        Err(EMPTY_ARGV_TEXT@)
    } else if !policy.mode.confines() {
        Ok(argv)
    } else {
        confined
    }
}

/// The seam's implementation; `wrap` takes ownership of argv because it mostly prepends to it.
/// `roots` are the policy's writable roots as resolved on this machine.
pub trait SandboxProvider {
    /// This provider's rewrite of `argv` under `policy` with these writable roots: the confined
    /// argv, or the text of the refusal.
    spec fn wrapped(&self, argv: Seq<Seq<char>>, policy: Policy, roots: Seq<Seq<char>>) -> Result<Seq<Seq<char>>, Seq<char>>;

    /// Wrap argv so the process runs confined; `danger-full-access` returns argv unchanged, and
    /// an empty argv is refused whatever the mode.
    fn wrap(&self, argv: Vec<String>, policy: &Policy, roots: &Vec<String>) -> (r: Result<
        Vec<String>,
        SandboxError,
    >)
        ensures
            argv@.len() == 0 ==> r matches Err(SandboxError::EmptyArgv),
            argv@.len() > 0 && !policy.mode.confines() ==> (r matches Ok(v) && v@ == argv@),
            match r {
                Ok(v) => self.wrapped(views(argv@), *policy, views(roots@)) == Ok::<Seq<Seq<char>>, Seq<char>>(views(v@)),
                Err(e) => self.wrapped(views(argv@), *policy, views(roots@)) == Err::<Seq<Seq<char>>, Seq<char>>(e.text()),
            },
    ;

    /// Whether this mode is genuinely enforced on the running machine.
    fn enforcement(&self) -> Enforcement;

    /// Can this provider honour `Policy::deny_network`; false by default, and TCP only on Linux.
    fn network_confinable(&self) -> (r: bool)
        default_ensures
            !r,
    {
        false
    }
}

} // verus!
