//! The provider for machines that cannot confine yet, today Windows. Not a stub: it answers
//! "no, for this reason", which the approval dialog needs to distinguish from silence.
//! A restricted token is the only viable Windows primitive, and it is not written yet.

use vstd::prelude::*;

use crate::sandbox::policy::Policy;
use crate::sandbox::seam::{Enforcement, SandboxError, SandboxProvider, seam_rewrite, unavailable_text};

verus! {

/// The default reason for Windows, written once so every place says the same sentence.
pub const WINDOWS_REASON: &'static str = "Windows chưa có backend giam tiến trình: restricted token là đường khả thi duy nhất và nó chưa được viết. Lệnh chạy với đầy đủ quyền của bạn, và thứ duy nhất đứng giữa là hộp thoại duyệt.";

pub struct Unconfined {
    reason: String,
}

impl Unconfined {
    pub closed spec fn reason_text(&self) -> Seq<char> {
        self.reason@
    }

    pub fn new(reason: String) -> (u: Unconfined)
        ensures
            u.reason_text() == reason@,
    {
        Unconfined { reason }
    }
}

impl SandboxProvider for Unconfined {
    /// Every confining mode is refused with the reason this machine gives.
    open spec fn wrapped(&self, argv: Seq<Seq<char>>, policy: Policy, roots: Seq<Seq<char>>) -> Result<Seq<Seq<char>>, Seq<char>> {
        seam_rewrite(argv, policy, Err(unavailable_text(self.reason_text())))
    }

    /// `danger-full-access` still runs; the confining modes error rather than pass through.
    fn wrap(&self, argv: Vec<String>, policy: &Policy, roots: &Vec<String>) -> (r: Result<
        Vec<String>,
        SandboxError,
    >)
        ensures
            argv@.len() > 0 && policy.mode.confines() ==> (r matches Err(SandboxError::Unavailable(why))
                && why@ == self.reason_text()),
    {
        if argv.len() == 0 {
            return Err(SandboxError::EmptyArgv);
        }
        if policy.mode.confining() {
            return Err(SandboxError::Unavailable(self.reason.clone()));
        }
        Ok(argv)
    }

    /// Nothing is confined, the network included.
    fn network_confinable(&self) -> (r: bool)
        ensures
            !r,
    {
        false
    }

    fn enforcement(&self) -> (e: Enforcement)
        ensures
            e matches Enforcement::Absent(why) && why@ == self.reason_text(),
    {
        Enforcement::Absent(self.reason.clone())
    }
}

} // verus!
