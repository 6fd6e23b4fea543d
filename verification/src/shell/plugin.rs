//! The shell as mounted: `workspace-write` over the working directory by default, and every
//! `bash` call routed through the user with a question that states the real risk.

use vstd::prelude::*;

use crate::sandbox::policy::{Mode, Policy};
use crate::sandbox::seam::Enforcement;
use crate::text::str_eq;

verus! {

/// The name the shell is mounted under.
pub const PLUGIN_NAME: &'static str = "shell";

/// The one tool that needs the user's approval.
pub const BASH_TOOL: &'static str = "bash";

pub const CONFINED_RISK: &'static str = "Lệnh chạy trong vòng giam: nó chỉ ghi được vào thư mục làm việc. Nó vẫn đọc được toàn máy và vẫn ra được mạng.";

pub const PARTIAL_RISK_HEAD: &'static str = "Vòng giam không đầy đủ trên máy này (";

pub const PARTIAL_RISK_TAIL: &'static str = "). Lệnh chạy gần như với đầy đủ quyền của bạn.";

pub const UNKNOWN_REASON: &'static str = "không rõ lý do";

pub const UNCONFINED_RISK: &'static str = "Không có vòng giam nào. Lệnh chạy với đầy đủ quyền của bạn.";

/// The question put to the user before a command runs, by how real the sandbox is.
pub open spec fn risk_text(enforcement: Option<Enforcement>) -> Seq<char> {
    match enforcement {
        Some(Enforcement::Full) => CONFINED_RISK@,
        Some(other) => PARTIAL_RISK_HEAD@ + (match other.reason_view() {
            Some(why) => why,
            None => UNKNOWN_REASON@,
        }) + PARTIAL_RISK_TAIL@,
        None => UNCONFINED_RISK@,
    }
}

/// The line the user reads before approving a command; `None` when no sandbox is mounted.
pub fn shell_risk(enforcement: Option<&Enforcement>) -> (r: String)
    ensures
        r@ == risk_text(match enforcement {
            Some(e) => Some(*e),
            None => None,
        }),
{
    match enforcement {
        Some(Enforcement::Full) => String::from_str(CONFINED_RISK),
        Some(other) => {
            let why = match other.reason() {
                Some(why) => why,
                None => UNKNOWN_REASON,
            };
            String::from_str(PARTIAL_RISK_HEAD).concat(why).concat(PARTIAL_RISK_TAIL)
        },
        None => String::from_str(UNCONFINED_RISK),
    }
}

/// The approval step for a tool call, after the layers below have decided: a `bash` call they
/// allowed becomes a question (`Some`, with the risk); anything else keeps their decision (`None`).
pub fn ask_before_shell(tool: &str, allowed_below: bool, enforcement: Option<&Enforcement>) -> (r:
    Option<String>)
    ensures
        (tool@ == BASH_TOOL@ && allowed_below) ==> (r matches Some(q) && q@ == risk_text(
            match enforcement {
                Some(e) => Some(*e),
                None => None,
            },
        )),
        !(tool@ == BASH_TOOL@ && allowed_below) ==> r is None,
{
    if !str_eq(tool, BASH_TOOL) || !allowed_below {
        return None;
    }
    Some(shell_risk(enforcement))
}

pub struct ShellPlugin {
    cwd: String,
}

impl ShellPlugin {
    pub closed spec fn cwd_view(&self) -> Seq<char> {
        self.cwd@
    }

    pub fn new(cwd: String) -> (p: ShellPlugin)
        ensures
            p.cwd_view() == cwd@,
    {
        ShellPlugin { cwd }
    }

    pub fn cwd(&self) -> (r: &str)
        ensures
            r@ == self.cwd_view(),
    {
        self.cwd.as_str()
    }

    /// The policy commands run under: edit the working directory and nothing outside it.
    pub fn policy(&self) -> (p: Policy)
        ensures
            p.mode == Mode::WorkspaceWrite,
            p.workspace_root@ == self.cwd_view(),
            !p.deny_network,
    {
        Policy::workspace_write(self.cwd.clone())
    }

    pub fn name(&self) -> (r: &'static str)
        ensures
            r@ == PLUGIN_NAME@,
    {
        PLUGIN_NAME
    }
}

} // verus!
