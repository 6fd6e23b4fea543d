//! The command execution seam. What runs is a process tree, not a process: the caller gives the
//! child its own process group and signals the whole group. Decided here: the argv that runs,
//! and how an interrupted or signalled run is described.

use vstd::prelude::*;

use crate::sandbox::policy::{Policy, views};
use crate::sandbox::seam::SandboxProvider;
use crate::text::{decimal, decimal_text, signed_decimal, signed_text};

verus! {

#[derive(Debug)]
pub struct Execution {
    pub output: String,
    pub exit_code: Option<i32>,
    pub signal: Option<String>,
    /// Cut short by a timeout or cancellation; partial output is useful only if labelled so.
    pub interrupted: Option<String>,
}

impl Default for Execution {
    fn default() -> (e: Execution)
        ensures
            e.output@ == Seq::<char>::empty(),
            e.exit_code is None,
            e.signal is None,
            e.interrupted is None,
    {
        Execution { output: String::new(), exit_code: None, signal: None, interrupted: None }
    }
}

impl Clone for Execution {
    fn clone(&self) -> (r: Execution)
        ensures
            r == *self,
    {
        Execution {
            output: self.output.clone(),
            exit_code: self.exit_code,
            signal: match &self.signal {
                Some(s) => Some(s.clone()),
                None => None,
            },
            interrupted: match &self.interrupted {
                Some(s) => Some(s.clone()),
                None => None,
            },
        }
    }
}

#[derive(Debug)]
pub enum ShellError {
    Spawn(String),
}

pub const SPAWN_HEAD: &'static str = "không chạy được lệnh";

pub const EMPTY_ARGV: &'static str = "argv rỗng";

pub const SHELL_PROGRAM: &'static str = "/bin/sh";

pub const SHELL_FLAG: &'static str = "-c";

pub const CANCELLED_REASON: &'static str = "lượt đã bị huỷ";

impl ShellError {
    pub open spec fn text(&self) -> Seq<char> {
        match self {
            ShellError::Spawn(why) => SPAWN_HEAD@ + ": "@ + why@,
        }
    }

    /// The message shown to the user.
    pub fn message(&self) -> (r: String)
        ensures
            r@ == self.text(),
    {
        match self {
            ShellError::Spawn(why) => crate::session::error::format_text(SPAWN_HEAD, why.as_str()),
        }
    }
}

/// `/bin/sh -c <command>`.
pub open spec fn shell_argv_of(command: Seq<char>) -> Seq<Seq<char>> {
    seq![SHELL_PROGRAM@, SHELL_FLAG@, command]
}

pub fn shell_argv(command: &str) -> (r: Vec<String>)
    ensures
        views(r@) == shell_argv_of(command@),
{
    let mut r: Vec<String> = Vec::new();
    r.push(String::from_str(SHELL_PROGRAM));
    r.push(String::from_str(SHELL_FLAG));
    r.push(String::from_str(command));
    proof {
        assert(views(r@) =~= shell_argv_of(command@));
    }
    r
}

/// The argv that runs a command: bare when no sandbox is mounted, wrapped when one is; a
/// sandbox that refuses runs nothing. `roots` are the policy's resolved writable roots.
pub fn spawn_argv<P: SandboxProvider>(
    sandbox: Option<&P>,
    command: &str,
    policy: &Policy,
    roots: &Vec<String>,
) -> (r: Result<Vec<String>, ShellError>)
    ensures
        sandbox is None ==> (r matches Ok(v) && views(v@) == shell_argv_of(command@)),
        sandbox is Some && !policy.mode.confines() ==> (r matches Ok(v) && views(v@) == shell_argv_of(
            command@,
        )),
        sandbox matches Some(p) ==> match p.wrapped(shell_argv_of(command@), *policy, views(roots@)) {
            Ok(v) => r matches Ok(a) && views(a@) == v,
            Err(t) => r matches Err(ShellError::Spawn(why)) && why@ == t,
        },
{
    let argv = shell_argv(command);
    proof {
        assert(views(argv@).len() == 3);
        assert(argv@.len() == views(argv@).len());
    }
    match sandbox {
        Some(provider) => {
            let ghost given = argv@;
            match provider.wrap(argv, policy, roots) {
                Ok(v) => {
                    proof {
                        assert(!policy.mode.confines() ==> views(v@) == views(given));
                    }
                    Ok(v)
                },
                Err(e) => Err(ShellError::Spawn(e.message())),
            }
        },
        None => Ok(argv),
    }
}

/// The program and its arguments; an empty argv cannot be spawned.
pub fn split_program(argv: Vec<String>) -> (r: Result<(String, Vec<String>), ShellError>)
    ensures
        argv@.len() == 0 ==> (r matches Err(ShellError::Spawn(why)) && why@ == EMPTY_ARGV@),
        argv@.len() > 0 ==> (r matches Ok((program, args)) && program == argv@[0] && args@
            == argv@.drop_first()),
{
    if argv.len() == 0 {
        return Err(ShellError::Spawn(String::from_str(EMPTY_ARGV)));
    }
    let mut args = argv;
    let program = args.remove(0);
    proof {
        assert(args@ =~= argv@.drop_first());
    }
    Ok((program, args))
}

/// Why a run that hit its deadline stopped.
pub open spec fn timeout_text(seconds: nat) -> Seq<char> {
    "lệnh bị dừng sau "@ + decimal_text(seconds) + " giây"@
}

pub fn timeout_reason(seconds: u64) -> (r: String)
    ensures
        r@ == timeout_text(seconds as nat),
{
    String::from_str("lệnh bị dừng sau ").concat(decimal(seconds).as_str()).concat(" giây")
}

/// The name of the signal that ended a process.
pub open spec fn signal_text(signal: int) -> Seq<char> {
    "SIG"@ + signed_text(signal)
}

pub fn signal_name(signal: i32) -> (r: String)
    ensures
        r@ == signal_text(signal as int),
{
    String::from_str("SIG").concat(signed_decimal(signal as i64).as_str())
}

} // verus!
