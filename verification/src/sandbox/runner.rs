//! The Landlock helper's command line. The helper binds itself and then becomes the real
//! command, so everything it knows arrives as arguments: the writable roots, whether to deny
//! the network, and after `--` the command itself, verbatim.

use vstd::prelude::*;

use crate::sandbox::landlock::{
    ALLOW_WRITE_FLAG, DENY_NETWORK_FLAG, END_OF_OPTIONS, allow_flags, runner_argv,
};
use crate::sandbox::policy::{lemma_views_push, views};
use crate::text::str_eq;

verus! {

/// Exit code for a command line the helper cannot read.
pub const BAD_ARGUMENTS: i32 = 2;

/// Exit code when confinement cannot be put in place, so nothing runs.
pub const NO_CONFINEMENT: i32 = 3;

pub const MISSING_PATH_TEXT: &'static str = "--allow-write thiếu đường dẫn";

pub const UNKNOWN_ARGUMENT_HEAD: &'static str = "tham số lạ: ";

pub const NO_COMMAND_TEXT: &'static str = "không có lệnh nào để chạy";

/// What the helper was asked to do.
pub struct RunnerArgs {
    pub writable: Vec<String>,
    pub deny_network: bool,
    pub argv: Vec<String>,
}

/// Why the helper refuses its command line.
#[derive(Debug)]
pub enum RunnerError {
    /// `--allow-write` was the last argument.
    MissingPath,
    /// An option the helper does not know, before `--`.
    UnknownArgument(String),
    /// No command after `--`, or no `--` at all.
    NoCommand,
}

impl RunnerError {
    pub open spec fn text(&self) -> Seq<char> {
        match self {
            RunnerError::MissingPath => MISSING_PATH_TEXT@,
            RunnerError::UnknownArgument(arg) => UNKNOWN_ARGUMENT_HEAD@ + arg@,
            RunnerError::NoCommand => NO_COMMAND_TEXT@,
        }
    }

    /// The line the helper prints before it exits.
    pub fn message(&self) -> (r: String)
        ensures
            r@ == self.text(),
    {
        match self {
            RunnerError::MissingPath => String::from_str(MISSING_PATH_TEXT),
            RunnerError::UnknownArgument(arg) => String::from_str(UNKNOWN_ARGUMENT_HEAD).concat(arg.as_str()),
            RunnerError::NoCommand => String::from_str(NO_COMMAND_TEXT),
        }
    }

    /// Every refusal of the command line exits with the same code.
    pub fn code(&self) -> (r: i32)
        ensures
            r == BAD_ARGUMENTS,
    {
        BAD_ARGUMENTS
    }
}

/// What a command line means, as plain values.
pub enum Parsed {
    Run { writable: Seq<Seq<char>>, deny_network: bool, argv: Seq<Seq<char>> },
    MissingPath,
    UnknownArgument(Seq<char>),
    NoCommand,
}

/// The helper's reading of `args` from position `i`, with the roots and the network flag read
/// so far: options until `--`, then the command verbatim; the first bad option ends it.
pub open spec fn parse_from(args: Seq<Seq<char>>, i: int, writable: Seq<Seq<char>>, deny: bool) -> Parsed
    decreases args.len() - i,
{
    if i < 0 || i >= args.len() {
        Parsed::NoCommand
    } else if args[i] == END_OF_OPTIONS@ {
        if i + 1 < args.len() {
            Parsed::Run { writable, deny_network: deny, argv: args.subrange(i + 1, args.len() as int) }
        } else {
            Parsed::NoCommand
        }
    } else if args[i] == DENY_NETWORK_FLAG@ {
        parse_from(args, i + 1, writable, true)
    } else if args[i] == ALLOW_WRITE_FLAG@ {
        if i + 1 < args.len() {
            parse_from(args, i + 2, writable.push(args[i + 1]), deny)
        } else {
            Parsed::MissingPath
        }
    } else {
        Parsed::UnknownArgument(args[i])
    }
}

/// The helper's reading of its whole command line (without its own name).
pub open spec fn parse(args: Seq<Seq<char>>) -> Parsed {
    parse_from(args, 0, Seq::empty(), false)
}

/// Whether an exec result is the reading.
pub open spec fn reads_as(r: Result<RunnerArgs, RunnerError>, p: Parsed) -> bool {
    match p {
        Parsed::Run { writable, deny_network, argv } => r matches Ok(a) && views(a.writable@) == writable
            && a.deny_network == deny_network && views(a.argv@) == argv,
        Parsed::MissingPath => r matches Err(RunnerError::MissingPath),
        Parsed::UnknownArgument(arg) => r matches Err(RunnerError::UnknownArgument(x)) && x@ == arg,
        Parsed::NoCommand => r matches Err(RunnerError::NoCommand),
    }
}

/// Read the helper's command line, its own name already dropped.
pub fn parse_runner_args(args: &Vec<String>) -> (r: Result<RunnerArgs, RunnerError>)
    ensures
        reads_as(r, parse(views(args@))),
{
    let ghost all = views(args@);
    let mut writable: Vec<String> = Vec::new();
    let mut deny_network = false;
    let mut i: usize = 0;
    proof {
        assert(views(writable@) =~= Seq::<Seq<char>>::empty());
    }
    while i < args.len()
        invariant
            all == views(args@),
            i <= args.len(),
            parse(all) == parse_from(all, i as int, views(writable@), deny_network),
        decreases args.len() - i,
    {
        let arg = args[i].as_str();
        if str_eq(arg, END_OF_OPTIONS) {
            if i + 1 < args.len() {
                let mut argv: Vec<String> = Vec::new();
                let mut k: usize = i + 1;
                while k < args.len()
                    invariant
                        all == views(args@),
                        i + 1 <= k <= args.len(),
                        views(argv@) == all.subrange(i + 1, k as int),
                    decreases args.len() - k,
                {
                    let ghost before = argv@;
                    argv.push(args[k].clone());
                    proof {
                        lemma_views_push(before, args@[k as int]);
                        assert(all.subrange(i + 1, k + 1) =~= all.subrange(i + 1, k as int).push(all[k as int]));
                    }
                    k = k + 1;
                }
                return Ok(RunnerArgs { writable, deny_network, argv });
            }
            return Err(RunnerError::NoCommand);
        } else if str_eq(arg, DENY_NETWORK_FLAG) {
            deny_network = true;
            i = i + 1;
        } else if str_eq(arg, ALLOW_WRITE_FLAG) {
            if i + 1 < args.len() {
                let ghost before = writable@;
                writable.push(args[i + 1].clone());
                proof {
                    lemma_views_push(before, args@[i + 1]);
                }
                i = i + 2;
            } else {
                return Err(RunnerError::MissingPath);
            }
        } else {
            return Err(RunnerError::UnknownArgument(args[i].clone()));
        }
    }
    Err(RunnerError::NoCommand)
}

/// The `--allow-write` pairs for `roots`, read from position `i`, add exactly those roots.
proof fn lemma_read_allow_flags(s: Seq<Seq<char>>, i: int, roots: Seq<Seq<char>>, writable: Seq<Seq<char>>, deny: bool)
    requires
        0 <= i,
        i + 2 * roots.len() <= s.len(),
        s.subrange(i, i + 2 * roots.len()) == allow_flags(roots),
    ensures
        parse_from(s, i, writable, deny) == parse_from(s, i + 2 * roots.len(), writable + roots, deny),
    decreases roots.len(),
{
    reveal_strlit("--allow-write");
    reveal_strlit("--deny-network");
    reveal_strlit("--");
    if roots.len() == 0 {
        assert(writable + roots =~= writable);
    } else {
        let k = roots.len() - 1;
        let front = roots.drop_last();
        lemma_allow_flags_len(front);
        assert(s.subrange(i, i + 2 * k) =~= s.subrange(i, i + 2 * roots.len()).subrange(0, 2 * k));
        assert(allow_flags(roots).subrange(0, 2 * k) =~= allow_flags(front));
        lemma_read_allow_flags(s, i, front, writable, deny);
        let j = i + 2 * k;
        assert(s[j] == allow_flags(roots)[2 * k]);
        assert(s[j + 1] == allow_flags(roots)[2 * k + 1]);
        assert(s[j] == ALLOW_WRITE_FLAG@);
        assert(s[j] != END_OF_OPTIONS@);
        assert(s[j] != DENY_NETWORK_FLAG@);
        assert((writable + front).push(roots.last()) =~= writable + roots);
    }
}

proof fn lemma_allow_flags_len(roots: Seq<Seq<char>>)
    ensures
        allow_flags(roots).len() == 2 * roots.len(),
    decreases roots.len(),
{
    if roots.len() > 0 {
        lemma_allow_flags_len(roots.drop_last());
    }
}

/// The helper reads back exactly what Landlock's `wrap` wrote after the helper's name: the
/// roots in order, the network flag, and the command verbatim, whatever the roots and the
/// command hold.
pub proof fn law_runner_reads_back_wrap(runner: Seq<char>, deny_network: bool, roots: Seq<Seq<char>>, argv: Seq<
    Seq<char>,
>)
    requires
        argv.len() > 0,
    ensures
        parse(runner_argv(runner, deny_network, roots, argv).drop_first()) == (Parsed::Run {
            writable: roots,
            deny_network,
            argv,
        }),
{
    reveal_strlit("--allow-write");
    reveal_strlit("--deny-network");
    reveal_strlit("--");
    let head: Seq<Seq<char>> = if deny_network {
        seq![DENY_NETWORK_FLAG@]
    } else {
        Seq::empty()
    };
    let s = runner_argv(runner, deny_network, roots, argv).drop_first();
    lemma_allow_flags_len(roots);
    assert(s =~= head + allow_flags(roots) + seq![END_OF_OPTIONS@] + argv);
    let h = head.len() as int;
    let e = h + 2 * roots.len();
    if deny_network {
        assert(s[0] == DENY_NETWORK_FLAG@);
        assert(s[0] != END_OF_OPTIONS@);
    }
    assert(parse(s) == parse_from(s, h, Seq::empty(), deny_network));
    assert(s.subrange(h, e) =~= allow_flags(roots));
    lemma_read_allow_flags(s, h, roots, Seq::empty(), deny_network);
    assert(Seq::<Seq<char>>::empty() + roots =~= roots);
    assert(s[e] == END_OF_OPTIONS@);
    assert(s.subrange(e + 1, s.len() as int) =~= argv);
}

} // verus!
