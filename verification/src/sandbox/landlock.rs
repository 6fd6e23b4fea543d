//! Linux: Landlock confines the calling process, so `wrap` inserts a helper binary that binds
//! itself and then `exec`s the real command. Network confinement is opt-in, TCP only, and only
//! from ABI 4; the ABI is negotiated at run time, which is where `Partial` comes from.

use vstd::prelude::*;

use crate::sandbox::policy::{Policy, lemma_views_push, views};
use crate::sandbox::seam::{Enforcement, SandboxError, SandboxProvider, seam_rewrite, unavailable_text};

verus! {

/// The helper binary's name; it sits next to the main executable, packaged with it.
pub const RUNNER: &'static str = "pai-landlock-run";

pub const NO_KERNEL_REASON: &'static str = "kernel này không có Landlock (cần Linux 5.13 trở lên, và LSM phải được bật)";

pub const ABI1_REASON: &'static str = "Landlock ABI 1: chưa chặn được đổi tên và liên kết cứng qua thư mục";

pub const ABI2_REASON: &'static str = "Landlock ABI 2: chưa chặn được lệnh cắt ngắn tệp";

pub const DENY_NETWORK_FLAG: &'static str = "--deny-network";

pub const ALLOW_WRITE_FLAG: &'static str = "--allow-write";

/// Closes the runner's options, or a command starting with `-` is eaten by the runner.
pub const END_OF_OPTIONS: &'static str = "--";

/// The reason when the helper binary is missing from the installation.
pub open spec fn no_runner_reason() -> Seq<char> {
    "không tìm thấy `"@ + RUNNER@ + "` cạnh tệp thực thi; bản cài đặt thiếu tệp"@
}

/// One `--allow-write <root>` pair per root, in order.
pub open spec fn allow_flags(roots: Seq<Seq<char>>) -> Seq<Seq<char>>
    decreases roots.len(),
{
    if roots.len() == 0 {
        Seq::empty()
    } else {
        allow_flags(roots.drop_last()) + seq![ALLOW_WRITE_FLAG@, roots.last()]
    }
}

/// The argv that runs `argv` through the runner.
pub open spec fn runner_argv(runner: Seq<char>, deny_network: bool, roots: Seq<Seq<char>>, argv: Seq<
    Seq<char>,
>) -> Seq<Seq<char>> {
    seq![runner] + (if deny_network {
        seq![DENY_NETWORK_FLAG@]
    } else {
        Seq::empty()
    }) + allow_flags(roots) + seq![END_OF_OPTIONS@] + argv
}

pub struct Landlock {
    runner: String,
    /// The kernel's Landlock ABI, when it has one.
    abi: Option<i32>,
    /// Whether the runner binary was found where it was looked for.
    runner_present: bool,
}

impl Landlock {
    pub closed spec fn runner_text(&self) -> Seq<char> {
        self.runner@
    }

    pub closed spec fn abi_level(&self) -> Option<i32> {
        self.abi
    }

    pub closed spec fn has_runner(&self) -> bool {
        self.runner_present
    }

    /// Both halves as probed on this machine: the helper binary next to the executable, when it
    /// was found there, and the kernel's ABI. A missing binary leaves an empty path.
    pub fn detect(found_runner: Option<String>, abi: Option<i32>) -> (l: Landlock)
        ensures
            l.abi_level() == abi,
            l.has_runner() == found_runner is Some,
            match found_runner {
                Some(path) => l.runner_text() == path@,
                None => l.runner_text() == Seq::<char>::empty(),
            },
    {
        match found_runner {
            Some(path) => Landlock { runner: path, abi, runner_present: true },
            None => Landlock { runner: String::new(), abi, runner_present: false },
        }
    }

    /// A provider for a named helper binary, with the kernel's answer and whether the binary
    /// is there, both as found on this machine.
    pub fn with_runner(runner: String, abi: Option<i32>, runner_present: bool) -> (l: Landlock)
        ensures
            l.runner_text() == runner@,
            l.abi_level() == abi,
            l.has_runner() == runner_present,
    {
        Landlock { runner, abi, runner_present }
    }

    pub fn runner(&self) -> (r: &str)
        ensures
            r@ == self.runner_text(),
    {
        self.runner.as_str()
    }
}

impl SandboxProvider for Landlock {
    /// The runner before argv, or a refusal when the kernel has no Landlock or the runner is missing.
    open spec fn wrapped(&self, argv: Seq<Seq<char>>, policy: Policy, roots: Seq<Seq<char>>) -> Result<Seq<Seq<char>>, Seq<char>> {
        seam_rewrite(argv, policy, if self.abi_level() is None {
            Err(unavailable_text(NO_KERNEL_REASON@))
        } else if !self.has_runner() {
            Err(unavailable_text(no_runner_reason()))
        } else {
            Ok(runner_argv(self.runner_text(), policy.deny_network, roots, argv))
        })
    }

    fn wrap(&self, argv: Vec<String>, policy: &Policy, roots: &Vec<String>) -> (r: Result<
        Vec<String>,
        SandboxError,
    >)
        ensures
            argv@.len() > 0 && policy.mode.confines() && (self.abi_level() is None || !self.has_runner())
                ==> (r matches Err(SandboxError::Unavailable(why)) && why@ == (if self.abi_level() is None {
                NO_KERNEL_REASON@
            } else {
                no_runner_reason()
            })),
            argv@.len() > 0 && policy.mode.confines() && self.abi_level() is Some && self.has_runner() ==> (
            r matches Ok(v) && views(v@) == runner_argv(
                self.runner_text(),
                policy.deny_network,
                views(roots@),
                views(argv@),
            )),
    {
        if argv.len() == 0 {
            return Err(SandboxError::EmptyArgv);
        }
        // `danger-full-access` goes straight through, no runner.
        if !policy.mode.confining() {
            return Ok(argv);
        }
        match self.enforcement() {
            // No confinement means nothing runs; bare argv here would drop the boundary silently.
            Enforcement::Absent(reason) => return Err(SandboxError::Unavailable(reason)),
            _ => {},
        }
        let mut wrapped: Vec<String> = Vec::new();
        wrapped.push(self.runner.clone());
        if policy.deny_network {
            wrapped.push(String::from_str(DENY_NETWORK_FLAG));
        }
        let ghost head = views(wrapped@);
        proof {
            assert(head =~= seq![self.runner@] + (if policy.deny_network {
                seq![DENY_NETWORK_FLAG@]
            } else {
                Seq::empty()
            }));
            assert(views(roots@).take(0) =~= Seq::<Seq<char>>::empty());
            assert(views(wrapped@) =~= head + allow_flags(views(roots@).take(0)));
        }
        let mut i: usize = 0;
        while i < roots.len()
            invariant
                i <= roots.len(),
                views(wrapped@) == head + allow_flags(views(roots@).take(i as int)),
            decreases roots.len() - i,
        {
            proof {
                let t = views(roots@).take(i + 1);
                assert(t.drop_last() =~= views(roots@).take(i as int));
                assert(t.last() == roots@[i as int]@);
            }
            let ghost w0 = wrapped@;
            let flag = String::from_str(ALLOW_WRITE_FLAG);
            let root = roots[i].clone();
            proof {
                lemma_views_push(w0, flag);
                lemma_views_push(w0.push(flag), root);
            }
            wrapped.push(flag);
            wrapped.push(root);
            proof {
                assert(views(wrapped@) == views(w0).push(ALLOW_WRITE_FLAG@).push(roots@[i as int]@));
                assert(views(wrapped@) =~= head + allow_flags(views(roots@).take(i + 1)));
            }
            i = i + 1;
        }
        proof {
            assert(views(roots@).take(roots.len() as int) =~= views(roots@));
        }
        let ghost w1 = wrapped@;
        let end = String::from_str(END_OF_OPTIONS);
        proof {
            lemma_views_push(w1, end);
        }
        wrapped.push(end);
        let ghost before = views(wrapped@);
        proof {
            assert(views(argv@).take(0) =~= Seq::<Seq<char>>::empty());
            assert(views(wrapped@) =~= before + views(argv@).take(0));
        }
        let mut k: usize = 0;
        while k < argv.len()
            invariant
                k <= argv.len(),
                views(wrapped@) == before + views(argv@).take(k as int),
            decreases argv.len() - k,
        {
            let ghost w0 = wrapped@;
            let item = argv[k].clone();
            proof {
                lemma_views_push(w0, item);
            }
            wrapped.push(item);
            proof {
                assert(views(argv@).take(k + 1) =~= views(argv@).take(k as int).push(argv@[k as int]@));
                assert(views(wrapped@) =~= before + views(argv@).take(k + 1));
            }
            k = k + 1;
        }
        proof {
            assert(views(argv@).take(argv.len() as int) =~= views(argv@));
            assert(views(wrapped@) =~= runner_argv(
                self.runner@,
                policy.deny_network,
                views(roots@),
                views(argv@),
            ));
        }
        Ok(wrapped)
    }

    /// Only from ABI 4, and only TCP bind and connect: Landlock has no UDP verb.
    fn network_confinable(&self) -> (r: bool)
        ensures
            r == (self.abi_level() matches Some(abi) && abi >= 4),
    {
        match self.abi {
            Some(abi) => abi >= 4,
            None => false,
        }
    }

    /// ABI 1 lacks `refer` and ABI 2 lacks truncation, both write paths, so never `Full` there.
    fn enforcement(&self) -> (e: Enforcement)
        ensures
            self.abi_level() is None ==> (e matches Enforcement::Absent(why) && why@ == NO_KERNEL_REASON@),
            self.abi_level() is Some && !self.has_runner() ==> (e matches Enforcement::Absent(why) && why@
                == no_runner_reason()),
            self.has_runner() && self.abi_level() == Some(1i32) ==> (e matches Enforcement::Partial(why)
                && why@ == ABI1_REASON@),
            self.has_runner() && self.abi_level() == Some(2i32) ==> (e matches Enforcement::Partial(why)
                && why@ == ABI2_REASON@),
            self.has_runner() && (self.abi_level() matches Some(abi) && abi != 1 && abi != 2) ==> e
                is Full,
    {
        let abi = match self.abi {
            Some(abi) => abi,
            None => return Enforcement::Absent(String::from_str(NO_KERNEL_REASON)),
        };
        if !self.runner_present {
            let why = String::from_str("không tìm thấy `").concat(RUNNER).concat(
                "` cạnh tệp thực thi; bản cài đặt thiếu tệp",
            );
            return Enforcement::Absent(why);
        }
        if abi == 1 {
            Enforcement::Partial(String::from_str(ABI1_REASON))
        } else if abi == 2 {
            Enforcement::Partial(String::from_str(ABI2_REASON))
        } else {
            Enforcement::Full
        }
    }
}

} // verus!
