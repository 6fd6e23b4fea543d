//! macOS: `sandbox-exec` with a generated SBPL profile, deprecated since 10.7 but still the
//! only way to confine an arbitrary process. The profile governs file writes only, and
//! Seatbelt matches resolved paths, so never let an uncanonicalised path through here.

use vstd::prelude::*;

use crate::sandbox::policy::{Policy, lemma_views_push, views};
use crate::sandbox::seam::{Enforcement, SandboxError, SandboxProvider, seam_rewrite};

verus! {

/// An absolute path, never a `PATH` lookup: another `sandbox-exec` is another sandbox.
pub const RUNNER: &'static str = "/usr/bin/sandbox-exec";

/// The stderr line macOS prints when the profile refuses a write: the sandbox working, not a break.
pub const DENIAL_SIGNATURE: &'static str = "operation not permitted";

/// Why a Mac without a usable `sandbox-exec` runs unconfined.
pub const MISSING_RUNNER_REASON: &'static str = "không tìm thấy /usr/bin/sandbox-exec trên máy này";

pub const PROFILE_FLAG: &'static str = "-p";

/// Closes `sandbox-exec`'s options, or a command starting with `-` becomes one of its flags.
pub const END_OF_OPTIONS: &'static str = "--";

/// The one path every profile keeps writable: nearly every command opens it to discard output.
pub const DEV_NULL: &'static str = "/dev/null";

/// One character of an SBPL string literal, escaped.
pub open spec fn escape_char(c: char) -> Seq<char> {
    if c == '\\' {
        seq!['\\', '\\']
    } else if c == '"' {
        seq!['\\', '"']
    } else {
        seq![c]
    }
}

/// Backslashes doubled and quotes escaped, in one left-to-right pass.
pub open spec fn escaped(s: Seq<char>) -> Seq<char>
    decreases s.len(),
{
    if s.len() == 0 {
        Seq::empty()
    } else {
        escaped(s.drop_last()) + escape_char(s.last())
    }
}

/// An SBPL string literal.
pub open spec fn quoted(s: Seq<char>) -> Seq<char> {
    seq!['"'] + escaped(s) + seq!['"']
}

pub open spec fn subpath_form(root: Seq<char>) -> Seq<char> {
    "(subpath "@ + quoted(root) + ")"@
}

/// The `(subpath ...)` forms of the roots, separated by single spaces.
pub open spec fn subpaths(roots: Seq<Seq<char>>) -> Seq<char>
    decreases roots.len(),
{
    if roots.len() == 0 {
        Seq::empty()
    } else if roots.len() == 1 {
        subpath_form(roots[0])
    } else {
        subpaths(roots.drop_last()) + " "@ + subpath_form(roots.last())
    }
}

/// The fixed opening of every profile: allow by default, deny file writes, keep `/dev/null`.
pub open spec fn profile_head() -> Seq<char> {
    "(version 1)\n(allow default)\n(deny file-write*)\n(allow file-write* (literal "@ + quoted(
        DEV_NULL@,
    ) + "))"@
}

/// The SBPL profile text. Clause order is semantics, as SBPL takes the last matching rule: the
/// network denial comes after `(allow default)`, and the writable roots come last.
pub open spec fn profile_text(deny_network: bool, roots: Seq<Seq<char>>) -> Seq<char> {
    profile_head() + (if deny_network {
        "\n(deny network*)"@
    } else {
        Seq::empty()
    }) + (if roots.len() > 0 {
        "\n(allow file-write* "@ + subpaths(roots) + ")"@
    } else {
        Seq::empty()
    })
}

/// An SBPL string, escaped first: an unescaped quote silently changes what the profile means.
pub fn sbpl_string(raw: &str) -> (r: String)
    ensures
        r@ == quoted(raw@),
{
    let n = raw.unicode_len();
    let mut out = String::from_str("\"");
    proof {
        reveal_strlit("\"");
        assert(raw@.take(0) =~= Seq::<char>::empty());
        assert(out@ =~= seq!['"'] + escaped(raw@.take(0)));
    }
    let mut i: usize = 0;
    while i < n
        invariant
            n == raw@.len(),
            i <= n,
            out@ == seq!['"'] + escaped(raw@.take(i as int)),
        decreases n - i,
    {
        let c = raw.get_char(i);
        proof {
            assert(raw@.take(i + 1).drop_last() =~= raw@.take(i as int));
            assert(raw@.take(i + 1).last() == c);
        }
        if c == '\\' {
            out.append("\\\\");
            proof {
                reveal_strlit("\\\\");
            }
        } else if c == '"' {
            out.append("\\\"");
            proof {
                reveal_strlit("\\\"");
            }
        } else {
            out.append(raw.substring_char(i, i + 1));
            proof {
                assert(raw@.subrange(i as int, i + 1) =~= seq![c]);
            }
        }
        proof {
            assert(out@ =~= seq!['"'] + escaped(raw@.take(i + 1)));
        }
        i = i + 1;
    }
    out.append("\"");
    proof {
        reveal_strlit("\"");
        assert(raw@.take(n as int) =~= raw@);
        assert(out@ =~= quoted(raw@));
    }
    out
}

/// The SBPL profile for a policy and its resolved writable roots.
pub fn profile(policy: &Policy, roots: &Vec<String>) -> (r: String)
    ensures
        r@ == profile_text(policy.deny_network, views(roots@)),
{
    let null = sbpl_string(DEV_NULL);
    let mut text = String::from_str("(version 1)\n(allow default)\n(deny file-write*)\n(allow file-write* (literal ");
    text.append(null.as_str());
    text.append("))");
    proof {
        assert(text@ =~= profile_head());
    }
    if policy.deny_network {
        text.append("\n(deny network*)");
    }
    let ghost head = text@;
    if roots.len() > 0 {
        text.append("\n(allow file-write* ");
        let ghost opening = text@;
        let mut i: usize = 0;
        while i < roots.len()
            invariant
                0 < roots.len(),
                i <= roots.len(),
                text@ == opening + subpaths(views(roots@).take(i as int)),
            decreases roots.len() - i,
        {
            let ghost t = views(roots@).take(i + 1);
            proof {
                assert(t.drop_last() =~= views(roots@).take(i as int));
                assert(t.last() == roots@[i as int]@);
                if i == 0 {
                    assert(views(roots@).take(0) =~= Seq::<Seq<char>>::empty());
                    assert(t[0] == roots@[0]@);
                }
            }
            if i > 0 {
                text.append(" ");
            }
            text.append("(subpath ");
            let quoted_root = sbpl_string(roots[i].as_str());
            text.append(quoted_root.as_str());
            text.append(")");
            proof {
                assert(text@ =~= opening + subpaths(t));
            }
            i = i + 1;
        }
        proof {
            assert(views(roots@).take(roots.len() as int) =~= views(roots@));
        }
        text.append(")");
    }
    proof {
        assert(text@ =~= profile_text(policy.deny_network, views(roots@)));
    }
    text
}

pub struct Seatbelt {
    runner: String,
}

impl Seatbelt {
    pub closed spec fn runner_text(&self) -> Seq<char> {
        self.runner@
    }

    /// A provider for a named `sandbox-exec`, skipping the probe.
    pub fn with_runner(runner: String) -> (s: Seatbelt)
        ensures
            s.runner_text() == runner@,
    {
        Seatbelt { runner }
    }

    pub fn runner(&self) -> (r: &str)
        ensures
            r@ == self.runner_text(),
    {
        self.runner.as_str()
    }
}

impl SandboxProvider for Seatbelt {
    /// `sandbox-exec -p <profile> --` before argv.
    open spec fn wrapped(&self, argv: Seq<Seq<char>>, policy: Policy, roots: Seq<Seq<char>>) -> Result<Seq<Seq<char>>, Seq<char>> {
        seam_rewrite(argv, policy, Ok(seq![
            self.runner_text(),
            PROFILE_FLAG@,
            profile_text(policy.deny_network, roots),
            END_OF_OPTIONS@,
        ] + argv))
    }

    fn wrap(&self, argv: Vec<String>, policy: &Policy, roots: &Vec<String>) -> (r: Result<
        Vec<String>,
        SandboxError,
    >)
        ensures
            argv@.len() > 0 && policy.mode.confines() ==> (r matches Ok(v) && views(v@) == seq![
                self.runner_text(),
                PROFILE_FLAG@,
                profile_text(policy.deny_network, views(roots@)),
                END_OF_OPTIONS@,
            ] + views(argv@)),
    {
        if argv.len() == 0 {
            return Err(SandboxError::EmptyArgv);
        }
        // `danger-full-access` goes straight through, no runner.
        if !policy.mode.confining() {
            return Ok(argv);
        }
        let mut wrapped: Vec<String> = Vec::new();
        wrapped.push(self.runner.clone());
        wrapped.push(String::from_str(PROFILE_FLAG));
        wrapped.push(profile(policy, roots));
        wrapped.push(String::from_str(END_OF_OPTIONS));
        let ghost before = views(wrapped@);
        proof {
            assert(before =~= seq![
                self.runner@,
                PROFILE_FLAG@,
                profile_text(policy.deny_network, views(roots@)),
                END_OF_OPTIONS@,
            ]);
            assert(views(argv@).take(0) =~= Seq::<Seq<char>>::empty());
            assert(views(wrapped@) =~= before + views(argv@).take(0));
        }
        let mut k: usize = 0;
        while k < argv.len()
            invariant
                k <= argv.len(),
                views(wrapped@) == before + views(argv@).take(k as int),
            decreases argv.len() - k,
        {
            let ghost w0 = wrapped@;
            let item = argv[k].clone();
            proof {
                lemma_views_push(w0, item);
            }
            wrapped.push(item);
            proof {
                assert(views(argv@).take(k + 1) =~= views(argv@).take(k as int).push(argv@[k as int]@));
                assert(views(wrapped@) =~= before + views(argv@).take(k + 1));
            }
            k = k + 1;
        }
        proof {
            assert(views(argv@).take(argv.len() as int) =~= views(argv@));
        }
        Ok(wrapped)
    }

    /// `Full` covers file effects only, which is the whole scope of this vocabulary.
    fn enforcement(&self) -> (e: Enforcement)
        ensures
            e is Full,
    {
        Enforcement::Full
    }

    /// True: `(deny network*)` is enforced by the kernel here, not by convention.
    fn network_confinable(&self) -> (r: bool)
        ensures
            r,
    {
        true
    }
}

} // verus!
