//! Three modes and one definition of where writes are allowed, asked by SBPL, Landlock and the
//! in-process guardrail alike, since two answers that drift apart are a hole. Roots are
//! resolved on disk by the caller first; everything after that is decided here.

use vstd::prelude::*;

verus! {

/// The confinement mode; wire names are fixed so config and the session journal agree.
#[derive(Debug, Clone, Copy, PartialEq, Eq, Structural)]
pub enum Mode {
    /// No writes at all, workspace included; only the mandatory holes remain (`/dev/null`).
    ReadOnly,
    /// Writes allowed in the workspace and the temp directory, refused everywhere else.
    WorkspaceWrite,
    /// No confinement at all: the absence of a sandbox, not a configuration of one.
    DangerFullAccess,
}

pub const READ_ONLY_NAME: &'static str = "read-only";

pub const WORKSPACE_WRITE_NAME: &'static str = "workspace-write";

pub const DANGER_FULL_ACCESS_NAME: &'static str = "danger-full-access";

/// The two fixed temp directories every workspace-write policy also opens.
pub const TMP_DIR: &'static str = "/tmp";

pub const VAR_TMP_DIR: &'static str = "/var/tmp";

impl Mode {
    /// The wire name of a mode.
    pub open spec fn name(self) -> Seq<char> {
        match self {
            Mode::ReadOnly => READ_ONLY_NAME@,
            Mode::WorkspaceWrite => WORKSPACE_WRITE_NAME@,
            Mode::DangerFullAccess => DANGER_FULL_ACCESS_NAME@,
        }
    }

    /// Whether a mode asks for a boundary at all.
    pub open spec fn confines(self) -> bool {
        !(self is DangerFullAccess)
    }

    pub fn as_str(self) -> (r: &'static str)
        ensures
            r@ == self.name(),
    {
        match self {
            Mode::ReadOnly => READ_ONLY_NAME,
            Mode::WorkspaceWrite => WORKSPACE_WRITE_NAME,
            Mode::DangerFullAccess => DANGER_FULL_ACCESS_NAME,
        }
    }

    /// Does this mode ask for a boundary at all; `danger-full-access` skips every backend.
    pub fn confining(self) -> (r: bool)
        ensures
            r == self.confines(),
    {
        !matches!(self, Mode::DangerFullAccess)
    }
}

/// The modes' wire names are `read-only`, `workspace-write` and `danger-full-access`, and a
/// name names one mode.
pub proof fn law_mode_names(a: Mode, b: Mode)
    ensures
        Mode::ReadOnly.name() == "read-only"@,
        Mode::WorkspaceWrite.name() == "workspace-write"@,
        Mode::DangerFullAccess.name() == "danger-full-access"@,
        a.name() == b.name() ==> a == b,
{
    reveal_strlit("read-only");
    reveal_strlit("workspace-write");
    reveal_strlit("danger-full-access");
    if a.name() == b.name() {
        assert(a.name().len() == b.name().len());
    }
}

/// The policy for one run; `workspace_root` is the session's directory, never the command's `cwd`.
#[derive(Debug, Clone)]
pub struct Policy {
    pub mode: Mode,
    pub workspace_root: String,
    /// Cut the process off from the network; off by default, and TCP-only on Linux.
    pub deny_network: bool,
}

impl Policy {
    pub fn new(mode: Mode, workspace_root: String) -> (p: Policy)
        ensures
            p.mode == mode,
            p.workspace_root@ == workspace_root@,
            !p.deny_network,
    {
        Policy { mode, workspace_root, deny_network: false }
    }

    /// The same policy with the network cut off; a builder, so asking for it is explicit.
    pub fn deny_network(self) -> (p: Policy)
        ensures
            p.mode == self.mode,
            p.workspace_root@ == self.workspace_root@,
            p.deny_network,
    {
        let mut p = self;
        p.deny_network = true;
        p
    }

    pub fn read_only(workspace_root: String) -> (p: Policy)
        ensures
            p.mode == Mode::ReadOnly,
            p.workspace_root@ == workspace_root@,
            !p.deny_network,
    {
        Policy::new(Mode::ReadOnly, workspace_root)
    }

    pub fn workspace_write(workspace_root: String) -> (p: Policy)
        ensures
            p.mode == Mode::WorkspaceWrite,
            p.workspace_root@ == workspace_root@,
            !p.deny_network,
    {
        Policy::new(Mode::WorkspaceWrite, workspace_root)
    }

    pub fn danger_full_access(workspace_root: String) -> (p: Policy)
        ensures
            p.mode == Mode::DangerFullAccess,
            p.workspace_root@ == workspace_root@,
            !p.deny_network,
    {
        Policy::new(Mode::DangerFullAccess, workspace_root)
    }
}

/// `Path::starts_with` on two paths: whole components only.
pub uninterp spec fn path_starts_with(path: Seq<char>, base: Seq<char>) -> bool;

/// `Path`'s `<`: component-wise order.
pub uninterp spec fn path_lt(a: Seq<char>, b: Seq<char>) -> bool;

/// `Path`'s `==`: component-wise equality.
pub uninterp spec fn path_eq(a: Seq<char>, b: Seq<char>) -> bool;

/// Calls `std::path::Path::starts_with`, which compares whole path components (so `/tmpfoo`
/// does not start with `/tmp`). The result is taken as `path_starts_with` of the two texts.
#[verifier::external_body]
fn starts_with_path(path: &str, base: &str) -> (r: bool)
    ensures
        r == path_starts_with(path@, base@),
{
    std::path::Path::new(path).starts_with(base)
}

/// Calls `<` on two `std::path::Path` values, the order `sort` uses on `PathBuf`. The result is
/// taken as `path_lt` of the two texts.
#[verifier::external_body]
fn path_less(a: &str, b: &str) -> (r: bool)
    ensures
        r == path_lt(a@, b@),
{
    std::path::Path::new(a) < std::path::Path::new(b)
}

/// Calls `==` on two `std::path::Path` values, which compares parsed components. The result is
/// taken as `path_eq` of the two texts.
#[verifier::external_body]
fn path_same(a: &str, b: &str) -> (r: bool)
    ensures
        r == path_eq(a@, b@),
{
    std::path::Path::new(a) == std::path::Path::new(b)
}

/// The views of a list of strings.
pub open spec fn views(v: Seq<String>) -> Seq<Seq<char>> {
    v.map_values(|s: String| s@)
}

/// The places a policy asks to open for writing, before they are resolved on disk: the
/// workspace, the process temp directory, `/tmp` and `/var/tmp`, and only in workspace-write.
pub open spec fn candidates(policy: Policy, temp: Seq<char>) -> Seq<Seq<char>> {
    if policy.mode == Mode::WorkspaceWrite {
        seq![policy.workspace_root@, temp, TMP_DIR@, VAR_TMP_DIR@]
    } else {
        Seq::empty()
    }
}

/// Insert `x` after every element it is not strictly below: one step of a stable sort.
pub open spec fn insert_sorted(sorted: Seq<Seq<char>>, x: Seq<char>) -> Seq<Seq<char>>
    decreases sorted.len(),
{
    if sorted.len() == 0 {
        seq![x]
    } else if path_lt(x, sorted.last()) {
        insert_sorted(sorted.drop_last(), x).push(sorted.last())
    } else {
        sorted.push(x)
    }
}

/// The stable sort of a list of paths under `Path`'s order.
pub open spec fn sorted_paths(s: Seq<Seq<char>>) -> Seq<Seq<char>>
    decreases s.len(),
{
    if s.len() == 0 {
        Seq::empty()
    } else {
        insert_sorted(sorted_paths(s.drop_last()), s.last())
    }
}

/// `Vec::dedup` under `Path`'s `==`: an element equal to the last one kept is dropped.
pub open spec fn dedup_paths(s: Seq<Seq<char>>) -> Seq<Seq<char>>
    decreases s.len(),
{
    if s.len() == 0 {
        Seq::empty()
    } else {
        let kept = dedup_paths(s.drop_last());
        if kept.len() > 0 && path_eq(s.last(), kept.last()) {
            kept
        } else {
            kept.push(s.last())
        }
    }
}

/// Does `root` sit inside another, different root of `all`.
pub open spec fn nested_in(root: Seq<char>, all: Seq<Seq<char>>) -> bool {
    exists|j: int| 0 <= j < all.len() && !path_eq(all[j], root) && path_starts_with(root, #[trigger] all[j])
}

/// The roots of `s` that do not sit inside another root of `all`, in order.
pub open spec fn outermost(s: Seq<Seq<char>>, all: Seq<Seq<char>>) -> Seq<Seq<char>>
    decreases s.len(),
{
    if s.len() == 0 {
        Seq::empty()
    } else {
        let rest = outermost(s.drop_last(), all);
        if nested_in(s.last(), all) {
            rest
        } else {
            rest.push(s.last())
        }
    }
}

/// Writable roots from resolved candidates: sorted, deduplicated, nested ones dropped.
pub open spec fn roots_of(resolved: Seq<Seq<char>>) -> Seq<Seq<char>> {
    let d = dedup_paths(sorted_paths(resolved));
    outermost(d, d)
}

/// The candidates to resolve on disk for a policy; `temp` is the process temp directory.
pub fn writable_candidates(policy: &Policy, temp: String) -> (r: Vec<String>)
    ensures
        views(r@) == candidates(*policy, temp@),
{
    let mut r: Vec<String> = Vec::new();
    if policy.mode == Mode::WorkspaceWrite {
        r.push(policy.workspace_root.clone());
        r.push(temp);
        r.push(String::from_str(TMP_DIR));
        r.push(String::from_str(VAR_TMP_DIR));
    }
    proof {
        assert(views(r@) =~= candidates(*policy, temp@));
    }
    r
}

/// The texts of the candidates that resolved, in order.
pub open spec fn resolved_texts(s: Seq<Option<String>>) -> Seq<Seq<char>>
    decreases s.len(),
{
    if s.len() == 0 {
        Seq::empty()
    } else {
        let rest = resolved_texts(s.drop_last());
        match s.last() {
            Some(t) => rest.push(t@),
            None => rest,
        }
    }
}

/// The candidates that resolved; an unresolvable path is dropped, never kept as written.
pub fn keep_resolved(resolved: Vec<Option<String>>) -> (r: Vec<String>)
    ensures
        views(r@) == resolved_texts(resolved@),
{
    let mut r: Vec<String> = Vec::new();
    let mut i: usize = 0;
    while i < resolved.len()
        invariant
            i <= resolved.len(),
            views(r@) == resolved_texts(resolved@.take(i as int)),
        decreases resolved.len() - i,
    {
        proof {
            assert(resolved@.take(i + 1).drop_last() =~= resolved@.take(i as int));
            assert(resolved@.take(i + 1).last() == resolved@[i as int]);
        }
        match &resolved[i] {
            Some(s) => {
                r.push(s.clone());
                proof {
                    assert(views(r@) =~= resolved_texts(resolved@.take(i as int)).push(s@));
                }
            },
            None => {},
        }
        i = i + 1;
    }
    proof {
        assert(resolved@.take(resolved.len() as int) =~= resolved@);
    }
    r
}

pub proof fn lemma_views_push(v: Seq<String>, x: String)
    ensures
        views(v.push(x)) == views(v).push(x@),
{
    assert(views(v.push(x)) =~= views(v).push(x@));
}

/// Insert `x` into a list already in order, after everything it is not strictly below.
fn insert_in_order(v: &mut Vec<String>, x: String)
    ensures
        views(final(v)@) == insert_sorted(views(old(v)@), x@),
{
    let ghost s = views(v@);
    let n = v.len();
    let mut p = n;
    proof {
        assert(s.take(n as int) =~= s);
        assert(s.subrange(n as int, n as int) =~= Seq::<Seq<char>>::empty());
        assert(insert_sorted(s, x@) =~= insert_sorted(s.take(n as int), x@) + s.subrange(n as int, n as int));
    }
    while p > 0 && path_less(x.as_str(), v[p - 1].as_str())
        invariant
            n == v.len(),
            s == views(v@),
            p <= n,
            insert_sorted(s, x@) == insert_sorted(s.take(p as int), x@) + s.subrange(p as int, n as int),
        decreases p,
    {
        proof {
            let t = s.take(p as int);
            assert(t.last() == s[p - 1]);
            assert(t.drop_last() =~= s.take(p - 1));
            assert(s.subrange(p - 1, n as int) =~= seq![s[p - 1]] + s.subrange(p as int, n as int));
            assert(insert_sorted(t, x@) == insert_sorted(s.take(p - 1), x@).push(s[p - 1]));
            assert(insert_sorted(s.take(p - 1), x@).push(s[p - 1]) + s.subrange(p as int, n as int)
                =~= insert_sorted(s.take(p - 1), x@) + s.subrange(p - 1, n as int));
        }
        p = p - 1;
    }
    proof {
        assert(insert_sorted(s.take(p as int), x@) =~= s.take(p as int).push(x@));
    }
    let ghost before = v@;
    v.insert(p, x);
    proof {
        assert(views(v@) =~= s.take(p as int).push(x@) + s.subrange(p as int, n as int)) by {
            assert forall|k: int| 0 <= k < v@.len() implies #[trigger] views(v@)[k] == (s.take(p as int).push(x@) + s.subrange(p as int, n as int))[k] by {
                if k < p {
                    assert(v@[k] == before[k]);
                } else if k > p {
                    assert(v@[k] == before[k - 1]);
                }
            }
        }
    }
}

/// Drop duplicate and nested roots, so a profile never lists the same area twice. The result
/// is in `Path` order: sorted, consecutive equals removed, then every root that sits inside
/// another, different one dropped.
pub fn dedup_nested(roots: Vec<String>) -> (r: Vec<String>)
    ensures
        views(r@) == roots_of(views(roots@)),
{
    let ghost input = views(roots@);
    // Sort, stably.
    let mut sorted: Vec<String> = Vec::new();
    let mut i: usize = 0;
    while i < roots.len()
        invariant
            input == views(roots@),
            i <= roots.len(),
            views(sorted@) == sorted_paths(input.take(i as int)),
        decreases roots.len() - i,
    {
        proof {
            assert(input.take(i + 1).drop_last() =~= input.take(i as int));
            assert(input.take(i + 1).last() == roots@[i as int]@);
        }
        insert_in_order(&mut sorted, roots[i].clone());
        i = i + 1;
    }
    proof {
        assert(input.take(roots.len() as int) =~= input);
    }
    let ghost s = views(sorted@);
    // Remove consecutive equals.
    let mut kept: Vec<String> = Vec::new();
    let mut i: usize = 0;
    while i < sorted.len()
        invariant
            s == views(sorted@),
            i <= sorted.len(),
            views(kept@) == dedup_paths(s.take(i as int)),
        decreases sorted.len() - i,
    {
        proof {
            assert(s.take(i + 1).drop_last() =~= s.take(i as int));
            assert(s.take(i + 1).last() == sorted@[i as int]@);
        }
        let n = kept.len();
        let repeated = n > 0 && path_same(sorted[i].as_str(), kept[n - 1].as_str());
        if !repeated {
            proof {
                lemma_views_push(kept@, sorted@[i as int]);
            }
            kept.push(sorted[i].clone());
        }
        i = i + 1;
    }
    proof {
        assert(s.take(sorted.len() as int) =~= s);
    }
    let ghost d = views(kept@);
    // Keep the outermost roots.
    let mut picked: Vec<String> = Vec::new();
    let mut i: usize = 0;
    while i < kept.len()
        invariant
            d == views(kept@),
            d == dedup_paths(s),
            i <= kept.len(),
            views(picked@) == outermost(d.take(i as int), d),
        decreases kept.len() - i,
    {
        proof {
            assert(d.take(i + 1).drop_last() =~= d.take(i as int));
            assert(d.take(i + 1).last() == d[i as int]);
        }
        let mut nested = false;
        let mut j: usize = 0;
        while j < kept.len()
            invariant
                d == views(kept@),
                i < kept.len(),
                j <= kept.len(),
                nested == exists|k: int| 0 <= k < j && !path_eq(d[k], d[i as int]) && path_starts_with(d[i as int], #[trigger] d[k]),
            decreases kept.len() - j,
        {
            let other_place = !path_same(kept[j].as_str(), kept[i].as_str());
            let inside = starts_with_path(kept[i].as_str(), kept[j].as_str());
            proof {
                assert(d[j as int] == kept@[j as int]@);
                assert(d[i as int] == kept@[i as int]@);
                if other_place && inside {
                    assert(0 <= j < j + 1 && !path_eq(d[j as int], d[i as int]) && path_starts_with(d[i as int], d[j as int]));
                } else if !nested {
                    assert forall|k: int| 0 <= k < j + 1 implies !(!path_eq(d[k], d[i as int]) && path_starts_with(d[i as int], #[trigger] d[k])) by {
                        if k < j {
                        }
                    }
                }
            }
            if other_place && inside {
                nested = true;
            }
            j = j + 1;
        }
        assert(nested == nested_in(d[i as int], d));
        if !nested {
            proof {
                lemma_views_push(picked@, kept@[i as int]);
            }
            picked.push(kept[i].clone());
        }
        i = i + 1;
    }
    proof {
        assert(d.take(kept.len() as int) =~= d);
    }
    picked
}

/// Does this path sit inside a writable root; `roots` are the policy's resolved writable roots.
/// Read-only allows no write at all, whatever roots are handed in; full access allows every
/// write. For the in-process guardrail and tests only.
pub fn is_writable(policy: &Policy, roots: &Vec<String>, path: &str) -> (r: bool)
    ensures
        r == (policy.mode == Mode::DangerFullAccess || (policy.mode == Mode::WorkspaceWrite
            && exists|i: int| 0 <= i < roots.len() && path_starts_with(path@, #[trigger] roots@[i]@))),
        policy.mode == Mode::ReadOnly ==> !r,
{
    match policy.mode {
        Mode::DangerFullAccess => return true,
        Mode::ReadOnly => return false,
        Mode::WorkspaceWrite => {},
    }
    let mut i: usize = 0;
    while i < roots.len()
        invariant
            policy.mode == Mode::WorkspaceWrite,
            i <= roots.len(),
            forall|k: int| 0 <= k < i ==> !path_starts_with(path@, #[trigger] roots@[k]@),
        decreases roots.len() - i,
    {
        if starts_with_path(path, roots[i].as_str()) {
            return true;
        }
        i = i + 1;
    }
    false
}

} // verus!
