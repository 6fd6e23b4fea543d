//! How the document service is started: the command, its arguments, where it runs, what is
//! added to its environment, and which project every call names.

use vstd::prelude::*;

use crate::sandbox::policy::views;
use crate::text::{lemma_text_lt_total, lemma_text_lt_transitive, text_less, text_lt};

verus! {

/// Variables added to the child's environment, ordered by name, each name once.
pub open spec fn sorted_env(env: Seq<(String, String)>) -> bool {
    forall|i: int, j: int| 0 <= i < j < env.len() ==> text_lt(#[trigger] env[i].0@, #[trigger] env[j].0@)
}

/// The environment as a map from name to value.
pub open spec fn env_map(env: Seq<(String, String)>) -> Map<Seq<char>, Seq<char>>
    decreases env.len(),
{
    if env.len() == 0 {
        Map::empty()
    } else {
        env_map(env.drop_last()).insert(env.last().0@, env.last().1@)
    }
}

#[derive(Clone, Debug)]
pub struct SidecarConfig {
    /// The command that runs the service; usually `uv`.
    pub command: String,
    pub args: Vec<String>,
    /// The child's working directory; with `uv`, where `pyproject.toml` lives.
    pub cwd: Option<String>,
    /// Added to the child's environment rather than replacing it; ordered by name.
    pub env: Vec<(String, String)>,
    /// The project id, sent with every call.
    pub project: String,
}

pub open spec fn uv_args() -> Seq<Seq<char>> {
    seq!["run"@, "--python"@, "3.12"@, "pai-rag"@, "serve"@]
}

/// Whether the variables are in strict name order.
fn env_sorted(env: &Vec<(String, String)>) -> (r: bool)
    ensures
        r == sorted_env(env@),
{
    let n = env.len();
    let mut i: usize = 1;
    if n == 0 {
        return true;
    }
    while i < n
        invariant
            n == env@.len(),
            1 <= i <= n,
            sorted_env(env@.take(i as int)),
        decreases n - i,
    {
        if !text_less(env[i - 1].0.as_str(), env[i].0.as_str()) {
            proof {
                assert(!text_lt(env@[i - 1].0@, env@[i as int].0@));
            }
            return false;
        }
        proof {
            let pre = env@.take(i as int);
            let next = env@.take(i + 1);
            assert forall|a: int, b: int| 0 <= a < b < next.len() implies text_lt(#[trigger] next[a].0@, #[trigger] next[b].0@) by {
                if b < i {
                    assert(next[a] == pre[a] && next[b] == pre[b]);
                } else if a < i - 1 {
                    assert(next[a] == pre[a] && pre[i - 1] == env@[i - 1]);
                    assert(text_lt(pre[a].0@, pre[i - 1].0@));
                    lemma_text_lt_transitive(env@[a].0@, env@[i - 1].0@, env@[i as int].0@);
                }
            }
        }
        i = i + 1;
    }
    proof {
        assert(env@.take(n as int) =~= env@);
    }
    true
}

impl SidecarConfig {
    /// Run the service with `uv` from its source directory; `uv` fetches the Python it needs.
    pub fn uv(service_dir: String, project: String) -> (c: SidecarConfig)
        ensures
            c.command@ == "uv"@,
            views(c.args@) == uv_args(),
            c.cwd matches Some(d) && d@ == service_dir@,
            c.env@.len() == 0,
            c.project@ == project@,
    {
        let mut args: Vec<String> = Vec::new();
        args.push(String::from_str("run"));
        args.push(String::from_str("--python"));
        args.push(String::from_str("3.12"));
        args.push(String::from_str("pai-rag"));
        args.push(String::from_str("serve"));
        proof {
            assert(views(args@) =~= uv_args());
        }
        SidecarConfig {
            command: String::from_str("uv"),
            args,
            cwd: Some(service_dir),
            env: Vec::new(),
            project,
        }
    }

    /// The same configuration with one more variable; a name already there gets the new value.
    /// A list kept in name order stays so; a list someone put out of order gets the variable
    /// at its end, where it still wins.
    pub fn with_env(self, key: String, value: String) -> (c: SidecarConfig)
        ensures
            sorted_env(self.env@) ==> sorted_env(c.env@),
            env_map(c.env@) == env_map(self.env@).insert(key@, value@),
            c.command == self.command && c.args == self.args && c.cwd == self.cwd && c.project == self.project,
    {
        let SidecarConfig { command, args, cwd, mut env, project } = self;
        if !env_sorted(&env) {
            let ghost before = env@;
            env.push((key, value));
            proof {
                assert(env@.drop_last() =~= before);
            }
            return SidecarConfig { command, args, cwd, env, project };
        }
        let ghost before = env@;
        let n = env.len();
        let mut p: usize = 0;
        while p < n && text_less(env[p].0.as_str(), key.as_str())
            invariant
                n == env@.len(),
                env@ == before,
                p <= n,
                forall|k: int| 0 <= k < p ==> text_lt(#[trigger] env@[k].0@, key@),
            decreases n - p,
        {
            p = p + 1;
        }
        let same = p < n && crate::text::str_eq(env[p].0.as_str(), key.as_str());
        proof {
            lemma_env_after(before, key@, p as int);
        }
        if same {
            env.set(p, (key, value));
            proof {
                lemma_env_replace(before, p as int, env@[p as int]);
            }
        } else {
            env.insert(p, (key, value));
            proof {
                lemma_env_insert(before, p as int, env@[p as int]);
            }
        }
        SidecarConfig { command, args, cwd, env, project }
    }
}

/// Past the first name that is not below `key`, every name is above it, or equal at that place.
proof fn lemma_env_after(env: Seq<(String, String)>, key: Seq<char>, p: int)
    requires
        sorted_env(env),
        0 <= p <= env.len(),
        p < env.len() ==> !text_lt(env[p].0@, key),
    ensures
        forall|k: int| p < k < env.len() ==> text_lt(key, #[trigger] env[k].0@),
        p < env.len() && env[p].0@ != key ==> text_lt(key, env[p].0@),
{
    if p < env.len() {
        lemma_text_lt_total(env[p].0@, key);
        assert forall|k: int| p < k < env.len() implies text_lt(key, #[trigger] env[k].0@) by {
            assert(text_lt(env[p].0@, env[k].0@));
            if env[p].0@ != key {
                lemma_text_lt_transitive(key, env[p].0@, env[k].0@);
            }
        }
    }
}

proof fn lemma_env_map_facts(env: Seq<(String, String)>)
    requires
        sorted_env(env),
    ensures
        forall|k: Seq<char>| #[trigger] env_map(env).dom().contains(k) <==> exists|i: int| 0 <= i < env.len() && env[i].0@ == k,
        forall|i: int| 0 <= i < env.len() ==> #[trigger] env_map(env)[env[i].0@] == env[i].1@,
    decreases env.len(),
{
    if env.len() > 0 {
        let init = env.drop_last();
        assert(sorted_env(init)) by {
            assert forall|i: int, j: int| 0 <= i < j < init.len() implies text_lt(#[trigger] init[i].0@, #[trigger] init[j].0@) by {
                assert(init[i] == env[i] && init[j] == env[j]);
            }
        }
        lemma_env_map_facts(init);
        assert(env_map(env) == env_map(init).insert(env.last().0@, env.last().1@));
        assert forall|k: Seq<char>| #[trigger] env_map(env).dom().contains(k) <==> exists|i: int| 0 <= i < env.len() && env[i].0@ == k by {
            if env_map(env).dom().contains(k) && k != env.last().0@ {
                assert(env_map(init).dom().contains(k));
                let i = choose|i: int| 0 <= i < init.len() && init[i].0@ == k;
                assert(env[i] == init[i]);
            }
            if exists|i: int| 0 <= i < env.len() && env[i].0@ == k {
                let i = choose|i: int| 0 <= i < env.len() && env[i].0@ == k;
                if i < env.len() - 1 {
                    assert(init[i] == env[i]);
                }
            }
        }
        assert forall|i: int| 0 <= i < env.len() implies #[trigger] env_map(env)[env[i].0@] == env[i].1@ by {
            if i < env.len() - 1 {
                assert(init[i] == env[i]);
                assert(env_map(init)[init[i].0@] == init[i].1@);
                assert(text_lt(env[i].0@, env[env.len() - 1].0@));
                crate::text::lemma_text_lt_irreflexive(env[i].0@);
                assert(env[i].0@ != env.last().0@);
            }
        }
    }
}

proof fn lemma_env_replace(env: Seq<(String, String)>, p: int, item: (String, String))
    requires
        sorted_env(env),
        0 <= p < env.len(),
        env[p].0@ == item.0@,
    ensures
        sorted_env(env.update(p, item)),
        env_map(env.update(p, item)) == env_map(env).insert(item.0@, item.1@),
{
    let after = env.update(p, item);
    assert(sorted_env(after)) by {
        assert forall|i: int, j: int| 0 <= i < j < after.len() implies text_lt(#[trigger] after[i].0@, #[trigger] after[j].0@) by {
            assert(text_lt(env[i].0@, env[j].0@));
        }
    }
    lemma_env_map_facts(env);
    lemma_env_map_facts(after);
    assert(env_map(after) =~= env_map(env).insert(item.0@, item.1@)) by {
        assert forall|k: Seq<char>| #[trigger] env_map(after).dom().contains(k) <==> env_map(env).insert(item.0@, item.1@).dom().contains(k) by {
            if env_map(after).dom().contains(k) {
                let i = choose|i: int| 0 <= i < after.len() && after[i].0@ == k;
                if i != p {
                    assert(after[i] == env[i]);
                }
            }
            if env_map(env).dom().contains(k) {
                let i = choose|i: int| 0 <= i < env.len() && env[i].0@ == k;
                if i != p {
                    assert(after[i] == env[i]);
                } else {
                    assert(after[p].0@ == k);
                }
            }
            if k == item.0@ {
                assert(after[p].0@ == k);
            }
        }
        assert forall|k: Seq<char>| #[trigger] env_map(after).dom().contains(k) implies env_map(after)[k] == env_map(env).insert(item.0@, item.1@)[k] by {
            let i = choose|i: int| 0 <= i < after.len() && after[i].0@ == k;
            if i != p {
                assert(after[i] == env[i]);
                if i < p {
                    assert(text_lt(env[i].0@, env[p].0@));
                } else {
                    assert(text_lt(env[p].0@, env[i].0@));
                }
                crate::text::lemma_text_lt_irreflexive(env[p].0@);
                assert(env_map(env)[env[i].0@] == env[i].1@);
            }
        }
    }
}

proof fn lemma_env_insert(env: Seq<(String, String)>, p: int, item: (String, String))
    requires
        sorted_env(env),
        0 <= p <= env.len(),
        forall|k: int| 0 <= k < p ==> text_lt(#[trigger] env[k].0@, item.0@),
        forall|k: int| p <= k < env.len() ==> text_lt(item.0@, #[trigger] env[k].0@),
    ensures
        sorted_env(env.insert(p, item)),
        env_map(env.insert(p, item)) == env_map(env).insert(item.0@, item.1@),
{
    let after = env.insert(p, item);
    assert(sorted_env(after)) by {
        assert forall|i: int, j: int| 0 <= i < j < after.len() implies text_lt(#[trigger] after[i].0@, #[trigger] after[j].0@) by {
            if j < p {
                assert(after[i] == env[i] && after[j] == env[j]);
            } else if j == p {
                assert(after[i] == env[i]);
            } else if i < p {
                assert(after[i] == env[i] && after[j] == env[j - 1]);
                lemma_text_lt_transitive(env[i].0@, item.0@, env[j - 1].0@);
            } else if i == p {
                assert(after[j] == env[j - 1]);
            } else {
                assert(after[i] == env[i - 1] && after[j] == env[j - 1]);
            }
        }
    }
    lemma_env_map_facts(env);
    lemma_env_map_facts(after);
    assert(env_map(after) =~= env_map(env).insert(item.0@, item.1@)) by {
        assert forall|k: Seq<char>| #[trigger] env_map(after).dom().contains(k) <==> env_map(env).insert(item.0@, item.1@).dom().contains(k) by {
            if env_map(after).dom().contains(k) {
                let i = choose|i: int| 0 <= i < after.len() && after[i].0@ == k;
                if i < p {
                    assert(after[i] == env[i]);
                } else if i > p {
                    assert(after[i] == env[i - 1]);
                }
            }
            if env_map(env).dom().contains(k) {
                let i = choose|i: int| 0 <= i < env.len() && env[i].0@ == k;
                if i < p {
                    assert(after[i] == env[i]);
                } else {
                    assert(after[i + 1] == env[i]);
                }
            }
            if k == item.0@ {
                assert(after[p].0@ == k);
            }
        }
        assert forall|k: Seq<char>| #[trigger] env_map(after).dom().contains(k) implies env_map(after)[k] == env_map(env).insert(item.0@, item.1@)[k] by {
            let i = choose|i: int| 0 <= i < after.len() && after[i].0@ == k;
            if i < p {
                assert(after[i] == env[i]);
                crate::text::lemma_text_lt_irreflexive(item.0@);
            } else if i > p {
                assert(after[i] == env[i - 1]);
                crate::text::lemma_text_lt_irreflexive(item.0@);
            }
        }
    }
}

/// The document library's plugin: how to start its service, and the folder it serves. The
/// library is that folder; nothing is copied.
pub struct RagPlugin {
    config: SidecarConfig,
    root: String,
}

impl RagPlugin {
    pub closed spec fn config_view(&self) -> SidecarConfig {
        self.config
    }

    pub closed spec fn root_text(&self) -> Seq<char> {
        self.root@
    }

    pub fn new(config: SidecarConfig, root: String) -> (p: RagPlugin)
        ensures
            p.config_view() == config,
            p.root_text() == root@,
    {
        RagPlugin { config, root }
    }

    pub fn config(&self) -> (r: &SidecarConfig)
        ensures
            *r == self.config_view(),
    {
        &self.config
    }

    pub fn root(&self) -> (r: &str)
        ensures
            r@ == self.root_text(),
    {
        self.root.as_str()
    }
}

} // verus!
