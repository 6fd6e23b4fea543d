//! Provider, vector store, chunking and rerank settings, and the rules that pick a project out
//! of the settings file. Reading and parsing the file is the caller's; what it means is here.

use vstd::prelude::*;

use crate::rag::error::RagError;
use crate::text::{blank, decimal, decimal_text, is_blank, str_eq, trim, trimmed};

verus! {

#[derive(Clone, Debug, PartialEq, Eq)]
pub struct ProviderConfig {
    pub kind: String,
    pub base_url: String,
    pub api_key: String,
    pub model: String,
    pub dim: Option<usize>,
}

pub const DEFAULT_PROVIDER_KIND: &'static str = "ollama";

pub const DEFAULT_PROVIDER_URL: &'static str = "http://127.0.0.1:11434";

impl Default for ProviderConfig {
    fn default() -> (r: ProviderConfig)
        ensures
            r.kind@ == DEFAULT_PROVIDER_KIND@,
            r.base_url@ == DEFAULT_PROVIDER_URL@,
            r.api_key@ == Seq::<char>::empty(),
            r.model@ == Seq::<char>::empty(),
            r.dim is None,
    {
        ProviderConfig {
            kind: String::from_str(DEFAULT_PROVIDER_KIND),
            base_url: String::from_str(DEFAULT_PROVIDER_URL),
            api_key: String::new(),
            model: String::new(),
            dim: None,
        }
    }
}

/// `s` without its trailing slashes.
pub open spec fn strip_slashes(s: Seq<char>) -> Seq<char>
    decreases s.len(),
{
    if s.len() > 0 && s.last() == '/' {
        strip_slashes(s.drop_last())
    } else {
        s
    }
}

/// The position just after the last `/` of `s`, or 0 when there is none.
pub open spec fn after_last_slash(s: Seq<char>) -> int
    decreases s.len(),
{
    if s.len() == 0 {
        0
    } else if s.last() == '/' {
        s.len() as int
    } else {
        after_last_slash(s.drop_last())
    }
}

/// An API version segment: `v` followed by one or more ASCII digits.
pub open spec fn version_segment(t: Seq<char>) -> bool {
    t.len() >= 2 && t[0] == 'v' && forall|i: int| 1 <= i < t.len() ==> '0' <= #[trigger] t[i] <= '9'
}

/// The server root of a provider URL: trimmed, trailing slashes dropped, and a final `/v1`
/// (any `/v<digits>`) cut off with the slashes before it.
pub open spec fn url_root(url: Seq<char>) -> Seq<char> {
    let value = strip_slashes(trimmed(url));
    let cut = after_last_slash(value);
    if version_segment(value.subrange(cut, value.len() as int)) {
        strip_slashes(value.subrange(0, cut))
    } else {
        value
    }
}

proof fn lemma_after_last_slash(s: Seq<char>)
    ensures
        0 <= after_last_slash(s) <= s.len(),
        after_last_slash(s) > 0 ==> s[after_last_slash(s) - 1] == '/',
        forall|i: int| after_last_slash(s) <= i < s.len() ==> #[trigger] s[i] != '/',
    decreases s.len(),
{
    if s.len() > 0 && s.last() != '/' {
        lemma_after_last_slash(s.drop_last());
        assert forall|i: int| after_last_slash(s) <= i < s.len() implies #[trigger] s[i] != '/' by {
            if i < s.len() - 1 {
                assert(s[i] == s.drop_last()[i]);
            }
        }
    }
}

proof fn lemma_strip_slashes_take(s: Seq<char>, j: int)
    requires
        0 <= j <= s.len(),
        forall|k: int| j <= k < s.len() ==> #[trigger] s[k] == '/',
        j == 0 || s[j - 1] != '/',
    ensures
        strip_slashes(s) == s.take(j),
    decreases s.len() - j,
{
    if j < s.len() {
        assert(s.drop_last().take(j) =~= s.take(j));
        assert forall|k: int| j <= k < s.len() - 1 implies #[trigger] s.drop_last()[k] == '/' by {
            assert(s.drop_last()[k] == s[k]);
        }
        if j > 0 {
            assert(s.drop_last()[j - 1] == s[j - 1]);
        }
        lemma_strip_slashes_take(s.drop_last(), j);
    } else {
        assert(s.take(j) =~= s);
        if j > 0 {
            assert(s.last() == s[j - 1]);
        }
    }
}

/// `trim_end_matches('/')`.
fn strip_trailing_slashes(s: &str) -> (r: &str)
    ensures
        r@ == strip_slashes(s@),
{
    let n = s.unicode_len();
    let mut b = n;
    while b > 0 && s.get_char(b - 1) == '/'
        invariant
            n == s@.len(),
            b <= n,
            forall|k: int| b <= k < n ==> #[trigger] s@[k] == '/',
        decreases b,
    {
        b = b - 1;
    }
    proof {
        lemma_strip_slashes_take(s@, b as int);
        assert(s@.take(b as int) =~= s@.subrange(0, b as int));
    }
    s.substring_char(0, b)
}

impl ProviderConfig {
    /// The server root, without an API version suffix: `http://host:1234/v1/` gives
    /// `http://host:1234`.
    pub fn root(&self) -> (r: String)
        ensures
            r@ == url_root(self.base_url@),
    {
        let value = strip_trailing_slashes(trim(self.base_url.as_str()));
        let n = value.unicode_len();
        let mut cut = n;
        proof {
            assert(value@.take(n as int) =~= value@);
        }
        while cut > 0 && value.get_char(cut - 1) != '/'
            invariant
                n == value@.len(),
                cut <= n,
                forall|k: int| cut <= k < n ==> #[trigger] value@[k] != '/',
                after_last_slash(value@) == after_last_slash(value@.take(cut as int)),
            decreases cut,
        {
            proof {
                let t = value@.take(cut as int);
                assert(t.drop_last() =~= value@.take(cut - 1));
                assert(t.last() == value@[cut - 1]);
            }
            cut = cut - 1;
        }
        proof {
            let t = value@.take(cut as int);
            if cut > 0 {
                assert(t.last() == value@[cut - 1]);
            } else {
                assert(t.len() == 0);
            }
        }
        let ghost tail = value@.subrange(cut as int, n as int);
        let mut version = cut < n && n - cut >= 2 && value.get_char(cut) == 'v';
        proof {
            if cut < n {
                assert(tail[0] == value@[cut as int]);
            }
        }
        let mut i = if version {
            cut + 1
        } else {
            n
        };
        while version && i < n
            invariant
                n == value@.len(),
                tail == value@.subrange(cut as int, n as int),
                version ==> (cut < i <= n && n >= cut + 2 && value@[cut as int] == 'v' && forall|k: int| cut + 1 <= k < i ==> '0' <= #[trigger] value@[k] <= '9'),
                !version ==> !version_segment(tail),
            decreases n - i,
        {
            let c = value.get_char(i);
            if c < '0' || c > '9' {
                proof {
                    assert(tail[i - cut] == c);
                }
                version = false;
            }
            i = i + 1;
        }
        proof {
            assert(after_last_slash(value@) == cut as int);
            if version {
                assert(tail[0] == value@[cut as int]);
                assert forall|k: int| 1 <= k < tail.len() implies '0' <= #[trigger] tail[k] <= '9' by {
                    assert(tail[k] == value@[cut + k]);
                }
                assert(version_segment(tail));
            }
            assert(value@.subrange(0, cut as int) == value@.subrange(0, cut as int));
        }
        if version {
            String::from_str(strip_trailing_slashes(value.substring_char(0, cut)))
        } else {
            String::from_str(value)
        }
    }
}

#[derive(Clone, Debug, PartialEq, Eq)]
pub struct VectorConfig {
    pub url: String,
    pub api_key: String,
    pub collection_prefix: String,
}

pub const DEFAULT_VECTOR_URL: &'static str = "http://127.0.0.1:6333";

pub const DEFAULT_COLLECTION_PREFIX: &'static str = "pai_docs";

impl Default for VectorConfig {
    fn default() -> (r: VectorConfig)
        ensures
            r.url@ == DEFAULT_VECTOR_URL@,
            r.api_key@ == Seq::<char>::empty(),
            r.collection_prefix@ == DEFAULT_COLLECTION_PREFIX@,
    {
        VectorConfig {
            url: String::from_str(DEFAULT_VECTOR_URL),
            api_key: String::new(),
            collection_prefix: String::from_str(DEFAULT_COLLECTION_PREFIX),
        }
    }
}

#[derive(Clone, Debug, PartialEq, Eq, Structural)]
pub struct ChunkConfig {
    pub size: usize,
    pub overlap: usize,
}

impl Default for ChunkConfig {
    fn default() -> (r: ChunkConfig)
        ensures
            r.size == 1400,
            r.overlap == 180,
    {
        ChunkConfig { size: 1400, overlap: 180 }
    }
}

#[derive(Clone, Debug, PartialEq, Eq)]
pub struct RerankConfig {
    pub enabled: bool,
    pub backend: String,
    pub model: String,
    pub candidates: usize,
    pub top_n: usize,
    pub url: String,
    pub api_key: String,
}

pub const DEFAULT_RERANK_BACKEND: &'static str = "http";

impl Default for RerankConfig {
    fn default() -> (r: RerankConfig)
        ensures
            !r.enabled,
            r.backend@ == DEFAULT_RERANK_BACKEND@,
            r.model@ == Seq::<char>::empty(),
            r.candidates == 30,
            r.top_n == 8,
            r.url@ == Seq::<char>::empty(),
            r.api_key@ == Seq::<char>::empty(),
    {
        RerankConfig {
            enabled: false,
            backend: String::from_str(DEFAULT_RERANK_BACKEND),
            model: String::new(),
            candidates: 30,
            top_n: 8,
            url: String::new(),
            api_key: String::new(),
        }
    }
}

/// The vector collection of a project: `<prefix>_<project>`.
pub open spec fn collection_of(prefix: Seq<char>, project: Seq<char>) -> Seq<char> {
    prefix + "_"@ + project
}

pub fn collection(prefix: &str, project: &str) -> (r: String)
    ensures
        r@ == collection_of(prefix@, project@),
{
    String::from_str(prefix).concat("_").concat(project)
}

/// The only settings version this library reads.
pub const CONFIG_VERSION: u32 = 1;

pub open spec fn version_refusal(version: u32) -> Seq<char> {
    "không hỗ trợ phiên bản cấu hình RAG "@ + decimal_text(version as nat)
}

/// Settings in another version are refused by number.
pub fn check_version(version: u32) -> (r: Result<(), RagError>)
    ensures
        version == CONFIG_VERSION ==> r is Ok,
        version != CONFIG_VERSION ==> (r matches Err(RagError::Service(e)) && e@ == version_refusal(version)),
{
    if version != CONFIG_VERSION {
        return Err(RagError::Service(String::from_str("không hỗ trợ phiên bản cấu hình RAG ").concat(
            decimal(version as u64).as_str(),
        )));
    }
    Ok(())
}

/// A project id that is safe to delete a directory by: not empty, not `.` or `..`, no separator.
pub open spec fn safe_project_id(project: Seq<char>) -> bool {
    &&& project.len() > 0
    &&& project != "."@
    &&& project != ".."@
    &&& !project.contains('/')
    &&& !project.contains('\\')
}

pub const UNSAFE_PROJECT: &'static str = "mã dự án cần xoá không hợp lệ";

pub fn check_purge_project(project: &str) -> (r: Result<(), RagError>)
    ensures
        safe_project_id(project@) ==> r is Ok,
        !safe_project_id(project@) ==> (r matches Err(RagError::Service(e)) && e@ == UNSAFE_PROJECT@),
{
    let n = project.unicode_len();
    let mut separator = false;
    let mut i: usize = 0;
    while i < n
        invariant
            n == project@.len(),
            i <= n,
            separator == exists|k: int| 0 <= k < i && (project@[k] == '/' || project@[k] == '\\'),
        decreases n - i,
    {
        let c = project.get_char(i);
        if c == '/' || c == '\\' {
            separator = true;
        }
        i = i + 1;
    }
    proof {
        if project@.contains('/') {
            let k = choose|k: int| 0 <= k < project@.len() && project@[k] == '/';
            assert(project@[k] == '/');
        }
        if project@.contains('\\') {
            let k = choose|k: int| 0 <= k < project@.len() && project@[k] == '\\';
            assert(project@[k] == '\\');
        }
        if separator {
            let k = choose|k: int| 0 <= k < n && (project@[k] == '/' || project@[k] == '\\');
            assert(project@.contains(project@[k]));
        }
    }
    if n == 0 || str_eq(project, ".") || str_eq(project, "..") || separator {
        return Err(RagError::Service(String::from_str(UNSAFE_PROJECT)));
    }
    Ok(())
}

/// A project entry of the settings file.
#[derive(Clone, Debug)]
pub struct ProjectEntry {
    pub id: String,
    pub root: String,
}

pub const NO_PROJECT: &'static str = "chưa có dự án tài liệu đang mở";

/// The id asked for, or the active project when none is asked for; both trimmed.
pub open spec fn chosen_id(wanted: Seq<char>, active: Seq<char>) -> Seq<char> {
    if trimmed(wanted).len() == 0 {
        trimmed(active)
    } else {
        trimmed(wanted)
    }
}

/// The root of the first project carrying `id`, or `fallback`.
pub open spec fn root_for(projects: Seq<ProjectEntry>, id: Seq<char>, fallback: Seq<char>) -> Seq<char>
    decreases projects.len(),
{
    if projects.len() == 0 {
        fallback
    } else if projects[0].id@ == id {
        projects[0].root@
    } else {
        root_for(projects.drop_first(), id, fallback)
    }
}

/// The project a library opens: the one asked for, else the active one, with its root from the
/// settings or the fallback; refused when no project is named at all.
pub fn select_project(wanted: &str, active: &str, projects: &Vec<ProjectEntry>, fallback_root: &str) -> (r: Result<(String, String), RagError>)
    ensures
        chosen_id(wanted@, active@).len() == 0 ==> (r matches Err(RagError::Unavailable(e)) && e@ == NO_PROJECT@),
        chosen_id(wanted@, active@).len() > 0 ==> (r matches Ok((id, root)) && id@ == chosen_id(wanted@, active@)
            && root@ == root_for(projects@, chosen_id(wanted@, active@), fallback_root@)),
{
    let w = trim(wanted);
    let id = if w.unicode_len() == 0 {
        trim(active)
    } else {
        w
    };
    let mut root: Option<String> = None;
    let mut i: usize = 0;
    proof {
        assert(projects@.skip(0) =~= projects@);
    }
    while i < projects.len()
        invariant
            i <= projects@.len(),
            id@ == chosen_id(wanted@, active@),
            match root {
                Some(r) => r@ == root_for(projects@, id@, fallback_root@),
                None => root_for(projects@, id@, fallback_root@) == root_for(projects@.skip(i as int), id@, fallback_root@),
            },
        decreases projects.len() - i,
    {
        if root.is_none() {
            proof {
                let rest = projects@.skip(i as int);
                assert(rest[0] == projects@[i as int]);
                assert(rest.drop_first() =~= projects@.skip(i + 1));
            }
            if str_eq(projects[i].id.as_str(), id) {
                root = Some(projects[i].root.clone());
            }
        }
        i = i + 1;
    }
    if id.unicode_len() == 0 {
        return Err(RagError::Unavailable(String::from_str(NO_PROJECT)));
    }
    let root = match root {
        Some(r) => r,
        None => {
            proof {
                assert(projects@.skip(projects.len() as int).len() == 0);
            }
            String::from_str(fallback_root)
        },
    };
    Ok((String::from_str(id), root))
}

/// The settings a running library is built from and rebuilds on a reload.
#[derive(Clone, Debug)]
pub struct LiveSettings {
    pub embedding: ProviderConfig,
    pub vision: ProviderConfig,
    pub vectors: VectorConfig,
    pub chunk: ChunkConfig,
}

/// Two provider settings are the same when every field is.
pub open spec fn same_provider(a: ProviderConfig, b: ProviderConfig) -> bool {
    a.kind@ == b.kind@ && a.base_url@ == b.base_url@ && a.api_key@ == b.api_key@ && a.model@ == b.model@
        && a.dim == b.dim
}

pub open spec fn same_vectors(a: VectorConfig, b: VectorConfig) -> bool {
    a.url@ == b.url@ && a.api_key@ == b.api_key@ && a.collection_prefix@ == b.collection_prefix@
}

fn provider_eq(a: &ProviderConfig, b: &ProviderConfig) -> (r: bool)
    ensures
        r == same_provider(*a, *b),
{
    str_eq(a.kind.as_str(), b.kind.as_str()) && str_eq(a.base_url.as_str(), b.base_url.as_str()) && str_eq(
        a.api_key.as_str(),
        b.api_key.as_str(),
    ) && str_eq(a.model.as_str(), b.model.as_str()) && a.dim == b.dim
}

fn vectors_eq(a: &VectorConfig, b: &VectorConfig) -> (r: bool)
    ensures
        r == same_vectors(*a, *b),
{
    str_eq(a.url.as_str(), b.url.as_str()) && str_eq(a.api_key.as_str(), b.api_key.as_str()) && str_eq(
        a.collection_prefix.as_str(),
        b.collection_prefix.as_str(),
    )
}

/// What a reload rebuilds: the embedding client when the embedding or vector settings changed
/// (and then the store's recorded identity is written again and the last embedding error is
/// cleared), the vision client when its settings changed, and every file fingerprint when
/// chunking changed, so the next scan cuts again. A rebuilt client exists only when its model
/// is not blank.
#[derive(Clone, Copy, Debug, PartialEq, Eq, Structural)]
pub struct ReloadPlan {
    pub rebuild_embedder: bool,
    pub rebuild_vision: bool,
    pub reset_fingerprints: bool,
    /// The last embedding error belongs to the old settings.
    pub clear_embed_error: bool,
    /// A rebuilt embedding client exists: the new settings name a model.
    pub embedder: bool,
    /// A rebuilt vision client exists: the new settings name a model.
    pub vision: bool,
}

/// What changed between the running settings and the ones just read.
pub fn reload_plan(running: &LiveSettings, fresh: &LiveSettings) -> (r: ReloadPlan)
    ensures
        r.rebuild_embedder == !(same_provider(running.embedding, fresh.embedding) && same_vectors(
            running.vectors,
            fresh.vectors,
        )),
        r.rebuild_vision == !same_provider(running.vision, fresh.vision),
        r.reset_fingerprints == (running.chunk != fresh.chunk),
        r.clear_embed_error == r.rebuild_embedder,
        r.embedder == !blank(fresh.embedding.model@),
        r.vision == !blank(fresh.vision.model@),
{
    let embedding = provider_eq(&running.embedding, &fresh.embedding);
    let vectors = vectors_eq(&running.vectors, &fresh.vectors);
    let vision = provider_eq(&running.vision, &fresh.vision);
    let chunk = running.chunk.size == fresh.chunk.size && running.chunk.overlap == fresh.chunk.overlap;
    ReloadPlan {
        rebuild_embedder: !(embedding && vectors),
        rebuild_vision: !vision,
        reset_fingerprints: !chunk,
        clear_embed_error: !(embedding && vectors),
        embedder: !is_blank(fresh.embedding.model.as_str()),
        vision: !is_blank(fresh.vision.model.as_str()),
    }
}

/// The step a library takes when asked for its runtime: nothing when the settings file has not
/// changed since the last read; a refusal when the new settings move the store or the project
/// folder, since the open store would be the wrong one; otherwise the reload plan.
pub fn reload_step(settings_changed: bool, store_path_changed: bool, root_changed: bool, running: &LiveSettings, fresh: &LiveSettings) -> (r: Result<Option<ReloadPlan>, RagError>)
    ensures
        !settings_changed ==> r == Ok::<Option<ReloadPlan>, RagError>(None),
        settings_changed && (store_path_changed || root_changed) ==> (r matches Err(RagError::Service(e))
            && e@ == crate::rag::native::library::MOVED_REFUSAL@),
        settings_changed && !(store_path_changed || root_changed) ==> (r matches Ok(Some(p)) && {
            &&& p.rebuild_embedder == !(same_provider(running.embedding, fresh.embedding) && same_vectors(running.vectors, fresh.vectors))
            &&& p.rebuild_vision == !same_provider(running.vision, fresh.vision)
            &&& p.reset_fingerprints == (running.chunk != fresh.chunk)
            &&& p.clear_embed_error == p.rebuild_embedder
            &&& p.embedder == !blank(fresh.embedding.model@)
            &&& p.vision == !blank(fresh.vision.model@)
        }),
{
    if !settings_changed {
        return Ok(None);
    }
    match crate::rag::native::library::check_reload(store_path_changed, root_changed) {
        Ok(()) => Ok(Some(reload_plan(running, fresh))),
        Err(e) => Err(e),
    }
}

} // verus!
