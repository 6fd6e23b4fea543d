//! The in-process library's decisions: which search a query gets, what a document is called,
//! how a run is reported, when semantic search is ready and why not, and how a PDF is read.
//! The stores, the services and the files are the caller's; every choice between them is here.

use vstd::prelude::*;
use vstd::utf8::encode_utf8;

use crate::rag::error::RagError;
use crate::rag::format::Format;
use crate::rag::library::{IngestEvent, IngestStage, Scanning};
use crate::rag::native::embedding::EMBED_INPUT_VERSION;
use crate::rag::native::extract::{EXTRACT_VERSION, Extracted, ReaderKind, title_from};
use crate::rag::paths::{path_relative, relative_to};
use crate::text::{
    blank, byte_pos, char_width, decimal, decimal_text, hex_char, hex_digit, is_blank, is_whitespace, is_ws,
    lemma_byte_pos_step, lemma_encode_concat, str_eq, trim, trimmed,
};

verus! {

/// `char::is_alphabetic`: the Unicode `Alphabetic` property.
pub uninterp spec fn alphabetic(c: char) -> bool;

/// Calls `char::is_alphabetic`. The result is taken as `alphabetic` of the character; ASCII
/// letters have the property and ASCII digits do not, as the Unicode tables say.
#[verifier::external_body]
fn is_alphabetic(c: char) -> (r: bool)
    ensures
        r == alphabetic(c),
        ('a' <= c <= 'z' || 'A' <= c <= 'Z') ==> r,
        ('0' <= c <= '9') ==> !r,
{
    c.is_alphabetic()
}

/// `s[a..b]` is a whole whitespace-separated token of `s`.
pub open spec fn token_at(s: Seq<char>, a: int, b: int) -> bool {
    &&& 0 <= a < b <= s.len()
    &&& forall|k: int| a <= k < b ==> !is_ws(#[trigger] s[k])
    &&& (a == 0 || is_ws(s[a - 1]))
    &&& (b == s.len() || is_ws(s[b]))
}

/// A token that looks like an identifier: at least three bytes, an ASCII digit and a letter.
pub open spec fn identifier_like(t: Seq<char>) -> bool {
    &&& encode_utf8(t).len() >= 3
    &&& exists|k: int| 0 <= k < t.len() && '0' <= #[trigger] t[k] <= '9'
    &&& exists|k: int| 0 <= k < t.len() && alphabetic(#[trigger] t[k])
}

/// Quoted text, or an identifier such as `HD-2026-0042`, is searched by keyword: embeddings blur
/// exactly the characters that make such a query precise.
pub open spec fn keyword_query(q: Seq<char>) -> bool {
    ||| q.contains('"')
    ||| (q.contains('“') && q.contains('”'))
    ||| exists|a: int, b: int| token_at(q, a, b) && identifier_like(#[trigger] q.subrange(a, b))
}

proof fn lemma_sub_bytes(s: Seq<char>, a: int, b: int)
    requires
        0 <= a <= b <= s.len(),
    ensures
        encode_utf8(s.subrange(a, b)).len() == byte_pos(s, b) - byte_pos(s, a),
{
    assert(s.take(b) =~= s.take(a) + s.subrange(a, b));
    lemma_encode_concat(s.take(a), s.subrange(a, b));
}

/// The token that ends at `b` starts where the current run started.
proof fn lemma_token_start(s: Seq<char>, st: int, a: int, b: int)
    requires
        token_at(s, a, b),
        0 <= st < b,
        st == 0 || is_ws(s[st - 1]),
        forall|k: int| st <= k < b ==> !is_ws(#[trigger] s[k]),
    ensures
        a == st,
{
    if a < st {
        assert(!is_ws(s[st - 1]));
    } else if a > st {
        assert(!is_ws(s[a - 1]));
    }
}

fn contains_char(s: &str, c: char) -> (r: bool)
    ensures
        r == s@.contains(c),
{
    let n = s.unicode_len();
    let mut i: usize = 0;
    while i < n
        invariant
            n == s@.len(),
            i <= n,
            forall|k: int| 0 <= k < i ==> s@[k] != c,
        decreases n - i,
    {
        if s.get_char(i) == c {
            proof {
                assert(s@[i as int] == c);
            }
            return true;
        }
        i = i + 1;
    }
    false
}

pub fn prefers_keyword(query: &str) -> (r: bool)
    ensures
        r == keyword_query(query@),
{
    if contains_char(query, '"') || (contains_char(query, '“') && contains_char(query, '”')) {
        return true;
    }
    let ghost s = query@;
    let n = query.unicode_len();
    let mut i: usize = 0;
    let mut in_run = false;
    let mut st: usize = 0;
    let mut bytes: usize = 0;
    let mut digit = false;
    let mut alpha = false;
    while i <= n
        invariant
            n == s.len(),
            s == query@,
            i <= n + 1,
            i <= n ==> (in_run ==> (st < i && (st == 0 || is_ws(s[st - 1])) && (forall|k: int| st <= k < i ==> !is_ws(#[trigger] s[k]))
                && bytes == (if byte_pos(s, i as int) - byte_pos(s, st as int) < 3 { byte_pos(s, i as int) - byte_pos(s, st as int) } else { 3 })
                && (digit == exists|k: int| st <= k < i && '0' <= #[trigger] s[k] <= '9')
                && (alpha == exists|k: int| st <= k < i && alphabetic(#[trigger] s[k])))),
            i <= n ==> (!in_run ==> (i == 0 || is_ws(s[i - 1]))),
            forall|a: int, b: int| #![trigger s.subrange(a, b)] token_at(s, a, b) && b < i ==> !identifier_like(s.subrange(a, b)),
            !s.contains('"'),
            !(s.contains('“') && s.contains('”')),
        decreases n + 1 - i,
    {
        let at_end = i == n;
        let blank = at_end || is_whitespace(query.get_char(i));
        if blank {
            if in_run {
                proof {
                    lemma_sub_bytes(s, st as int, i as int);
                    let t = s.subrange(st as int, i as int);
                    assert(token_at(s, st as int, i as int));
                    assert((exists|k: int| 0 <= k < t.len() && '0' <= #[trigger] t[k] <= '9') == digit) by {
                        if digit {
                            let k = choose|k: int| st <= k < i && '0' <= #[trigger] s[k] <= '9';
                            assert(t[k - st] == s[k]);
                        }
                        if exists|k: int| 0 <= k < t.len() && '0' <= #[trigger] t[k] <= '9' {
                            let k = choose|k: int| 0 <= k < t.len() && '0' <= #[trigger] t[k] <= '9';
                            assert(t[k] == s[k + st]);
                        }
                    }
                    assert((exists|k: int| 0 <= k < t.len() && alphabetic(#[trigger] t[k])) == alpha) by {
                        if alpha {
                            let k = choose|k: int| st <= k < i && alphabetic(#[trigger] s[k]);
                            assert(t[k - st] == s[k]);
                        }
                        if exists|k: int| 0 <= k < t.len() && alphabetic(#[trigger] t[k]) {
                            let k = choose|k: int| 0 <= k < t.len() && alphabetic(#[trigger] t[k]);
                            assert(t[k] == s[k + st]);
                        }
                    }
                }
                if bytes >= 3 && digit && alpha {
                    proof {
                        assert(token_at(s, st as int, i as int) && identifier_like(s.subrange(st as int, i as int)));
                    }
                    return true;
                }
                proof {
                    assert forall|a: int, b: int| #![trigger s.subrange(a, b)] token_at(s, a, b) && b < i + 1 implies !identifier_like(s.subrange(a, b)) by {
                        if b == i {
                            lemma_token_start(s, st as int, a, b);
                        }
                    }
                }
            } else {
                proof {
                    assert forall|a: int, b: int| #![trigger s.subrange(a, b)] token_at(s, a, b) && b < i + 1 implies !identifier_like(s.subrange(a, b)) by {
                        if b == i {
                            assert(!is_ws(s[b - 1]));
                        }
                    }
                }
            }
            in_run = false;
            bytes = 0;
            digit = false;
            alpha = false;
        } else {
            let c = query.get_char(i);
            proof {
                assert forall|a: int, b: int| #![trigger s.subrange(a, b)] token_at(s, a, b) && b < i + 1 implies !identifier_like(s.subrange(a, b)) by {
                    if b == i {
                        assert(!is_ws(s[b]));
                    }
                }
            }
            if !in_run {
                in_run = true;
                st = i;
                bytes = 0;
                digit = false;
                alpha = false;
            }
            proof {
                lemma_byte_pos_step(s, i as int);
            }
            let w = char_width(c);
            bytes = if bytes + w < 3 {
                bytes + w
            } else {
                3
            };
            if '0' <= c && c <= '9' {
                digit = true;
            }
            if is_alphabetic(c) {
                alpha = true;
            }
        }
        if at_end {
            proof {
                assert forall|a: int, b: int| token_at(s, a, b) implies !identifier_like(#[trigger] s.subrange(a, b)) by {
                    assert(b < i + 1);
                }
            }
            return false;
        }
        i = i + 1;
    }
    false
}

/// The SHA-1 digest of some bytes.
pub uninterp spec fn sha1_digest(data: Seq<u8>) -> Seq<u8>;

/// Calls `sha1::Sha1::digest` through the `Digest` trait. The digest is taken as `sha1_digest`
/// of the bytes; SHA-1 digests are 20 bytes long.
#[verifier::external_body]
fn sha1_of(data: &[u8]) -> (r: Vec<u8>)
    ensures
        r@ == sha1_digest(data@),
        r@.len() == 20,
{
    <sha1::Sha1 as sha1::Digest>::digest(data).to_vec()
}

/// Bytes as lower-case hexadecimal, two digits each.
pub open spec fn hex_of(bytes: Seq<u8>) -> Seq<char>
    decreases bytes.len(),
{
    if bytes.len() == 0 {
        Seq::empty()
    } else {
        hex_of(bytes.drop_last()) + seq![hex_digit((bytes.last() / 16) as nat), hex_digit((bytes.last() % 16) as nat)]
    }
}

/// Backslashes turned into forward slashes, so an id does not depend on the platform.
pub open spec fn forward_slashes(s: Seq<char>) -> Seq<char> {
    s.map_values(|c: char| if c == '\\' { '/' } else { c })
}

/// A document's identity: its path relative to the library root (the whole path when it lies
/// elsewhere), with forward slashes.
pub open spec fn identity_of(root: Seq<char>, path: Seq<char>) -> Seq<char> {
    forward_slashes(
        match relative_to(path, root) {
            Some(rel) => rel,
            None => path,
        },
    )
}

/// The id of a document: the first eight bytes of the SHA-1 of its identity, in hex. The same
/// file gets the same id on every machine and in every run.
pub open spec fn document_id_of(root: Seq<char>, path: Seq<char>) -> Seq<char> {
    hex_of(sha1_digest(encode_utf8(identity_of(root, path))).take(8))
}

pub fn document_id(root: &str, path: &str) -> (r: String)
    ensures
        r@ == document_id_of(root@, path@),
{
    let relative = match path_relative(path, root) {
        Some(rel) => rel,
        None => String::from_str(path),
    };
    let n = relative.unicode_len();
    let mut identity = String::new();
    let mut i: usize = 0;
    while i < n
        invariant
            n == relative@.len(),
            i <= n,
            identity@ == forward_slashes(relative@.take(i as int)),
        decreases n - i,
    {
        let c = relative.as_str().get_char(i);
        if c == '\\' {
            identity.append("/");
        } else {
            identity.append(relative.as_str().substring_char(i, i + 1));
        }
        proof {
            reveal_strlit("/");
            assert(identity@ =~= forward_slashes(relative@.take(i + 1)));
        }
        i = i + 1;
    }
    proof {
        assert(relative@.take(n as int) =~= relative@);
    }
    let digest = sha1_of(identity.as_str().as_bytes());
    let mut out = String::new();
    let mut k: usize = 0;
    while k < 8
        invariant
            digest@.len() == 20,
            k <= 8,
            out@ == hex_of(digest@.take(k as int)),
        decreases 8 - k,
    {
        let byte = digest[k];
        out.append(hex_char(byte / 16));
        out.append(hex_char(byte % 16));
        proof {
            assert(digest@.take(k + 1).drop_last() =~= digest@.take(k as int));
            assert(out@ =~= hex_of(digest@.take(k + 1)));
        }
        k = k + 1;
    }
    out
}

/// One progress event; `finished` exactly for the finishing stage.
pub fn event(stage: IngestStage, path: String, error: Option<String>, done: u32, total: u32) -> (r: IngestEvent)
    ensures
        r.stage == stage,
        r.path == path,
        r.error == error,
        r.done == done,
        r.total == total,
        r.finished == (stage == IngestStage::Finished),
        r.document is None,
{
    IngestEvent { path, stage, done, total, finished: stage == IngestStage::Finished, error, document: None }
}

/// An event of this stage, path, error and counts, with no document attached.
pub open spec fn reports(e: IngestEvent, stage: IngestStage, path: Seq<char>, error: Option<String>, done: u32, total: u32) -> bool {
    &&& e.stage == stage
    &&& e.path@ == path
    &&& e.error == error
    &&& e.done == done
    &&& e.total == total
    &&& e.finished == (stage == IngestStage::Finished)
    &&& e.document is None
}

/// The tally of one ingest run.
#[derive(Debug)]
pub struct RunReport {
    pub scanned: u32,
    pub ingested: u32,
    pub unchanged: u32,
    pub over_limit: u32,
    pub excluded: u32,
    pub embedded: u32,
    /// Each failed file with the reason it failed, in the order they were tried.
    pub failures: Vec<(String, String)>,
    pub embed_error: Option<String>,
    /// The per-file progress so far: `Reading` as a file is opened, `Stored` once it is in.
    pub progress: Vec<IngestEvent>,
}

impl RunReport {
    /// A run over `scanned` files, `over_limit` of them past the file cap.
    pub fn new(scanned: u32, over_limit: u32) -> (r: RunReport)
        ensures
            r.scanned == scanned,
            r.over_limit == over_limit,
            r.ingested == 0 && r.unchanged == 0 && r.excluded == 0 && r.embedded == 0,
            r.failures@.len() == 0,
            r.embed_error is None,
            r.progress@.len() == 0,
    {
        RunReport {
            scanned,
            ingested: 0,
            unchanged: 0,
            over_limit,
            excluded: 0,
            embedded: 0,
            failures: Vec::new(),
            embed_error: None,
            progress: Vec::new(),
        }
    }

    /// The events a finished run reports: the per-file progress in the order it happened; one
    /// failure per failed file, in order; the embedding error if the catch-up pass failed; and
    /// always a final `Finished`.
    pub fn events(self, root: &str) -> (r: Vec<IngestEvent>)
        ensures
            r@.len() == self.progress@.len() + self.failures@.len() + (if self.embed_error is Some { 1int } else { 0int }) + 1,
            r@.take(self.progress@.len() as int) == self.progress@,
            forall|i: int| 0 <= i < self.failures@.len() ==> reports(#[trigger] r@[self.progress@.len() + i], IngestStage::Failed,
                self.failures@[i].0@, Some(self.failures@[i].1), self.ingested, self.scanned),
            self.embed_error matches Some(err) ==> reports(r@[self.progress@.len() + self.failures@.len() as int], IngestStage::Embedding,
                root@, Some(err), self.ingested, self.scanned),
            reports(r@.last(), IngestStage::Finished, root@, None, self.ingested, self.scanned),
    {
        let RunReport { scanned, ingested, failures, embed_error, progress, .. } = self;
        let ghost all = failures@;
        let ghost before = progress@;
        let mut events: Vec<IngestEvent> = progress;
        let mut i: usize = 0;
        while i < failures.len()
            invariant
                all == failures@,
                i <= all.len(),
                events@.len() == before.len() + i,
                events@.take(before.len() as int) == before,
                forall|k: int| 0 <= k < i ==> reports(#[trigger] events@[before.len() + k], IngestStage::Failed,
                    all[k].0@, Some(all[k].1), ingested, scanned),
            decreases failures.len() - i,
        {
            let path = failures[i].0.clone();
            let reason = failures[i].1.clone();
            let ghost prev = events@;
            events.push(event(IngestStage::Failed, path, Some(reason), ingested, scanned));
            proof {
                assert(events@.take(before.len() as int) =~= prev.take(before.len() as int));
                assert forall|k: int| 0 <= k < i + 1 implies reports(#[trigger] events@[before.len() + k], IngestStage::Failed,
                    all[k].0@, Some(all[k].1), ingested, scanned) by {
                    if k < i {
                        assert(events@[before.len() + k] == prev[before.len() + k]);
                    }
                }
            }
            i = i + 1;
        }
        let ghost mid = events@;
        match embed_error {
            Some(error) => {
                events.push(event(IngestStage::Embedding, String::from_str(root), Some(error), ingested, scanned));
            },
            None => {},
        }
        events.push(event(IngestStage::Finished, String::from_str(root), None, ingested, scanned));
        proof {
            assert(events@.take(before.len() as int) =~= mid.take(before.len() as int));
            assert forall|k: int| 0 <= k < all.len() implies reports(#[trigger] events@[before.len() + k], IngestStage::Failed,
                all[k].0@, Some(all[k].1), ingested, scanned) by {
                assert(events@[before.len() + k] == mid[before.len() + k]);
            }
        }
        events
    }
}

pub const NO_EMBEDDER_REASON: &'static str = "Chưa chọn mô hình nhúng; tìm kiếm đang dùng từ khoá.";

pub const UNREACHABLE_REASON: &'static str = "Qdrant không trả lời; tìm kiếm đang dùng từ khoá.";

pub const NO_CHUNKS_REASON: &'static str = "Thư viện chưa có đoạn nào để nhúng.";

/// Semantic search is ready when the vector store answers and holds a vector for every chunk.
pub open spec fn semantic_ready(reachable: bool, chunks: u32, vectors: u32) -> bool {
    reachable && chunks > 0 && vectors >= chunks
}

/// Why results are keyword-only, checked in order: no model, the last embedding error, a
/// silent vector store, nothing to embed, or how many chunks still wait.
pub open spec fn not_ready_reason(embedder: bool, last_error: Option<Seq<char>>, reachable: bool, chunks: u32, vectors: u32) -> Seq<char> {
    if !embedder {
        NO_EMBEDDER_REASON@
    } else if last_error is Some {
        last_error->0
    } else if !reachable {
        UNREACHABLE_REASON@
    } else if chunks == 0 {
        NO_CHUNKS_REASON@
    } else {
        "Còn "@ + decimal_text((if chunks >= vectors { chunks - vectors } else { 0 }) as nat) + " đoạn chưa được nhúng."@
    }
}

/// The library's verdict on semantic search: ready, or the one sentence that says why not.
pub fn semantic_verdict(embedder: bool, last_error: Option<String>, reachable: bool, chunks: u32, vectors: u32) -> (r: (bool, Option<String>))
    ensures
        r.0 == semantic_ready(reachable, chunks, vectors),
        r.0 ==> r.1 is None,
        !r.0 ==> (r.1 matches Some(t) && t@ == not_ready_reason(
            embedder,
            match last_error { Some(e) => Some(e@), None => None },
            reachable,
            chunks,
            vectors,
        )),
{
    let ready = reachable && chunks > 0 && vectors >= chunks;
    if ready {
        return (true, None);
    }
    let reason = if !embedder {
        String::from_str(NO_EMBEDDER_REASON)
    } else {
        match last_error {
            Some(error) => error,
            None => if !reachable {
                String::from_str(UNREACHABLE_REASON)
            } else if chunks == 0 {
                String::from_str(NO_CHUNKS_REASON)
            } else {
                let waiting = chunks.saturating_sub(vectors);
                String::from_str("Còn ").concat(decimal(waiting as u64).as_str()).concat(" đoạn chưa được nhúng.")
            },
        }
    };
    (false, Some(reason))
}

/// How one search is run.
#[derive(Debug, Clone, Copy, PartialEq, Eq, Structural)]
pub struct SearchPlan {
    /// Results returned, between 1 and 30.
    pub limit: usize,
    /// Skip the semantic half: the query wants exact matching, or there is no embedder.
    pub keyword_only: bool,
    /// Candidates gathered from each half before fusion.
    pub pool: usize,
    /// Keyword matches asked of the store.
    pub keyword_limit: usize,
}

pub fn search_plan(query: &str, limit: usize, candidate_pool: usize, embedder: bool) -> (r: SearchPlan)
    ensures
        r.limit == (if limit < 1 { 1 } else if limit > 30 { 30 } else { limit }),
        r.keyword_only == (keyword_query(query@) || !embedder),
        r.pool == (if candidate_pool >= r.limit * 4 { candidate_pool } else { (r.limit * 4) as usize }),
        r.keyword_limit == (if r.keyword_only { r.limit } else { r.pool }),
{
    let limit = if limit < 1 {
        1
    } else if limit > 30 {
        30
    } else {
        limit
    };
    let keyword_only = prefers_keyword(query) || !embedder;
    let wide = limit * 4;
    let pool = if candidate_pool >= wide {
        candidate_pool
    } else {
        wide
    };
    SearchPlan { limit, keyword_only, pool, keyword_limit: if keyword_only { limit } else { pool } }
}

/// Rerank over HTTP when reranking is on and the backend says `http`, in any case.
pub fn rerank_over_http(enabled: bool, backend: &str) -> (r: bool)
    ensures
        r == (enabled && crate::text::lower(backend@) == "http"@),
{
    enabled && crate::text::equals_lower(backend, "http")
}

/// The rerank candidate pool: at least twenty.
pub fn candidate_pool(candidates: usize) -> (r: usize)
    ensures
        r == (if candidates >= 20 { candidates } else { 20 }),
{
    if candidates >= 20 {
        candidates
    } else {
        20
    }
}

/// A chunk's heading, when its section title is not blank.
pub fn heading_of(section: &str) -> (r: Option<String>)
    ensures
        blank(trimmed(section@)) ==> r is None,
        !blank(trimmed(section@)) ==> (r matches Some(h) && h@ == section@),
{
    if is_blank(trim(section)) {
        None
    } else {
        Some(String::from_str(section))
    }
}

/// A document is embedded when it has chunks and no error.
pub fn embedded(chunks: u32, error: &Option<String>) -> (r: bool)
    ensures
        r == (chunks > 0 && error is None),
{
    chunks > 0 && error.is_none()
}

pub const MOVED_REFUSAL: &'static str = "đường dẫn dự án hoặc kho RAG đã đổi; mở lại dự án để chuyển an toàn";

/// Reloaded settings that move the store or the root are refused: the open store would be the wrong one.
pub fn check_reload(store_path_changed: bool, root_changed: bool) -> (r: Result<(), RagError>)
    ensures
        (store_path_changed || root_changed) ==> (r matches Err(RagError::Service(e)) && e@ == MOVED_REFUSAL@),
        !(store_path_changed || root_changed) ==> r is Ok,
{
    if store_path_changed || root_changed {
        return Err(RagError::Service(String::from_str(MOVED_REFUSAL)));
    }
    Ok(())
}

/// Whether the store's recorded reader and embedding-input versions differ from the running
/// ones; when either does, every file fingerprint is forgotten so the next scan reads again.
pub fn identity_stale(extract: Option<&str>, embed_input: Option<&str>) -> (r: bool)
    ensures
        r == (!(extract matches Some(e) && e@ == decimal_text(EXTRACT_VERSION as nat))
            || !(embed_input matches Some(e) && e@ == decimal_text(EMBED_INPUT_VERSION as nat))),
{
    let reader = decimal(EXTRACT_VERSION as u64);
    let input = decimal(EMBED_INPUT_VERSION as u64);
    let reader_current = match extract {
        Some(e) => str_eq(e, reader.as_str()),
        None => false,
    };
    let input_current = match embed_input {
        Some(e) => str_eq(e, input.as_str()),
        None => false,
    };
    !reader_current || !input_current
}

/// A file that reads but cuts into no chunk is a failure of that file.
pub fn check_chunked(shown: &str, chunks: usize) -> (r: Result<(), RagError>)
    ensures
        chunks == 0 ==> (r matches Err(RagError::Extraction(e)) && e@ == "đọc được `"@ + shown@ + "` nhưng không cắt ra đoạn nào"@),
        chunks > 0 ==> r is Ok,
{
    if chunks == 0 {
        return Err(RagError::Extraction(String::from_str("đọc được `").concat(shown).concat("` nhưng không cắt ra đoạn nào")));
    }
    Ok(())
}

/// The width of the first vector a model returns, refused when there is none or it is empty.
pub fn probe_dimension(model: &str, first_len: Option<usize>) -> (r: Result<usize, RagError>)
    ensures
        (first_len matches Some(d) && d > 0) ==> r == Ok::<usize, RagError>(first_len->0),
        !(first_len matches Some(d) && d > 0) ==> (r matches Err(RagError::Service(e)) && e@ == "model `"@ + model@ + "` trả về vector rỗng"@),
{
    match first_len {
        Some(d) => if d > 0 {
            return Ok(d);
        },
        None => {},
    }
    Err(RagError::Service(String::from_str("model `").concat(model).concat("` trả về vector rỗng")))
}

/// A chunk needs a vector after a rebuild, or when the store does not hold one for it.
pub open spec fn needs_vector(existing: Seq<i64>, rebuilt: bool, id: i64) -> bool {
    rebuilt || !existing.contains(id)
}

/// Whether the list holds the id.
fn holds(list: &Vec<i64>, id: i64) -> (r: bool)
    ensures
        r == list@.contains(id),
{
    let mut j: usize = 0;
    while j < list.len()
        invariant
            j <= list@.len(),
            forall|k: int| 0 <= k < j ==> list@[k] != id,
        decreases list.len() - j,
    {
        if list[j] == id {
            proof {
                assert(list@[j as int] == id);
            }
            return true;
        }
        j = j + 1;
    }
    false
}

/// The chunk ids that still need a vector, in order: all of them after a rebuild, else those
/// the vector store does not hold.
pub fn pending_ids(ids: &Vec<i64>, existing: &Vec<i64>, rebuilt: bool) -> (r: Vec<i64>)
    ensures
        r@ == ids@.filter(|id: i64| needs_vector(existing@, rebuilt, id)),
{
    let mut r: Vec<i64> = Vec::new();
    let mut i: usize = 0;
    while i < ids.len()
        invariant
            i <= ids@.len(),
            r@ == ids@.take(i as int).filter(|id: i64| needs_vector(existing@, rebuilt, id)),
        decreases ids.len() - i,
    {
        let id = ids[i];
        let known = !rebuilt && holds(existing, id);
        proof {
            assert(ids@.take(i + 1).drop_last() =~= ids@.take(i as int));
            assert(ids@.take(i + 1).last() == id);
            assert(ids@.take(i + 1) =~= ids@.take(i as int).push(id));
            ids@.take(i as int).lemma_filter_push(id, |id: i64| needs_vector(existing@, rebuilt, id));
        }
        if rebuilt || !known {
            r.push(id);
        }
        i = i + 1;
    }
    proof {
        assert(ids@.take(ids.len() as int) =~= ids@);
    }
    r
}

impl RunReport {
    /// A file the user removed from the library: skipped by scans.
    pub fn record_excluded(&mut self)
        requires
            old(self).excluded < u32::MAX,
        ensures
            *final(self) == (RunReport { excluded: (old(self).excluded + 1) as u32, ..*old(self) }),
    {
        self.excluded = self.excluded + 1;
    }

    /// A file whose modification time and size are what the library last read.
    pub fn record_unchanged(&mut self)
        requires
            old(self).unchanged < u32::MAX,
        ensures
            *final(self) == (RunReport { unchanged: (old(self).unchanged + 1) as u32, ..*old(self) }),
    {
        self.unchanged = self.unchanged + 1;
    }

    pub fn record_ingested(&mut self)
        requires
            old(self).ingested < u32::MAX,
        ensures
            *final(self) == (RunReport { ingested: (old(self).ingested + 1) as u32, ..*old(self) }),
    {
        self.ingested = self.ingested + 1;
    }

    /// A file that failed, with the reason shown to the user.
    pub fn record_failure(&mut self, path: String, reason: String)
        ensures
            final(self).failures@ == old(self).failures@.push((path, reason)),
            final(self).scanned == old(self).scanned && final(self).ingested == old(self).ingested,
            final(self).unchanged == old(self).unchanged && final(self).excluded == old(self).excluded,
            final(self).over_limit == old(self).over_limit && final(self).embedded == old(self).embedded,
            final(self).embed_error == old(self).embed_error,
    {
        self.failures.push((path, reason));
    }

    /// One file of a run, at `index` of the files to go through: a file the scan skips is
    /// counted; a file that is read reports `Reading` (done `index`), then `Stored` (done
    /// `index + 1`) and counts as ingested, or joins the failures with the error's message.
    /// The result says whether the scan remembers the failure, so the file is not retried
    /// until it changes.
    pub fn ingest_step(&mut self, scan_mode: bool, index: u32, shown: String, step: FileStep, outcome: Result<(), RagError>) -> (remember: bool)
        requires
            old(self).excluded < u32::MAX,
            old(self).unchanged < u32::MAX,
            old(self).ingested < u32::MAX,
            index < u32::MAX,
        ensures
            step == FileStep::Excluded ==> *final(self) == (RunReport { excluded: (old(self).excluded + 1) as u32, ..*old(self) }) && !remember,
            step == FileStep::Unchanged ==> *final(self) == (RunReport { unchanged: (old(self).unchanged + 1) as u32, ..*old(self) }) && !remember,
            step == FileStep::Read ==> {
                &&& final(self).scanned == old(self).scanned && final(self).over_limit == old(self).over_limit
                &&& final(self).unchanged == old(self).unchanged && final(self).excluded == old(self).excluded
                &&& final(self).embedded == old(self).embedded && final(self).embed_error == old(self).embed_error
                &&& final(self).progress@.len() >= old(self).progress@.len() + 1
                &&& final(self).progress@.take(old(self).progress@.len() + 1int) == old(self).progress@.push(
                    final(self).progress@[old(self).progress@.len() as int])
                &&& reports(final(self).progress@[old(self).progress@.len() as int], IngestStage::Reading, shown@, None,
                    index, old(self).scanned)
                &&& match outcome {
                    Ok(()) => {
                        &&& final(self).ingested == old(self).ingested + 1
                        &&& final(self).failures@ == old(self).failures@
                        &&& final(self).progress@.len() == old(self).progress@.len() + 2
                        &&& reports(final(self).progress@.last(), IngestStage::Stored, shown@, None,
                            (index + 1) as u32, old(self).scanned)
                        &&& !remember
                    },
                    Err(e) => {
                        &&& final(self).ingested == old(self).ingested
                        &&& final(self).failures@.len() == old(self).failures@.len() + 1
                        &&& final(self).failures@.drop_last() == old(self).failures@
                        &&& final(self).failures@.last().0 == shown
                        &&& final(self).failures@.last().1@ == e.text()
                        &&& final(self).progress@.len() == old(self).progress@.len() + 1
                        &&& remember == (scan_mode && e is Extraction)
                    },
                }
            },
    {
        match step {
            FileStep::Excluded => {
                self.record_excluded();
                false
            },
            FileStep::Unchanged => {
                self.record_unchanged();
                false
            },
            FileStep::Read => {
                let ghost before = self.progress@;
                let scanned = self.scanned;
                self.progress.push(event(IngestStage::Reading, shown.clone(), None, index, scanned));
                match outcome {
                    Ok(()) => {
                        self.ingested = self.ingested + 1;
                        self.progress.push(event(IngestStage::Stored, shown, None, index + 1, scanned));
                        proof {
                            assert(self.progress@.take(before.len() + 1int) =~= before.push(self.progress@[before.len() as int]));
                        }
                        false
                    },
                    Err(e) => {
                        let reason = e.message();
                        let remember = remember_failure(scan_mode, &e);
                        self.failures.push((shown, reason));
                        proof {
                            assert(self.progress@.take(before.len() + 1int) =~= before.push(self.progress@[before.len() as int]));
                        }
                        remember
                    },
                }
            },
        }
    }
}

/// What a scan does with one file.
#[derive(Debug, Clone, Copy, PartialEq, Eq, Structural)]
pub enum FileStep {
    /// Removed by the user; a scan never brings it back.
    Excluded,
    /// Same modification time and size as last read.
    Unchanged,
    Read,
}

/// Exclusions and fingerprints only apply to scans of the folder; files named explicitly are
/// always read.
pub fn file_step(scan_mode: bool, excluded: bool, unchanged: bool) -> (r: FileStep)
    ensures
        r == (if scan_mode && excluded {
            FileStep::Excluded
        } else if scan_mode && unchanged {
            FileStep::Unchanged
        } else {
            FileStep::Read
        }),
{
    if scan_mode && excluded {
        FileStep::Excluded
    } else if scan_mode && unchanged {
        FileStep::Unchanged
    } else {
        FileStep::Read
    }
}

/// What became of one file of a run: where the scan put it, and for a file that was read,
/// whether it went in.
#[derive(Debug)]
pub struct FileOutcome {
    pub shown: String,
    pub step: FileStep,
    pub outcome: Result<(), RagError>,
}

/// A file that was read and stored.
pub open spec fn went_in(f: FileOutcome) -> bool {
    f.step == FileStep::Read && f.outcome is Ok
}

/// A file that was read and failed.
pub open spec fn failed(f: FileOutcome) -> bool {
    f.step == FileStep::Read && f.outcome is Err
}

/// How many of `fs` satisfy `p`.
pub open spec fn count_of(fs: Seq<FileOutcome>, p: spec_fn(FileOutcome) -> bool) -> nat
    decreases fs.len(),
{
    if fs.len() == 0 {
        0
    } else {
        count_of(fs.drop_last(), p) + if p(fs.last()) { 1nat } else { 0nat }
    }
}

/// Whether the scan remembers this file's failure.
pub open spec fn remembered(scan_mode: bool, f: FileOutcome) -> bool {
    scan_mode && f.step == FileStep::Read && (f.outcome matches Err(e) && e is Extraction)
}

/// The failures of a run: each failed file's name with its error's message, in file order.
pub open spec fn failures_of(fs: Seq<FileOutcome>) -> Seq<(Seq<char>, Seq<char>)>
    decreases fs.len(),
{
    if fs.len() == 0 {
        Seq::empty()
    } else {
        let rest = failures_of(fs.drop_last());
        let f = fs.last();
        match f.outcome {
            Err(e) => if f.step == FileStep::Read {
                rest.push((f.shown@, e.text()))
            } else {
                rest
            },
            Ok(()) => rest,
        }
    }
}

/// A list of failures as values.
pub open spec fn failure_views(v: Seq<(String, String)>) -> Seq<(Seq<char>, Seq<char>)> {
    v.map_values(|p: (String, String)| (p.0@, p.1@))
}

/// The progress a run reports, as stage, file and count done: `Reading` as each read file
/// opens, counting the files before it, and `Stored` once it went in, counting it too.
pub open spec fn progress_of(fs: Seq<FileOutcome>) -> Seq<(IngestStage, Seq<char>, int)>
    decreases fs.len(),
{
    if fs.len() == 0 {
        Seq::empty()
    } else {
        let rest = progress_of(fs.drop_last());
        let f = fs.last();
        let i = fs.len() - 1;
        if f.step == FileStep::Read {
            let opened = rest.push((IngestStage::Reading, f.shown@, i));
            if f.outcome is Ok {
                opened.push((IngestStage::Stored, f.shown@, i + 1))
            } else {
                opened
            }
        } else {
            rest
        }
    }
}

/// The progress events are `progress_of` the files, over a run of `total`.
pub open spec fn reports_progress(events: Seq<IngestEvent>, fs: Seq<FileOutcome>, total: u32) -> bool {
    let p = progress_of(fs);
    &&& events.len() == p.len()
    &&& forall|k: int| 0 <= k < p.len() ==> #[trigger] reports(events[k], p[k].0, p[k].1, None, p[k].2 as u32, total)
}

/// The tally of a whole run over its files, in order: every file counts exactly once, as
/// stored, unchanged, excluded or failed, and the run's size is the number of files. The
/// second part says, file by file, whether its failure is remembered.
pub fn run_files(scan_mode: bool, over_limit: u32, files: Vec<FileOutcome>) -> (r: (RunReport, Vec<bool>))
    requires
        files@.len() < u32::MAX,
    ensures
        r.0.scanned == files@.len(),
        r.0.over_limit == over_limit,
        r.0.ingested == count_of(files@, |f: FileOutcome| went_in(f)),
        r.0.unchanged == count_of(files@, |f: FileOutcome| f.step == FileStep::Unchanged),
        r.0.excluded == count_of(files@, |f: FileOutcome| f.step == FileStep::Excluded),
        r.0.failures@.len() == count_of(files@, |f: FileOutcome| failed(f)),
        failure_views(r.0.failures@) == failures_of(files@),
        reports_progress(r.0.progress@, files@, files@.len() as u32),
        r.0.ingested + r.0.unchanged + r.0.excluded + r.0.failures@.len() == files@.len(),
        r.0.embedded == 0 && r.0.embed_error is None,
        r.1@.len() == files@.len(),
        forall|i: int| 0 <= i < files@.len() ==> #[trigger] r.1@[i] == remembered(scan_mode, files@[i]),
{
    let ghost all = files@;
    let n = files.len();
    let mut source = files;
    let mut reversed: Vec<FileOutcome> = Vec::new();
    while source.len() > 0
        invariant
            source@ + reversed@.reverse() == all,
        decreases source.len(),
    {
        let ghost before_s = source@;
        let ghost before_r = reversed@;
        let f = source.pop().unwrap();
        reversed.push(f);
        proof {
            assert(reversed@.reverse() =~= seq![f] + before_r.reverse());
            assert(before_s =~= source@.push(f));
            assert(source@ + reversed@.reverse() =~= before_s + before_r.reverse());
        }
    }
    assert(reversed@.reverse() =~= all);
    let mut report = RunReport::new(n as u32, over_limit);
    let mut remember: Vec<bool> = Vec::new();
    let mut i: usize = 0;
    while i < n
        invariant
            n == all.len(),
            n < u32::MAX,
            i <= n,
            reversed@.len() == n - i,
            forall|j: int| 0 <= j < n - i ==> #[trigger] reversed@[j] == all[n - 1 - j],
            report.scanned == n && report.over_limit == over_limit,
            report.embedded == 0 && report.embed_error is None,
            report.ingested == count_of(all.take(i as int), |f: FileOutcome| went_in(f)),
            report.unchanged == count_of(all.take(i as int), |f: FileOutcome| f.step == FileStep::Unchanged),
            report.excluded == count_of(all.take(i as int), |f: FileOutcome| f.step == FileStep::Excluded),
            report.failures@.len() == count_of(all.take(i as int), |f: FileOutcome| failed(f)),
            report.ingested + report.unchanged + report.excluded + report.failures@.len() == i,
            failure_views(report.failures@) == failures_of(all.take(i as int)),
            reports_progress(report.progress@, all.take(i as int), n as u32),
            remember@.len() == i,
            forall|j: int| 0 <= j < i ==> #[trigger] remember@[j] == remembered(scan_mode, all[j]),
        decreases n - i,
    {
        let f = reversed.pop().unwrap();
        proof {
            assert(f == all[i as int]);
            assert(all.take(i + 1).drop_last() =~= all.take(i as int));
            assert(all.take(i + 1).last() == all[i as int]);
        }
        let ghost old_progress = report.progress@;
        let ghost old_failures = report.failures@;
        let FileOutcome { shown, step, outcome } = f;
        let kept = report.ingest_step(scan_mode, i as u32, shown, step, outcome);
        proof {
            let pre = all.take(i as int);
            let now = all.take(i + 1);
            let p_old = progress_of(pre);
            let p_new = progress_of(now);
            let ev = report.progress@;
            if f.step == FileStep::Read {
                assert(ev.take(old_progress.len() + 1int) == old_progress.push(ev[old_progress.len() as int]));
                assert forall|k: int| 0 <= k < old_progress.len() implies ev[k] == old_progress[k] by {
                    assert(ev.take(old_progress.len() + 1int)[k] == ev[k]);
                }
                if f.outcome is Err {
                    assert(report.failures@.drop_last() == old_failures);
                    assert(failure_views(report.failures@) =~= failure_views(old_failures).push(
                        (report.failures@.last().0@, report.failures@.last().1@)));
                }
            } else {
                assert(ev == old_progress);
            }
            assert forall|k: int| 0 <= k < p_new.len() implies #[trigger] reports(ev[k], p_new[k].0, p_new[k].1, None, p_new[k].2 as u32, n as u32) by {
                if k < p_old.len() {
                    assert(p_new[k] == p_old[k]);
                    assert(reports(old_progress[k], p_old[k].0, p_old[k].1, None, p_old[k].2 as u32, n as u32));
                }
            }
        }
        remember.push(kept);
        i = i + 1;
    }
    proof {
        assert(all.take(n as int) =~= all);
    }
    (report, remember)
}

/// The reader a file goes to, or why it cannot be read: a known format without a reader is a
/// failure of that file, an unknown one a refusal.
pub fn route(shown: &str, kind: Option<ReaderKind>) -> (r: Result<ReaderKind, RagError>)
    ensures
        kind is None ==> (r matches Err(RagError::Service(e)) && e@ == "không hỗ trợ định dạng của `"@ + shown@ + "`"@),
        kind == Some(ReaderKind::Unsupported) ==> (r matches Err(RagError::Extraction(e)) && e@ == "`"@ + shown@
            + "` cần bộ đọc chưa có trong bản Rust"@),
        (kind matches Some(k) && k != ReaderKind::Unsupported) ==> r == Ok::<ReaderKind, RagError>(kind->0),
{
    match kind {
        Some(ReaderKind::Unsupported) => Err(RagError::Extraction(
            String::from_str("`").concat(shown).concat("` cần bộ đọc chưa có trong bản Rust"),
        )),
        Some(k) => Ok(k),
        None => Err(RagError::Service(String::from_str("không hỗ trợ định dạng của `").concat(shown).concat("`"))),
    }
}

/// A scan remembers a failed file, so it is not retried until it changes, only when the file
/// itself was at fault.
pub fn remember_failure(scan_mode: bool, error: &RagError) -> (r: bool)
    ensures
        r == (scan_mode && error is Extraction),
{
    scan_mode && error.is_extraction()
}

/// Progress after the file at `index`.
pub fn progress(index: usize, total: u32) -> (r: Scanning)
    requires
        index < u32::MAX,
    ensures
        r.done == index + 1,
        r.total == total,
{
    Scanning { done: (index + 1) as u32, total }
}

/// The refusal when the project folder is gone.
pub fn missing_root(root: &str) -> (r: RagError)
    ensures
        r matches RagError::Service(e) && e@ == "thư mục dự án `"@ + root@ + "` không tồn tại"@,
{
    RagError::Service(String::from_str("thư mục dự án `").concat(root).concat("` không tồn tại"))
}

/// The events of a run that broke off: the failure, then the finish, so the stream still ends.
pub fn aborted_run_events(root: &str, error: &RagError) -> (r: Vec<IngestEvent>)
    ensures
        r@.len() == 2,
        r@[0].stage == IngestStage::Failed && r@[0].path@ == root@ && (r@[0].error matches Some(e) && e@ == error.text()),
        r@[0].done == 0 && r@[0].total == 0 && !r@[0].finished,
        r@[1].stage == IngestStage::Finished && r@[1].path@ == root@ && r@[1].error is None,
        r@[1].done == 0 && r@[1].total == 0 && r@[1].finished,
{
    let mut r: Vec<IngestEvent> = Vec::new();
    r.push(event(IngestStage::Failed, String::from_str(root), Some(error.message()), 0, 0));
    r.push(event(IngestStage::Finished, String::from_str(root), None, 0, 0));
    r
}

/// Whether page `i` has fewer trimmed characters than asked for.
pub open spec fn sparse_page(pages: Seq<String>, i: int, min_chars: usize) -> bool {
    trimmed(pages[i]@).len() < min_chars
}

/// How a PDF is read.
#[derive(Debug, Clone, Copy, PartialEq, Eq, Structural)]
pub enum PdfRead {
    /// The text layer is enough.
    TextLayer,
    /// Sparse pages go to the vision model.
    Ocr,
}

pub const SCANNED_PDF_NEEDS_VISION: &'static str = "đây là PDF quét; hãy chọn mô hình vision trong Cài đặt rồi xử lý lại";

/// A PDF with no sparse page keeps its text layer. A mixed PDF is still useful without OCR, so
/// it keeps its text when the average page has enough; a scan is refused with the next step.
pub fn pdf_read(shown: &str, pages: &Vec<String>, average: usize, ocr_enabled: bool, vision: bool, min_chars: usize) -> (r: Result<PdfRead, RagError>)
    ensures
        !(exists|i: int| 0 <= i < pages@.len() && #[trigger] sparse_page(pages@, i, min_chars)) ==> r == Ok::<PdfRead, RagError>(PdfRead::TextLayer),
        (exists|i: int| 0 <= i < pages@.len() && #[trigger] sparse_page(pages@, i, min_chars)) ==> {
            if !ocr_enabled || !vision {
                if average >= min_chars {
                    r == Ok::<PdfRead, RagError>(PdfRead::TextLayer)
                } else if !ocr_enabled {
                    r matches Err(RagError::Extraction(e)) && e@ == "PDF `"@ + shown@ + "` không có đủ lớp chữ và OCR đang tắt"@
                } else {
                    r matches Err(RagError::Extraction(e)) && e@ == SCANNED_PDF_NEEDS_VISION@
                }
            } else {
                r == Ok::<PdfRead, RagError>(PdfRead::Ocr)
            }
        },
{
    let mut sparse = false;
    let mut i: usize = 0;
    while i < pages.len()
        invariant
            i <= pages@.len(),
            sparse == exists|k: int| 0 <= k < i && #[trigger] sparse_page(pages@, k, min_chars),
        decreases pages.len() - i,
    {
        if trim(pages[i].as_str()).unicode_len() < min_chars {
            proof {
                assert(sparse_page(pages@, i as int, min_chars));
            }
            sparse = true;
        }
        i = i + 1;
    }
    if !sparse {
        return Ok(PdfRead::TextLayer);
    }
    if !ocr_enabled {
        if average >= min_chars {
            return Ok(PdfRead::TextLayer);
        }
        return Err(RagError::Extraction(String::from_str("PDF `").concat(shown).concat("` không có đủ lớp chữ và OCR đang tắt")));
    }
    if !vision {
        if average >= min_chars {
            return Ok(PdfRead::TextLayer);
        }
        return Err(RagError::Extraction(String::from_str(SCANNED_PDF_NEEDS_VISION)));
    }
    Ok(PdfRead::Ocr)
}

/// Pages rendered for OCR: as configured, and at least one.
pub fn ocr_page_limit(max_pages: usize) -> (r: usize)
    ensures
        r == (if max_pages >= 1 { max_pages } else { 1 }),
{
    if max_pages >= 1 {
        max_pages
    } else {
        1
    }
}

/// A rendered page needs OCR unless its text layer already has enough characters.
pub fn needs_ocr(pages: &Vec<String>, index: usize, min_chars: usize) -> (r: bool)
    ensures
        r == !(index < pages@.len() && !sparse_page(pages@, index as int, min_chars)),
{
    !(index < pages.len() && trim(pages[index].as_str()).unicode_len() >= min_chars)
}

/// Put the text the vision model read in place of a page, and note the page; an empty answer
/// or a page past the end changes nothing.
pub fn apply_ocr(pages: &mut Vec<String>, ocr_pages: &mut Vec<u32>, index: usize, text: String)
    requires
        index < u32::MAX,
    ensures
        (text@.len() > 0 && index < old(pages)@.len()) ==> (final(pages)@ == old(pages)@.update(index as int, text)
            && final(ocr_pages)@ == old(ocr_pages)@.push((index + 1) as u32)),
        !(text@.len() > 0 && index < old(pages)@.len()) ==> (final(pages)@ == old(pages)@ && final(ocr_pages)@
            == old(ocr_pages)@),
{
    if text.as_str().unicode_len() > 0 && index < pages.len() {
        pages.set(index, text);
        ocr_pages.push((index + 1) as u32);
    }
}

/// After OCR some page must hold text, or the model read nothing.
pub fn check_ocr_read(model: &str, shown: &str, pages: &Vec<String>) -> (r: Result<(), RagError>)
    ensures
        (exists|i: int| 0 <= i < pages@.len() && !blank(#[trigger] pages@[i]@)) ==> r is Ok,
        !(exists|i: int| 0 <= i < pages@.len() && !blank(#[trigger] pages@[i]@)) ==> (r matches Err(RagError::Extraction(e))
            && e@ == "model vision `"@ + model@ + "` đã chạy nhưng không đọc được chữ trong `"@ + shown@ + "`"@),
{
    let mut i: usize = 0;
    while i < pages.len()
        invariant
            i <= pages@.len(),
            forall|k: int| 0 <= k < i ==> blank(#[trigger] pages@[k]@),
        decreases pages.len() - i,
    {
        if !is_blank(pages[i].as_str()) {
            return Ok(());
        }
        i = i + 1;
    }
    Err(RagError::Extraction(
        String::from_str("model vision `").concat(model).concat("` đã chạy nhưng không đọc được chữ trong `").concat(shown).concat("`"),
    ))
}

/// An image needs OCR switched on and a vision model chosen.
pub fn check_image_ocr(shown: &str, ocr_enabled: bool, vision: bool) -> (r: Result<(), RagError>)
    ensures
        !ocr_enabled ==> (r matches Err(RagError::Extraction(e)) && e@ == "`"@ + shown@ + "` là ảnh và OCR đang tắt"@),
        ocr_enabled && !vision ==> (r matches Err(RagError::Extraction(e)) && e@ == "đây là ảnh; hãy chọn mô hình vision trong Cài đặt rồi nạp lại"@),
        ocr_enabled && vision ==> r is Ok,
{
    if !ocr_enabled {
        return Err(RagError::Extraction(String::from_str("`").concat(shown).concat("` là ảnh và OCR đang tắt")));
    }
    if !vision {
        return Err(RagError::Extraction(String::from_str("đây là ảnh; hãy chọn mô hình vision trong Cài đặt rồi nạp lại")));
    }
    Ok(())
}

/// An image read by the vision model: one page, read by OCR; nothing read is a failure.
pub fn image_extracted(path: &str, model: &str, text: String) -> (r: Result<Extracted, RagError>)
    ensures
        text@.len() == 0 ==> (r matches Err(RagError::Extraction(e)) && e@ == "model vision `"@ + model@
            + "` không đọc được chữ trong `"@ + path@ + "`"@),
        text@.len() > 0 ==> (r matches Ok(x) && x.text@ == text@ && x.format == Format::Image && x.title@ == title_from(path@)
            && x.pages == 1 && x.ocr_pages@ == seq![1u32]),
{
    if text.as_str().unicode_len() == 0 {
        return Err(RagError::Extraction(
            String::from_str("model vision `").concat(model).concat("` không đọc được chữ trong `").concat(path).concat("`"),
        ));
    }
    let mut ocr_pages: Vec<u32> = Vec::new();
    ocr_pages.push(1);
    let title = match crate::rag::paths::path_file_stem(path) {
        Some(stem) => stem,
        None => String::from_str(path),
    };
    Ok(Extracted { text, format: Format::Image, title, pages: 1, ocr_pages })
}

} // verus!
