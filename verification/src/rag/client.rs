//! What the library makes of the document service's answers. The service runs in another
//! process, so every field it may leave out arrives here already defaulted to a value that
//! understates the truth (zero, empty, absent); the decisions below never invent a number.

use vstd::prelude::*;

use crate::rag::error::RagError;
use crate::rag::format::Format;
use crate::rag::library::{Document, IngestEvent, IngestStage, Stats};
use crate::text::decimal;

verus! {

/// A file the service could not ingest, and why.
#[derive(Clone, Debug)]
pub struct FailedFile {
    pub path: String,
    pub reason: String,
}

/// One ingest run as the service reports it.
#[derive(Clone, Debug)]
pub struct IngestReport {
    pub scanned: u64,
    pub ingested: u64,
    pub failed: Vec<FailedFile>,
    /// Set when every file went in but the embedding server is behind.
    pub embed_error: Option<String>,
}

/// Library health as the service reports it.
#[derive(Clone, Debug)]
pub struct StatsReport {
    pub documents: u64,
    pub chunks: u64,
    pub vectors: u64,
    pub qdrant_reachable: bool,
    pub embedder: Option<String>,
    pub root: Option<String>,
    pub files_seen: u64,
    pub files_skipped: u64,
    /// How many failures the service listed.
    pub failures: usize,
    pub excluded: u64,
    pub scanned_at: Option<i64>,
}

/// One document as the service lists it; a row without a document id never gets this far.
#[derive(Clone, Debug)]
pub struct DocumentRecord {
    pub document_id: String,
    pub path: String,
    pub title: String,
    pub format: String,
    pub bytes: u64,
    pub chunks: u64,
    pub added_at: i64,
    pub error: Option<String>,
    pub pages: u64,
    pub ocr_pages: Vec<u64>,
}

pub const SERVICE_SILENT_HEAD: &'static str = "Service tài liệu không trả lời: ";

pub const NO_QDRANT_REASON: &'static str = "Kho vector (Qdrant) chưa chạy nên chỉ có tìm theo từ khoá. Dựng nó bằng `docker compose up -d` ở thư mục gốc dự án.";

pub const EMPTY_LIBRARY_REASON: &'static str = "Thư viện chưa có đoạn nào. Thả tệp vào thư mục dự án rồi bấm đồng bộ.";

pub const EMBEDDING_HEAD: &'static str = "Đang nhúng: ";

pub const EMBEDDING_TAIL: &'static str = " đoạn đã có vector. Tìm theo từ khoá vẫn chạy bình thường trong lúc chờ.";

pub open spec fn opt_text(o: Option<String>) -> Option<Seq<char>> {
    match o {
        Some(s) => Some(s@),
        None => None,
    }
}

/// Why semantic search is unusable, root cause first: a dead service makes every other
/// explanation point at the wrong fix.
pub open spec fn reason_text(ready: bool, reachable: bool, chunks: u32, vectors: u32, sidecar_error: Option<
    Seq<char>,
>) -> Option<Seq<char>> {
    match sidecar_error {
        Some(err) => Some(SERVICE_SILENT_HEAD@ + err),
        None => if ready {
            None
        } else if !reachable {
            Some(NO_QDRANT_REASON@)
        } else if chunks == 0 {
            Some(EMPTY_LIBRARY_REASON@)
        } else {
            Some(EMBEDDING_HEAD@ + crate::text::decimal_text(vectors as nat) + "/"@
                + crate::text::decimal_text(chunks as nat) + EMBEDDING_TAIL@)
        },
    }
}

/// Why semantic search is unusable, in the user's language and naming the fix.
pub fn reason_for(ready: bool, reachable: bool, chunks: u32, vectors: u32, sidecar_error: Option<String>) -> (r:
    Option<String>)
    ensures
        opt_text(r) == reason_text(ready, reachable, chunks, vectors, opt_text(sidecar_error)),
{
    if let Some(err) = sidecar_error {
        return Some(String::from_str(SERVICE_SILENT_HEAD).concat(err.as_str()));
    }
    if ready {
        return None;
    }
    if !reachable {
        return Some(String::from_str(NO_QDRANT_REASON));
    }
    if chunks == 0 {
        return Some(String::from_str(EMPTY_LIBRARY_REASON));
    }
    let done = decimal(vectors as u64);
    let all = decimal(chunks as u64);
    let r = String::from_str(EMBEDDING_HEAD).concat(done.as_str()).concat("/").concat(all.as_str()).concat(
        EMBEDDING_TAIL,
    );
    Some(r)
}

/// Ready means every chunk has a vector: a half-embedded library still answers, but its other
/// half is invisible to semantic search.
pub open spec fn semantic_ready(reachable: bool, chunks: u32, vectors: u32) -> bool {
    reachable && chunks > 0 && vectors >= chunks
}

/// The present, non-empty text of an optional field.
pub open spec fn non_empty(o: Option<String>) -> Option<Seq<char>> {
    match o {
        Some(s) => if s@.len() > 0 {
            Some(s@)
        } else {
            None
        },
        None => None,
    }
}

/// Library health from the service's report; `root` is the project folder, used when the
/// service does not name one.
pub fn read_stats(report: &StatsReport, root: &str, sidecar_error: Option<String>) -> (s: Stats)
    ensures
        s.documents == report.documents as u32,
        s.chunks == report.chunks as u32,
        s.embedded_chunks == report.vectors as u32,
        opt_text(s.embedder) == non_empty(report.embedder),
        s.semantic_ready == semantic_ready(
            report.qdrant_reachable,
            report.chunks as u32,
            report.vectors as u32,
        ),
        opt_text(s.reason) == reason_text(
            s.semantic_ready,
            report.qdrant_reachable,
            report.chunks as u32,
            report.vectors as u32,
            opt_text(sidecar_error),
        ),
        s.root@ == match report.root {
            Some(r) => r@,
            None => root@,
        },
        s.files_seen == report.files_seen as u32,
        s.files_skipped == report.files_skipped as u32,
        s.unreadable == report.failures as u32,
        s.excluded == report.excluded as u32,
        s.scanned_at == report.scanned_at,
        s.scanning is None,
{
    let chunks = #[verifier::truncate] (report.chunks as u32);
    let vectors = #[verifier::truncate] (report.vectors as u32);
    let reachable = report.qdrant_reachable;
    let embedder = match &report.embedder {
        Some(e) => if e.unicode_len() > 0 {
            Some(e.clone())
        } else {
            None
        },
        None => None,
    };
    let ready = reachable && chunks > 0 && vectors >= chunks;
    let reason = reason_for(ready, reachable, chunks, vectors, sidecar_error);
    Stats {
        documents: #[verifier::truncate] (report.documents as u32),
        chunks,
        embedded_chunks: vectors,
        embedder,
        semantic_ready: ready,
        reason,
        root: match &report.root {
            Some(r) => r.clone(),
            None => String::from_str(root),
        },
        files_seen: #[verifier::truncate] (report.files_seen as u32),
        files_skipped: #[verifier::truncate] (report.files_skipped as u32),
        unreadable: #[verifier::truncate] (report.failures as u32),
        excluded: #[verifier::truncate] (report.excluded as u32),
        scanned_at: report.scanned_at,
        scanning: None,
    }
}

/// A document from the service's listing. The service has no notion of where a file came
/// from (the project folder is the library), and it reports embedding library-wide, so a
/// document counts as embedded when it has chunks and no error.
pub fn read_document(record: &DocumentRecord) -> (d: Document)
    ensures
        d.id@ == record.document_id@,
        d.path@ == record.path@,
        d.origin@ == record.path@,
        d.title@ == record.title@,
        d.format == Format::from_label(crate::text::lower(crate::text::trimmed(record.format@))),
        d.bytes == record.bytes,
        d.chunks == record.chunks as u32,
        d.embedded == (record.chunks as u32 > 0 && record.error is None),
        d.added_at == record.added_at,
        opt_text(d.error) == opt_text(record.error),
        d.pages == record.pages as u32,
        d.ocr_pages@.len() == record.ocr_pages@.len(),
        forall|i: int| 0 <= i < d.ocr_pages@.len() ==> #[trigger] d.ocr_pages@[i] == record.ocr_pages@[i] as u32,
{
    let chunks = #[verifier::truncate] (record.chunks as u32);
    let mut ocr_pages: Vec<u32> = Vec::new();
    let mut i: usize = 0;
    while i < record.ocr_pages.len()
        invariant
            i <= record.ocr_pages@.len(),
            ocr_pages@.len() == i,
            forall|j: int| 0 <= j < i ==> #[trigger] ocr_pages@[j] == record.ocr_pages@[j] as u32,
        decreases record.ocr_pages.len() - i,
    {
        ocr_pages.push(#[verifier::truncate] (record.ocr_pages[i] as u32));
        i = i + 1;
    }
    Document {
        id: record.document_id.clone(),
        path: record.path.clone(),
        origin: record.path.clone(),
        title: record.title.clone(),
        format: Format::parse(record.format.as_str()),
        bytes: record.bytes,
        chunks,
        embedded: chunks > 0 && record.error.is_none(),
        added_at: record.added_at,
        error: match &record.error {
            Some(e) => Some(e.clone()),
            None => None,
        },
        pages: #[verifier::truncate] (record.pages as u32),
        ocr_pages,
    }
}

/// A progress tick as the UI reads it.
pub struct Tick {
    pub stage: IngestStage,
    pub path: Seq<char>,
    pub error: Option<Seq<char>>,
    pub done: u32,
    pub total: u32,
}

pub open spec fn tick(stage: IngestStage, path: Seq<char>, error: Option<Seq<char>>, done: u32, total: u32) -> Tick {
    Tick { stage, path, error, done, total }
}

/// Whether an event is exactly the tick: `finished` only on `Finished`, and no document.
pub open spec fn is_tick(e: IngestEvent, t: Tick) -> bool {
    &&& e.stage == t.stage
    &&& e.path@ == t.path
    &&& opt_text(e.error) == t.error
    &&& e.done == t.done
    &&& e.total == t.total
    &&& e.finished == (t.stage == IngestStage::Finished)
    &&& e.document is None
}

pub open spec fn failure_ticks(failed: Seq<FailedFile>, done: u32, total: u32) -> Seq<Tick> {
    failed.map_values(|f: FailedFile| tick(IngestStage::Failed, f.path@, Some(f.reason@), done, total))
}

/// The ticks for one run: a failed run is one `Failed` tick with the reason and then
/// `Finished`; otherwise one `Failed` tick per broken file, an `Embedding` tick when only the
/// embedding server is behind, and `Finished` last, so a progress bar always stops.
pub open spec fn report_ticks(root: Seq<char>, outcome: Result<IngestReport, RagError>) -> Seq<Tick> {
    match outcome {
        Err(e) => seq![
            tick(IngestStage::Failed, root, Some(e.text()), 0, 0),
            tick(IngestStage::Finished, root, None, 0, 0),
        ],
        Ok(r) => {
            let done = r.ingested as u32;
            let total = r.scanned as u32;
            failure_ticks(r.failed@, done, total) + (match non_empty(r.embed_error) {
                Some(err) => seq![tick(IngestStage::Embedding, root, Some(err), done, total)],
                None => Seq::empty(),
            }) + seq![tick(IngestStage::Finished, root, None, done, total)]
        },
    }
}

fn make(stage: IngestStage, path: String, error: Option<String>, done: u32, total: u32) -> (e: IngestEvent)
    ensures
        is_tick(e, tick(stage, path@, opt_text(error), done, total)),
{
    let finished = match stage {
        IngestStage::Finished => true,
        _ => false,
    };
    IngestEvent { path, stage, done, total, finished, error, document: None }
}

/// One ingest report, as the sequence of progress ticks for the UI.
pub fn events_from_report(root: &str, outcome: Result<IngestReport, RagError>) -> (r: Vec<IngestEvent>)
    ensures
        r@.len() == report_ticks(root@, outcome).len(),
        forall|i: int| 0 <= i < r@.len() ==> is_tick(#[trigger] r@[i], report_ticks(root@, outcome)[i]),
{
    let ghost expected = report_ticks(root@, outcome);
    let report = match outcome {
        Ok(value) => value,
        Err(err) => {
            let mut events: Vec<IngestEvent> = Vec::new();
            events.push(make(IngestStage::Failed, String::from_str(root), Some(err.message()), 0, 0));
            events.push(make(IngestStage::Finished, String::from_str(root), None, 0, 0));
            return events;
        },
    };
    let scanned = #[verifier::truncate] (report.scanned as u32);
    let ingested = #[verifier::truncate] (report.ingested as u32);
    let ghost fails = failure_ticks(report.failed@, ingested, scanned);
    let mut events: Vec<IngestEvent> = Vec::new();
    let mut i: usize = 0;
    while i < report.failed.len()
        invariant
            i <= report.failed@.len(),
            fails == failure_ticks(report.failed@, ingested, scanned),
            events@.len() == i,
            forall|j: int| 0 <= j < i ==> is_tick(#[trigger] events@[j], fails[j]),
        decreases report.failed.len() - i,
    {
        let failure = &report.failed[i];
        events.push(
            make(IngestStage::Failed, failure.path.clone(), Some(failure.reason.clone()), ingested, scanned),
        );
        i = i + 1;
    }
    let ghost middle: Seq<Tick> = match non_empty(report.embed_error) {
        Some(err) => seq![tick(IngestStage::Embedding, root@, Some(err), ingested, scanned)],
        None => Seq::empty(),
    };
    match &report.embed_error {
        Some(error) => {
            if error.unicode_len() > 0 {
                events.push(
                    make(IngestStage::Embedding, String::from_str(root), Some(error.clone()), ingested, scanned),
                );
            }
        },
        None => {},
    }
    events.push(make(IngestStage::Finished, String::from_str(root), None, ingested, scanned));
    proof {
        assert(expected =~= fails + middle + seq![tick(IngestStage::Finished, root@, None, ingested, scanned)]);
    }
    events
}

/// The first tick of every ingest run, before the service has answered.
pub fn started(root: &str) -> (e: IngestEvent)
    ensures
        is_tick(e, tick(IngestStage::Reading, root@, None, 0, 0)),
{
    make(IngestStage::Reading, String::from_str(root), None, 0, 0)
}

/// A removal the service answers with `removed: false` names a document it does not have.
pub fn removal_outcome(id: &str, removed: Option<bool>) -> (r: Result<(), RagError>)
    ensures
        removed == Some(false) ==> (r matches Err(RagError::NotFound(x)) && x@ == id@),
        removed != Some(false) ==> r is Ok,
{
    match removed {
        Some(false) => Err(RagError::NotFound(String::from_str(id))),
        _ => Ok(()),
    }
}

} // verus!
