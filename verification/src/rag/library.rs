//! Document library seam: the types the layers above see. Paths are carried as the text the
//! file system gave them.

use vstd::prelude::*;

use crate::rag::format::Format;

verus! {

/// How many files one scan will ingest; kept here because the UI names the number too.
pub const MAX_FILES: usize = 5000;

/// A document as the layers above see it.
#[derive(Clone, Debug)]
pub struct Document {
    pub id: String,
    /// The real file in the project folder; this is what the user can open in a file browser.
    pub path: String,
    /// Where the file came from. Equal to `path` for files already inside the project folder.
    pub origin: String,
    pub title: String,
    pub format: Format,
    pub bytes: u64,
    pub chunks: u32,
    pub embedded: bool,
    pub added_at: i64,
    /// `None` plus `embedded == false` means queued, not broken.
    pub error: Option<String>,
    /// Page count, when the format has such a notion.
    pub pages: u32,
    /// Which pages needed OCR; it explains a slow ingest.
    pub ocr_pages: Vec<u32>,
}

/// A scan in flight, enough for the UI to say "scanning 12/240 files".
#[derive(Clone, Copy, Debug, PartialEq, Eq, Structural)]
pub struct Scanning {
    pub done: u32,
    pub total: u32,
}

/// Library health.
#[derive(Clone, Debug)]
pub struct Stats {
    pub documents: u32,
    pub chunks: u32,
    pub embedded_chunks: u32,
    pub embedder: Option<String>,
    pub semantic_ready: bool,
    /// Shown when `semantic_ready` is false; the only place the user learns why results are keyword-only.
    pub reason: Option<String>,
    /// The user's document folder; the UI must be able to show it when no files turn up.
    pub root: String,
    pub files_seen: u32,
    pub files_skipped: u32,
    /// Files that were tried and could not be read.
    pub unreadable: u32,
    pub excluded: u32,
    pub scanned_at: Option<i64>,
    pub scanning: Option<Scanning>,
}

/// Stage of a file during ingest.
#[derive(Clone, Copy, Debug, PartialEq, Eq, Structural)]
pub enum IngestStage {
    Reading,
    /// Page-level optical character recognition for scanned PDFs and images.
    Ocr,
    Stored,
    Failed,
    /// Skipped for a reason: the file is fine, the library refused it.
    Skipped,
    Removed,
    /// Catch-up embedding pass at the end of a run; not a broken *file*.
    Embedding,
    /// The user stopped the batch; completed files remain available.
    Cancelled,
    /// The whole batch completed normally. Always the last event of a successful stream.
    Finished,
}

impl IngestStage {
    pub open spec fn label(self) -> Seq<char> {
        match self {
            IngestStage::Reading => "reading"@,
            IngestStage::Ocr => "ocr"@,
            IngestStage::Stored => "stored"@,
            IngestStage::Failed => "failed"@,
            IngestStage::Skipped => "skipped"@,
            IngestStage::Removed => "removed"@,
            IngestStage::Embedding => "embedding"@,
            IngestStage::Cancelled => "cancelled"@,
            IngestStage::Finished => "finished"@,
        }
    }

    pub fn as_str(self) -> (r: &'static str)
        ensures
            r@ == self.label(),
    {
        match self {
            IngestStage::Reading => "reading",
            IngestStage::Ocr => "ocr",
            IngestStage::Stored => "stored",
            IngestStage::Failed => "failed",
            IngestStage::Skipped => "skipped",
            IngestStage::Removed => "removed",
            IngestStage::Embedding => "embedding",
            IngestStage::Cancelled => "cancelled",
            IngestStage::Finished => "finished",
        }
    }
}

/// Distinct stages carry distinct labels, so a label names its stage.
pub proof fn law_stage_labels_distinct(a: IngestStage, b: IngestStage)
    ensures
        a.label() == b.label() ==> a == b,
{
    reveal_strlit("reading");
    reveal_strlit("ocr");
    reveal_strlit("stored");
    reveal_strlit("failed");
    reveal_strlit("skipped");
    reveal_strlit("removed");
    reveal_strlit("embedding");
    reveal_strlit("cancelled");
    reveal_strlit("finished");
    if a.label() == b.label() {
        let l = a.label();
        assert(l.len() == b.label().len());
        if l.len() > 2 {
            assert(l[0] == b.label()[0]);
            assert(l[2] == b.label()[2]);
        }
    }
}

/// One progress tick.
#[derive(Clone, Debug)]
pub struct IngestEvent {
    pub path: String,
    pub stage: IngestStage,
    pub done: u32,
    pub total: u32,
    pub finished: bool,
    pub error: Option<String>,
    /// The document just finished, so the UI can append a row without refetching the list.
    pub document: Option<Document>,
}

} // verus!
