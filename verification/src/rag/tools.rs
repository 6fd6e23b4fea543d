//! What the three library tools answer. Document content is untrusted input, not
//! instructions; each chunk carries a `[title #ordinal]` prefix so the model can cite it, and an
//! empty answer always says why it is empty.

use vstd::prelude::*;

use crate::rag::library::Document;
use crate::text::{decimal, decimal_text};

verus! {

/// What one mount of the library calls itself: a project's documents, or a conversation's
/// attachments. The same three tools serve both; only the names and the nouns change.
#[derive(Clone, Copy, Debug)]
pub struct Vocab {
    pub search: &'static str,
    pub read: &'static str,
    pub list: &'static str,
    /// The collection, as a noun phrase a sentence can be built around.
    pub what: &'static str,
    /// One item of it.
    pub item: &'static str,
}

/// A document project's library: the folder the user chose.
pub fn docs_vocab() -> (v: Vocab)
    ensures
        v.search@ == "docs.search"@,
        v.read@ == "docs.read"@,
        v.list@ == "docs.list"@,
        v.what@ == "thư viện tài liệu của dự án"@,
        v.item@ == "tài liệu"@,
{
    Vocab {
        search: "docs.search",
        read: "docs.read",
        list: "docs.list",
        what: "thư viện tài liệu của dự án",
        item: "tài liệu",
    }
}

/// A code project's attachment shelf, named apart so its tools never claim the user's library.
pub fn attachments_vocab() -> (v: Vocab)
    ensures
        v.search@ == "attachment.search"@,
        v.read@ == "attachment.read"@,
        v.list@ == "attachment.list"@,
        v.what@ == "những tệp người dùng đã đính kèm vào cuộc trò chuyện"@,
        v.item@ == "tệp đính kèm"@,
{
    Vocab {
        search: "attachment.search",
        read: "attachment.read",
        list: "attachment.list",
        what: "những tệp người dùng đã đính kèm vào cuộc trò chuyện",
        item: "tệp đính kèm",
    }
}

/// `docs.list` takes nothing.
#[derive(Debug)]
pub struct DocsListArgs {}

#[derive(Debug)]
pub struct DocsReadArgs {
    /// The document id, from a search or the list.
    pub document_id: String,
    /// The first chunk to read, counting from 0. Blank means from the start.
    pub offset: Option<usize>,
    /// How many chunks. Six by default, thirty at most.
    pub limit: Option<usize>,
}

#[derive(Debug)]
pub struct DocsSearchArgs {
    /// A question or key phrase, in the documents' language.
    pub query: String,
    /// How many chunks at most. Eight by default, thirty at most.
    pub limit: Option<usize>,
}

/// Chunks per read by default: about a page, not a whole document.
pub const READ_DEFAULT_LIMIT: usize = 6;

/// Chunks per search by default: enough to answer, not enough to evict the conversation.
pub const SEARCH_DEFAULT_LIMIT: usize = 8;

pub const MAX_LIMIT: usize = 30;

/// An optional limit with its default, kept between 1 and 30.
pub open spec fn bounded_limit(limit: Option<usize>, default: usize) -> usize {
    let asked = match limit {
        Some(l) => l,
        None => default,
    };
    if asked < 1 {
        1
    } else if asked > MAX_LIMIT {
        MAX_LIMIT
    } else {
        asked
    }
}

pub fn read_limit(limit: Option<usize>) -> (r: usize)
    ensures
        r == bounded_limit(limit, READ_DEFAULT_LIMIT),
{
    clamp_limit(limit, READ_DEFAULT_LIMIT)
}

pub fn search_limit(limit: Option<usize>) -> (r: usize)
    ensures
        r == bounded_limit(limit, SEARCH_DEFAULT_LIMIT),
{
    clamp_limit(limit, SEARCH_DEFAULT_LIMIT)
}

fn clamp_limit(limit: Option<usize>, default: usize) -> (r: usize)
    ensures
        r == bounded_limit(limit, default),
{
    let asked = match limit {
        Some(l) => l,
        None => default,
    };
    if asked < 1 {
        1
    } else if asked > MAX_LIMIT {
        MAX_LIMIT
    } else {
        asked
    }
}

/// One chunk as the model sees it: `[title #ordinal — heading]` and the text under it.
pub open spec fn chunk_text(title: Seq<char>, ordinal: u32, heading: Option<String>, text: Seq<char>) -> Seq<char> {
    "["@ + title + " #"@ + decimal_text(ordinal as nat) + match heading {
        Some(h) => " — "@ + h@,
        None => Seq::empty(),
    } + "]\n"@ + text
}

pub fn render_chunk(title: &str, ordinal: u32, heading: &Option<String>, text: &str) -> (r: String)
    ensures
        r@ == chunk_text(title@, ordinal, *heading, text@),
{
    let mut out = String::from_str("[");
    out.append(title);
    out.append(" #");
    let number = decimal(ordinal as u64);
    out.append(number.as_str());
    match heading {
        Some(h) => {
            out.append(" — ");
            out.append(h.as_str());
        },
        None => {},
    }
    out.append("]\n");
    out.append(text);
    proof {
        assert(out@ =~= chunk_text(title@, ordinal, *heading, text@));
    }
    out
}

/// Blocks separated by blank lines.
pub open spec fn blocks_text(blocks: Seq<String>) -> Seq<char>
    decreases blocks.len(),
{
    if blocks.len() == 0 {
        Seq::empty()
    } else if blocks.len() == 1 {
        blocks[0]@
    } else {
        blocks_text(blocks.drop_last()) + "\n\n"@ + blocks.last()@
    }
}

pub fn join_blocks(blocks: &Vec<String>) -> (r: String)
    ensures
        r@ == blocks_text(blocks@),
{
    let mut out = String::new();
    let mut i: usize = 0;
    while i < blocks.len()
        invariant
            i <= blocks@.len(),
            out@ == blocks_text(blocks@.take(i as int)),
        decreases blocks.len() - i,
    {
        let ghost t = blocks@.take(i + 1);
        proof {
            assert(t.drop_last() =~= blocks@.take(i as int));
            if i == 0 {
                assert(blocks@.take(0) =~= Seq::<String>::empty());
                assert(t[0] == blocks@[0]);
            }
        }
        if i > 0 {
            out.append("\n\n");
        }
        out.append(blocks[i].as_str());
        proof {
            assert(out@ =~= blocks_text(t));
        }
        i = i + 1;
    }
    proof {
        assert(blocks@.take(blocks.len() as int) =~= blocks@);
    }
    out
}

/// What `list` tells the model: which ids it gives, which sibling reads them, and which to ask
/// with keywords while semantic search is not ready.
pub open spec fn list_text(v: Vocab) -> Seq<char> {
    "Liệt kê "@ + v.what@ + ": mã, tên, định dạng và số đoạn. Dùng mã ở đây cho `"@ + v.read@
        + "`. Kết quả cũng nói phần tìm theo ý nghĩa đã sẵn sàng chưa — khi chưa, hãy hỏi `"@ + v.search@
        + "` bằng từ khoá cụ thể."@
}

/// What `search` tells the model: to cite title and ordinal, and which sibling reads around a hit.
pub open spec fn search_text(v: Vocab) -> Seq<char> {
    "Tìm những đoạn liên quan trong "@ + v.what@
        + ". Kết hợp tìm theo từ khoá với tìm theo ý nghĩa, nên hỏi bằng cả một câu cũng được. Mỗi kết quả mang tên "@
        + v.item@ + " và số thứ tự đoạn — hãy trích dẫn chúng khi trả lời, và dùng `"@ + v.read@
        + "` để đọc thêm phần trước sau của một đoạn."@
}

/// What `read` tells the model: that `offset` counts the ordinals its sibling search printed.
pub open spec fn read_text(v: Vocab) -> Seq<char> {
    "Đọc một "@ + v.item@ + " theo thứ tự, từng đoạn một. Dùng nó sau `"@ + v.search@
        + "` để xem phần trước và sau của một đoạn đã tìm được; `offset` đếm theo số thứ tự đoạn mà `"@ + v.search@
        + "` đã in ra."@
}

/// The description of the mount's `list` tool; the tools it names are this mount's own.
pub fn list_description(v: &Vocab) -> (r: String)
    ensures
        r@ == list_text(*v),
{
    String::from_str("Liệt kê ").concat(v.what).concat(": mã, tên, định dạng và số đoạn. Dùng mã ở đây cho `")
        .concat(v.read).concat("`. Kết quả cũng nói phần tìm theo ý nghĩa đã sẵn sàng chưa — khi chưa, hãy hỏi `")
        .concat(v.search).concat("` bằng từ khoá cụ thể.")
}

/// The description of the mount's `search` tool.
pub fn search_description(v: &Vocab) -> (r: String)
    ensures
        r@ == search_text(*v),
{
    String::from_str("Tìm những đoạn liên quan trong ").concat(v.what).concat(
        ". Kết hợp tìm theo từ khoá với tìm theo ý nghĩa, nên hỏi bằng cả một câu cũng được. Mỗi kết quả mang tên ",
    ).concat(v.item).concat(" và số thứ tự đoạn — hãy trích dẫn chúng khi trả lời, và dùng `").concat(v.read).concat(
        "` để đọc thêm phần trước sau của một đoạn.",
    )
}

/// The description of the mount's `read` tool.
pub fn read_description(v: &Vocab) -> (r: String)
    ensures
        r@ == read_text(*v),
{
    String::from_str("Đọc một ").concat(v.item).concat(" theo thứ tự, từng đoạn một. Dùng nó sau `").concat(v.search)
        .concat("` để xem phần trước và sau của một đoạn đã tìm được; `offset` đếm theo số thứ tự đoạn mà `").concat(
        v.search,
    ).concat("` đã in ra.")
}

pub const EMPTY_LIBRARY: &'static str = "Thư viện tài liệu của dự án này đang trống. Không có tool nào nạp tài liệu được — thư viện là thư mục của dự án, và người dùng thêm tệp bằng cách đặt tệp vào đó.";

/// The note after a document: why it is not embedded, that it waits, or nothing.
pub open spec fn embed_note(doc: Document) -> Seq<char> {
    match doc.error {
        Some(e) => " — chưa nhúng: "@ + e@,
        None => if !doc.embedded {
            " — đang chờ nhúng"@
        } else {
            Seq::empty()
        },
    }
}

/// One line of the document list.
pub open spec fn document_line(doc: Document) -> Seq<char> {
    doc.id@ + "  "@ + doc.title@ + "  ["@ + doc.format.label() + ", "@ + decimal_text(doc.chunks as nat) + " đoạn]"@
        + embed_note(doc)
}

pub open spec fn document_lines(docs: Seq<Document>) -> Seq<char>
    decreases docs.len(),
{
    if docs.len() == 0 {
        Seq::empty()
    } else if docs.len() == 1 {
        document_line(docs[0])
    } else {
        document_lines(docs.drop_last()) + "\n"@ + document_line(docs.last())
    }
}

/// The whole answer of `docs.list`: the documents, or the empty-library sentence, and the
/// library's reason for keyword-only search after a blank line.
pub open spec fn listing_text(docs: Seq<Document>, reason: Option<String>) -> Seq<char> {
    (if docs.len() == 0 {
        EMPTY_LIBRARY@
    } else {
        document_lines(docs)
    }) + match reason {
        Some(r) => "\n\n"@ + r@,
        None => Seq::empty(),
    }
}

fn document_line_of(doc: &Document) -> (r: String)
    ensures
        r@ == document_line(*doc),
{
    let mut out = doc.id.clone();
    out.append("  ");
    out.append(doc.title.as_str());
    out.append("  [");
    out.append(doc.format.as_str());
    out.append(", ");
    let chunks = decimal(doc.chunks as u64);
    out.append(chunks.as_str());
    out.append(" đoạn]");
    match &doc.error {
        Some(e) => {
            out.append(" — chưa nhúng: ");
            out.append(e.as_str());
        },
        None => if !doc.embedded {
            out.append(" — đang chờ nhúng");
        },
    }
    proof {
        assert(out@ =~= document_line(*doc));
    }
    out
}

pub fn documents_listing(docs: &Vec<Document>, reason: &Option<String>) -> (r: String)
    ensures
        r@ == listing_text(docs@, *reason),
{
    let mut out = String::new();
    if docs.len() == 0 {
        out.append(EMPTY_LIBRARY);
    } else {
        let mut i: usize = 0;
        while i < docs.len()
            invariant
                0 < docs@.len(),
                i <= docs@.len(),
                out@ == document_lines(docs@.take(i as int)),
            decreases docs.len() - i,
        {
            let ghost t = docs@.take(i + 1);
            proof {
                assert(t.drop_last() =~= docs@.take(i as int));
                if i == 0 {
                    assert(docs@.take(0) =~= Seq::<Document>::empty());
                    assert(t[0] == docs@[0]);
                }
            }
            if i > 0 {
                out.append("\n");
            }
            let line = document_line_of(&docs[i]);
            out.append(line.as_str());
            proof {
                assert(out@ =~= document_lines(t));
            }
            i = i + 1;
        }
        proof {
            assert(docs@.take(docs.len() as int) =~= docs@);
        }
    }
    match reason {
        Some(r) => {
            out.append("\n\n");
            out.append(r.as_str());
        },
        None => {},
    }
    out
}

/// The answer of `docs.read` past the last chunk.
pub open spec fn no_chunks_text(document_id: Seq<char>, offset: usize, list_tool: Seq<char>) -> Seq<char> {
    "`"@ + document_id + "` không có đoạn nào từ vị trí "@ + decimal_text(offset as nat) + ". Dùng `"@ + list_tool
        + "` để xem nó có bao nhiêu đoạn."@
}

pub fn no_chunks(document_id: &str, offset: usize, list_tool: &str) -> (r: String)
    ensures
        r@ == no_chunks_text(document_id@, offset, list_tool@),
{
    let r = String::from_str("`").concat(document_id).concat("` không có đoạn nào từ vị trí ").concat(
        decimal(offset as u64).as_str(),
    ).concat(". Dùng `").concat(list_tool).concat("` để xem nó có bao nhiêu đoạn.");
    r
}

/// The answer of `docs.search` when nothing matched: how many documents were searched, and why
/// the search may have been keyword-only.
pub open spec fn no_match_text(query: Seq<char>, documents: u32, reason: Option<String>) -> Seq<char> {
    "Không có đoạn nào khớp `"@ + query + "` trong "@ + decimal_text(documents as nat) + " tài liệu của thư viện."@
        + match reason {
        Some(r) => "\n\n"@ + r@,
        None => Seq::empty(),
    }
}

pub fn no_match(query: &str, documents: u32, reason: &Option<String>) -> (r: String)
    ensures
        r@ == no_match_text(query@, documents, *reason),
{
    let mut out = String::from_str("Không có đoạn nào khớp `").concat(query).concat("` trong ").concat(
        decimal(documents as u64).as_str(),
    ).concat(" tài liệu của thư viện.");
    match reason {
        Some(r) => {
            out.append("\n\n");
            out.append(r.as_str());
        },
        None => {},
    }
    out
}

} // verus!
