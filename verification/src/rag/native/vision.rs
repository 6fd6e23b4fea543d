//! Reading text off images with a vision model over the OpenAI chat protocol: which model, which
//! URL, what the model is told, and what of its answer is the text. The request itself is the
//! caller's.

use vstd::prelude::*;

use crate::rag::error::RagError;
use crate::rag::native::config::{ProviderConfig, url_root};
use crate::rag::native::embedding::first_line_of;
use crate::text::{trim, trimmed};

verus! {

/// What the vision model is asked: all visible text, tables and lists kept as Markdown, nothing
/// summarised, translated or added.
pub const OCR_PROMPT: &'static str = "Trích xuất toàn bộ chữ nhìn thấy được trong ảnh này. Giữ nguyên tiêu đề, danh sách và bảng ở dạng Markdown. Không tóm tắt, không dịch, không thêm bất cứ chữ nào không có trong ảnh. Nếu ảnh không có chữ nào, trả về đúng một dòng trống.";

pub const NO_VISION_MODEL: &'static str = "chưa chọn mô hình vision. Chọn một mô hình đọc ảnh trong Cài đặt.";

/// A vision client needs a model name.
pub fn check_vision_model(provider: &ProviderConfig) -> (r: Result<(), RagError>)
    ensures
        trimmed(provider.model@).len() == 0 ==> (r matches Err(RagError::Unavailable(e)) && e@ == NO_VISION_MODEL@),
        trimmed(provider.model@).len() > 0 ==> r is Ok,
{
    if trim(provider.model.as_str()).unicode_len() == 0 {
        return Err(RagError::Unavailable(String::from_str(NO_VISION_MODEL)));
    }
    Ok(())
}

/// Where OCR requests go: the provider's root, then the chat completions path.
pub fn vision_endpoint(provider: &ProviderConfig) -> (r: String)
    ensures
        r@ == url_root(provider.base_url@) + "/v1/chat/completions"@,
{
    provider.root().concat("/v1/chat/completions")
}

/// The message content of a chat answer: a plain string, or a list of parts of which those
/// carrying text count.
pub enum Content {
    Text(String),
    /// Each part's `text`, when it has one.
    Parts(Vec<Option<String>>),
    /// Anything else.
    Other,
}

/// The texts of the parts that have one, each on its own line.
pub open spec fn joined_parts(parts: Seq<Option<String>>) -> Seq<char>
    decreases parts.len(),
{
    if parts.len() == 0 {
        Seq::empty()
    } else {
        let head = joined_parts(parts.drop_last());
        match parts.last() {
            Some(t) => if texts_in(parts.drop_last()) == 0 {
                t@
            } else {
                head + "\n"@ + t@
            },
            None => head,
        }
    }
}

/// How many parts carry text.
pub open spec fn texts_in(parts: Seq<Option<String>>) -> nat
    decreases parts.len(),
{
    if parts.len() == 0 {
        0
    } else {
        texts_in(parts.drop_last()) + if parts.last() is Some { 1nat } else { 0nat }
    }
}

/// The text of an answer's content, before trimming.
pub open spec fn content_text(content: Content) -> Seq<char> {
    match content {
        Content::Text(t) => t@,
        Content::Parts(parts) => joined_parts(parts@),
        Content::Other => Seq::empty(),
    }
}

/// Both shapes of an OpenAI answer's content, read as text.
pub fn read_content(content: &Content) -> (r: String)
    ensures
        r@ == content_text(*content),
{
    match content {
        Content::Text(t) => t.clone(),
        Content::Parts(parts) => {
            let mut out = String::new();
            let mut count: usize = 0;
            let mut i: usize = 0;
            while i < parts.len()
                invariant
                    i <= parts@.len(),
                    out@ == joined_parts(parts@.take(i as int)),
                    count == texts_in(parts@.take(i as int)),
                    count <= i,
                decreases parts.len() - i,
            {
                proof {
                    assert(parts@.take(i + 1).drop_last() =~= parts@.take(i as int));
                    assert(parts@.take(i + 1).last() == parts@[i as int]);
                }
                match &parts[i] {
                    Some(t) => {
                        if count > 0 {
                            out = out.concat("\n").concat(t.as_str());
                        } else {
                            out = t.clone();
                        }
                        count = count + 1;
                    },
                    None => {},
                }
                i = i + 1;
            }
            proof {
                assert(parts@.take(parts@.len() as int) =~= parts@);
            }
            out
        },
        Content::Other => String::new(),
    }
}

/// The text the model read: the content's text, trimmed.
pub fn ocr_text(content: &Content) -> (r: String)
    ensures
        r@ == trimmed(content_text(*content)),
{
    let text = read_content(content);
    String::from_str(trim(text.as_str()))
}

/// A refused OCR request names the model, the status line and the first line of the reply.
pub fn ocr_refusal(model: &str, status: &str, body: &str) -> (r: RagError)
    ensures
        r matches RagError::Extraction(e) && e@ == "model vision `"@ + model@ + "` trả "@ + status@ + ": "@
            + first_line_of(body@),
{
    let line = crate::rag::native::embedding::first_line(body);
    RagError::Extraction(
        String::from_str("model vision `").concat(model).concat("` trả ").concat(status).concat(": ").concat(
            line.as_str(),
        ),
    )
}

} // verus!
