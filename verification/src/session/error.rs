//! Session log errors. Each variant names a violated invariant, so callers can tell "this log
//! is broken" from "the request was wrong".

use vstd::prelude::*;

use crate::text::{decimal, decimal_text, hex_text, lower_hex, signed_decimal, signed_text};

verus! {

/// The JSON error type the payload codec reports.
#[verifier::external_type_specification]
#[verifier::external_body]
pub struct ExJsonError(serde_json::Error);

#[derive(Debug)]
pub enum SessionError {
    NotFound(String),
    AlreadyExists(String),
    /// A bad fork boundary; never rounded.
    InvalidBoundary { boundary: u64, reason: &'static str },
    /// Cutting inside an open turn would leave a `turn/start` that never closes.
    OpenTurn { boundary: u64, turn: u64 },
    SurfaceOpRequired(&'static str),
    SurfaceOpForbidden(&'static str),
    SurfaceRangeOutOfBounds { start: usize, end: usize, len: usize },
    /// A `replace` must cite every node it shadows.
    UncitedShadow { missing: Vec<u64> },
    /// The central invariant: `seq` equals the position in the log.
    SeqGap { expected: u64, found: u64 },
    /// An unknown event type that does not declare itself skippable.
    FormatUnsupported(String),
    NotOurStore { found: i32 },
    SchemaVersion { found: i32, expected: i32 },
    ConcurrentWrite(String),
    Json(serde_json::Error),
    Unavailable(String),
}

/// `Vec<u64>`'s `Debug`: the numbers in brackets, separated by a comma and a space.
pub open spec fn debug_list(v: Seq<u64>) -> Seq<char> {
    "["@ + list_items(v) + "]"@
}

pub open spec fn list_items(v: Seq<u64>) -> Seq<char>
    decreases v.len(),
{
    if v.len() == 0 {
        Seq::empty()
    } else if v.len() == 1 {
        decimal_text(v[0] as nat)
    } else {
        list_items(v.drop_last()) + ", "@ + decimal_text(v.last() as nat)
    }
}

/// The bits of an `i32` read as unsigned, which is what `{:#x}` prints.
pub open spec fn bits32(n: i32) -> nat {
    if n < 0 {
        (n + 0x1_0000_0000) as nat
    } else {
        n as nat
    }
}

pub const JSON_HEAD: &'static str = "dữ liệu sự kiện không hợp lệ: ";

/// Calls `serde_json::Error`'s `Display`. What the codec says of its own failure (line,
/// column, cause) is its own text; nothing about it is stated here.
#[verifier::external_body]
fn json_error_text(e: &serde_json::Error) -> String {
    e.to_string()
}

impl SessionError {
    /// The message shown to the user, for every error but a codec failure, whose own text follows
    /// a fixed head.
    pub open spec fn text(&self) -> Seq<char> {
        match self {
            SessionError::NotFound(id) => "không tìm thấy phiên `"@ + id@ + "`"@,
            SessionError::AlreadyExists(id) => "phiên `"@ + id@ + "` đã tồn tại"@,
            SessionError::InvalidBoundary { boundary, reason } => "ranh giới fork "@ + decimal_text(*boundary as nat)
                + " không hợp lệ: "@ + reason@,
            SessionError::OpenTurn { boundary, turn } => "ranh giới "@ + decimal_text(*boundary as nat)
                + " nằm giữa lượt "@ + decimal_text(*turn as nat)
                + " đang mở (có turn/start, chưa có turn/end)"@,
            SessionError::SurfaceOpRequired(name) => "sự kiện surface `"@ + name@ + "` bắt buộc phải mang surface_op"@,
            SessionError::SurfaceOpForbidden(name) => "sự kiện log-only `"@ + name@
                + "` không được mang surface_op hay source_event_seqs"@,
            SessionError::SurfaceRangeOutOfBounds { start, end, len } => "dải replace "@ + decimal_text(*start as nat)
                + ".."@ + decimal_text(*end as nat) + " nằm ngoài "@ + decimal_text(*len as nat)
                + " node surface hiện có"@,
            SessionError::UncitedShadow { missing } => "replace phải kê mọi node bị che trong source_event_seqs; thiếu "@
                + debug_list(missing@),
            SessionError::SeqGap { expected, found } => "seq không liền mạch: chờ "@ + decimal_text(*expected as nat)
                + ", gặp "@ + decimal_text(*found as nat),
            SessionError::FormatUnsupported(kind) => "phiên dùng loại sự kiện `"@ + kind@
                + "` mà bản này không hiểu; hãy nâng cấp ứng dụng"@,
            SessionError::NotOurStore { found } => "tệp này không phải kho phiên của pai (application_id=0x"@
                + hex_text(bits32(*found)) + ")"@,
            SessionError::SchemaVersion { found, expected } => "kho phiên ở schema v"@ + signed_text(*found as int)
                + ", bản này nói v"@ + signed_text(*expected as int),
            SessionError::ConcurrentWrite(id) => "phiên `"@ + id@ + "` đã bị ghi bởi nơi khác kể từ lần đọc gần nhất"@,
            SessionError::Json(_) => JSON_HEAD@,
            SessionError::Unavailable(why) => "kho phiên không dùng được nữa: "@ + why@,
        }
    }

    /// The message shown to the user.
    pub fn describe(&self) -> (r: String)
        ensures
            !(self is Json) ==> r@ == self.text(),
            self is Json ==> r@.len() >= JSON_HEAD@.len() && r@.take(JSON_HEAD@.len() as int) == JSON_HEAD@,
    {
        match self {
            SessionError::NotFound(id) => String::from_str("không tìm thấy phiên `").concat(id.as_str()).concat("`"),
            SessionError::AlreadyExists(id) => String::from_str("phiên `").concat(id.as_str()).concat("` đã tồn tại"),
            SessionError::InvalidBoundary { boundary, reason } => String::from_str("ranh giới fork ").concat(
                decimal(*boundary).as_str(),
            ).concat(" không hợp lệ: ").concat(reason),
            SessionError::OpenTurn { boundary, turn } => String::from_str("ranh giới ").concat(
                decimal(*boundary).as_str(),
            ).concat(" nằm giữa lượt ").concat(decimal(*turn).as_str()).concat(
                " đang mở (có turn/start, chưa có turn/end)",
            ),
            SessionError::SurfaceOpRequired(name) => String::from_str("sự kiện surface `").concat(name).concat(
                "` bắt buộc phải mang surface_op",
            ),
            SessionError::SurfaceOpForbidden(name) => String::from_str("sự kiện log-only `").concat(name).concat(
                "` không được mang surface_op hay source_event_seqs",
            ),
            SessionError::SurfaceRangeOutOfBounds { start, end, len } => String::from_str("dải replace ").concat(
                decimal(*start as u64).as_str(),
            ).concat("..").concat(decimal(*end as u64).as_str()).concat(" nằm ngoài ").concat(
                decimal(*len as u64).as_str(),
            ).concat(" node surface hiện có"),
            SessionError::UncitedShadow { missing } => String::from_str(
                "replace phải kê mọi node bị che trong source_event_seqs; thiếu ",
            ).concat(debug_numbers(missing).as_str()),
            SessionError::SeqGap { expected, found } => String::from_str("seq không liền mạch: chờ ").concat(
                decimal(*expected).as_str(),
            ).concat(", gặp ").concat(decimal(*found).as_str()),
            SessionError::FormatUnsupported(kind) => String::from_str("phiên dùng loại sự kiện `").concat(
                kind.as_str(),
            ).concat("` mà bản này không hiểu; hãy nâng cấp ứng dụng"),
            SessionError::NotOurStore { found } => {
                let bits: u64 = if *found < 0 {
                    (*found as i64 + 0x1_0000_0000i64) as u64
                } else {
                    *found as u64
                };
                String::from_str("tệp này không phải kho phiên của pai (application_id=0x").concat(
                    lower_hex(bits).as_str(),
                ).concat(")")
            },
            SessionError::SchemaVersion { found, expected } => String::from_str("kho phiên ở schema v").concat(
                signed_decimal(*found as i64).as_str(),
            ).concat(", bản này nói v").concat(signed_decimal(*expected as i64).as_str()),
            SessionError::ConcurrentWrite(id) => String::from_str("phiên `").concat(id.as_str()).concat(
                "` đã bị ghi bởi nơi khác kể từ lần đọc gần nhất",
            ),
            SessionError::Json(e) => {
                let r = String::from_str(JSON_HEAD).concat(json_error_text(e).as_str());
                proof {
                    assert(r@.take(JSON_HEAD@.len() as int) =~= JSON_HEAD@);
                }
                r
            },
            SessionError::Unavailable(why) => String::from_str("kho phiên không dùng được nữa: ").concat(why.as_str()),
        }
    }
}

/// `Vec<u64>`'s `Debug`.
pub fn debug_numbers(v: &Vec<u64>) -> (r: String)
    ensures
        r@ == debug_list(v@),
{
    let mut items = String::new();
    let mut i: usize = 0;
    while i < v.len()
        invariant
            i <= v@.len(),
            items@ == list_items(v@.take(i as int)),
        decreases v.len() - i,
    {
        proof {
            assert(v@.take(i + 1).drop_last() =~= v@.take(i as int));
            assert(v@.take(i + 1).last() == v@[i as int]);
        }
        if i > 0 {
            items = items.concat(", ");
        }
        items = items.concat(decimal(v[i]).as_str());
        proof {
            if i == 0 {
                assert(v@.take(1)[0] == v@[0]);
            }
        }
        i = i + 1;
    }
    proof {
        assert(v@.take(v@.len() as int) =~= v@);
    }
    String::from_str("[").concat(items.as_str()).concat("]")
}

/// `head: detail`.
pub fn format_text(head: &str, detail: &str) -> (r: String)
    ensures
        r@ == head@ + ": "@ + detail@,
{
    let r = String::from_str(head);
    let r = r.concat(": ");
    r.concat(detail)
}

} // verus!
