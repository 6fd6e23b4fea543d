//! Document library errors. Each variant exists because the user must be able to read it and
//! know what to do next.

use vstd::prelude::*;

use crate::text::{decimal, decimal_text};

verus! {

#[derive(Debug)]
pub enum RagError {
    /// Service is down, silent, or returned something unreadable; the message says what to do.
    Service(String),
    NotFound(String),
    /// A real capability that is currently off: no embedding model chosen, no project open.
    Unavailable(String),
    /// One file could not be read; it spoils only itself, and the message says why.
    Extraction(String),
    /// No reader takes this kind of file.
    Unsupported(String),
    /// The file is over the size cap.
    TooLarge { path: String, bytes: u64, limit: u64 },
    /// A text file that holds a NUL byte among its first bytes.
    Binary(String),
    /// The file opened but gave no text; the reason says what to do next.
    Empty { path: String, reason: String },
    /// The reader could not read the file.
    Extract { path: String, message: String },
}

impl RagError {
    pub open spec fn text(&self) -> Seq<char> {
        match self {
            RagError::Service(why) => why@,
            RagError::NotFound(id) => "không có tài liệu nào mang mã `"@ + id@ + "`"@,
            RagError::Unavailable(why) => why@,
            RagError::Extraction(why) => why@,
            RagError::Unsupported(path) => "không hỗ trợ định dạng của `"@ + path@ + "`"@,
            RagError::TooLarge { path, bytes, limit } => "`"@ + path@ + "` nặng "@ + decimal_text(*bytes as nat)
                + " byte, vượt trần "@ + decimal_text(*limit as nat) + " byte"@,
            RagError::Binary(path) => "`"@ + path@ + "` trông như tệp nhị phân dù mang đuôi văn bản"@,
            RagError::Empty { path, reason } => "`"@ + path@ + "` không cho chữ nào: "@ + reason@,
            RagError::Extract { path, message } => "không rút được chữ từ `"@ + path@ + "`: "@ + message@,
        }
    }

    /// The message shown to the user.
    pub fn message(&self) -> (r: String)
        ensures
            r@ == self.text(),
    {
        match self {
            RagError::Service(why) => why.clone(),
            RagError::NotFound(id) => String::from_str("không có tài liệu nào mang mã `").concat(
                id.as_str(),
            ).concat("`"),
            RagError::Unavailable(why) => why.clone(),
            RagError::Extraction(why) => why.clone(),
            RagError::Unsupported(path) => String::from_str("không hỗ trợ định dạng của `").concat(path.as_str()).concat("`"),
            RagError::TooLarge { path, bytes, limit } => {
                let size = decimal(*bytes);
                let cap = decimal(*limit);
                String::from_str("`").concat(path.as_str()).concat("` nặng ").concat(size.as_str()).concat(
                    " byte, vượt trần ",
                ).concat(cap.as_str()).concat(" byte")
            },
            RagError::Binary(path) => String::from_str("`").concat(path.as_str()).concat(
                "` trông như tệp nhị phân dù mang đuôi văn bản",
            ),
            RagError::Empty { path, reason } => String::from_str("`").concat(path.as_str()).concat("` không cho chữ nào: ").concat(
                reason.as_str(),
            ),
            RagError::Extract { path, message } => String::from_str("không rút được chữ từ `").concat(path.as_str()).concat(
                "`: ",
            ).concat(message.as_str()),
        }
    }

    /// A failure of one file rather than of the library.
    pub fn is_extraction(&self) -> (r: bool)
        ensures
            r == (self is Extraction),
    {
        matches!(self, RagError::Extraction(_))
    }
}

} // verus!
