//! The store's own format labels and the text rules of its readers: which files the library
//! takes by extension, what a title is, how stripped markup is tidied, and what an empty file
//! is told.

use vstd::prelude::*;

use crate::rag::native::embedding::before_newline;
use crate::rag::error::RagError;
use crate::rag::native::extract::{
    DOCX_BODY, XmlEvent, ZipEntry, ZipEntryView, binary, lossy_utf8, next_xml,
    open_xml, or_empty, pending_events, read_zip_entry, str_views, unescape_reference, utf8_lossy,
    well_ended, xml_events_of, xml_unescape, zip_entry_of,
};
use crate::rag::paths::{extension_of, path_extension};
use crate::text::{blank, equals_lower, is_blank, is_ws, lower, lower_char, str_eq, strip_back, strip_front, trim, trimmed};

verus! {

/// Bumped whenever a reader produces different text from the same file.
pub const EXTRACT_VERSION: u32 = 2;

/// The ceiling on one file; both the PDF reader and the chunker hold it whole in memory.
pub const MAX_FILE_BYTES: u64 = 64 * 1024 * 1024;

#[derive(Clone, Copy, Debug, PartialEq, Eq, Structural)]
pub enum Format {
    Pdf,
    Docx,
    Markdown,
    Text,
    Html,
    Csv,
    Code,
}

impl Format {
    pub open spec fn label(self) -> Seq<char> {
        match self {
            Format::Pdf => "pdf"@,
            Format::Docx => "docx"@,
            Format::Markdown => "markdown"@,
            Format::Text => "text"@,
            Format::Html => "html"@,
            Format::Csv => "csv"@,
            Format::Code => "code"@,
        }
    }

    pub fn as_str(self) -> (r: &'static str)
        ensures
            r@ == self.label(),
    {
        match self {
            Format::Pdf => "pdf",
            Format::Docx => "docx",
            Format::Markdown => "markdown",
            Format::Text => "text",
            Format::Html => "html",
            Format::Csv => "csv",
            Format::Code => "code",
        }
    }

    /// A stored label, exactly as written; anything else can only come from an older build
    /// and reads as text.
    pub fn parse(name: &str) -> (r: Format)
        ensures
            r == (if name@ == "pdf"@ {
                Format::Pdf
            } else if name@ == "docx"@ {
                Format::Docx
            } else if name@ == "markdown"@ {
                Format::Markdown
            } else if name@ == "html"@ {
                Format::Html
            } else if name@ == "csv"@ {
                Format::Csv
            } else if name@ == "code"@ {
                Format::Code
            } else {
                Format::Text
            }),
    {
        if str_eq(name, "pdf") {
            Format::Pdf
        } else if str_eq(name, "docx") {
            Format::Docx
        } else if str_eq(name, "markdown") {
            Format::Markdown
        } else if str_eq(name, "html") {
            Format::Html
        } else if str_eq(name, "csv") {
            Format::Csv
        } else if str_eq(name, "code") {
            Format::Code
        } else {
            Format::Text
        }
    }
}

/// What a reader produced.
#[derive(Clone, Debug)]
pub struct Extracted {
    pub text: String,
    pub format: Format,
    /// The display name; a title inside the document beats the file name.
    pub title: String,
}

pub open spec fn code_extensions() -> Seq<Seq<char>> {
    seq![
        "rs"@, "ts"@, "tsx"@, "js"@, "jsx"@, "py"@, "go"@, "java"@, "kt"@, "swift"@, "c"@, "h"@,
        "cc"@, "cpp"@, "hpp"@, "cs"@, "rb"@, "php"@, "sh"@, "bash"@, "zsh"@, "sql"@, "toml"@,
        "yaml"@, "yml"@, "json"@, "ini"@, "cfg"@, "xml"@, "lua"@, "r"@, "m"@, "scala"@, "dart"@,
        "vue"@, "svelte"@,
    ]
}

/// The format a lower-case extension names; `None` when the library does not read it. A file
/// without an extension (`README`, `Makefile`) is text.
pub open spec fn format_of_extension(e: Seq<char>) -> Option<Format> {
    if e == "pdf"@ {
        Some(Format::Pdf)
    } else if e == "docx"@ {
        Some(Format::Docx)
    } else if e == "md"@ || e == "markdown"@ || e == "mdx"@ {
        Some(Format::Markdown)
    } else if e == "html"@ || e == "htm"@ || e == "xhtml"@ {
        Some(Format::Html)
    } else if e == "csv"@ || e == "tsv"@ {
        Some(Format::Csv)
    } else if e == "txt"@ || e == "text"@ || e == "log"@ || e == "rst"@ || e == "adoc"@ || e == "org"@
        || e.len() == 0 {
        Some(Format::Text)
    } else if code_extensions().contains(e) {
        Some(Format::Code)
    } else {
        None
    }
}

/// Which extension names which format, in any case: `pdf` is a PDF; `docx` a Word document;
/// `md`, `markdown` and `mdx` are Markdown; `html`, `htm` and `xhtml` are HTML pages; `csv` and
/// `tsv` are tables; `txt`, `text`, `log`, `rst`, `adoc`, `org` and no extension at all are
/// plain text; each source-code extension is code; every other extension is refused.
pub proof fn law_extension_table(e: Seq<char>)
    ensures
        format_of_extension(lower(e)) == Some(Format::Pdf) <==> lower(e) == "pdf"@,
        format_of_extension(lower(e)) == Some(Format::Docx) <==> lower(e) == "docx"@,
        format_of_extension(lower(e)) == Some(Format::Markdown) <==> (lower(e) == "md"@ || lower(e) == "markdown"@
            || lower(e) == "mdx"@),
        format_of_extension(lower(e)) == Some(Format::Html) <==> (lower(e) == "html"@ || lower(e) == "htm"@
            || lower(e) == "xhtml"@),
        format_of_extension(lower(e)) == Some(Format::Csv) <==> (lower(e) == "csv"@ || lower(e) == "tsv"@),
        format_of_extension(lower(e)) == Some(Format::Text) <==> (lower(e) == "txt"@ || lower(e) == "text"@
            || lower(e) == "log"@ || lower(e) == "rst"@ || lower(e) == "adoc"@ || lower(e) == "org"@ || e.len() == 0),
        format_of_extension(lower(e)) == Some(Format::Code) <==> code_extensions().contains(lower(e)),
{
    reveal_strlit("pdf");
    assert("pdf"@.len() == 3 && "pdf"@[0] == 'p' && "pdf"@[1] == 'd' && "pdf"@[2] == 'f');
    reveal_strlit("docx");
    assert("docx"@.len() == 4 && "docx"@[0] == 'd' && "docx"@[1] == 'o' && "docx"@[2] == 'c' && "docx"@[3] == 'x');
    reveal_strlit("md");
    assert("md"@.len() == 2 && "md"@[0] == 'm' && "md"@[1] == 'd');
    reveal_strlit("markdown");
    assert("markdown"@.len() == 8 && "markdown"@[0] == 'm' && "markdown"@[1] == 'a' && "markdown"@[2] == 'r' && "markdown"@[3] == 'k' && "markdown"@[4] == 'd' && "markdown"@[5] == 'o' && "markdown"@[6] == 'w' && "markdown"@[7] == 'n');
    reveal_strlit("mdx");
    assert("mdx"@.len() == 3 && "mdx"@[0] == 'm' && "mdx"@[1] == 'd' && "mdx"@[2] == 'x');
    reveal_strlit("html");
    assert("html"@.len() == 4 && "html"@[0] == 'h' && "html"@[1] == 't' && "html"@[2] == 'm' && "html"@[3] == 'l');
    reveal_strlit("htm");
    assert("htm"@.len() == 3 && "htm"@[0] == 'h' && "htm"@[1] == 't' && "htm"@[2] == 'm');
    reveal_strlit("xhtml");
    assert("xhtml"@.len() == 5 && "xhtml"@[0] == 'x' && "xhtml"@[1] == 'h' && "xhtml"@[2] == 't' && "xhtml"@[3] == 'm' && "xhtml"@[4] == 'l');
    reveal_strlit("csv");
    assert("csv"@.len() == 3 && "csv"@[0] == 'c' && "csv"@[1] == 's' && "csv"@[2] == 'v');
    reveal_strlit("tsv");
    assert("tsv"@.len() == 3 && "tsv"@[0] == 't' && "tsv"@[1] == 's' && "tsv"@[2] == 'v');
    reveal_strlit("txt");
    assert("txt"@.len() == 3 && "txt"@[0] == 't' && "txt"@[1] == 'x' && "txt"@[2] == 't');
    reveal_strlit("text");
    assert("text"@.len() == 4 && "text"@[0] == 't' && "text"@[1] == 'e' && "text"@[2] == 'x' && "text"@[3] == 't');
    reveal_strlit("log");
    assert("log"@.len() == 3 && "log"@[0] == 'l' && "log"@[1] == 'o' && "log"@[2] == 'g');
    reveal_strlit("rst");
    assert("rst"@.len() == 3 && "rst"@[0] == 'r' && "rst"@[1] == 's' && "rst"@[2] == 't');
    reveal_strlit("adoc");
    assert("adoc"@.len() == 4 && "adoc"@[0] == 'a' && "adoc"@[1] == 'd' && "adoc"@[2] == 'o' && "adoc"@[3] == 'c');
    reveal_strlit("org");
    assert("org"@.len() == 3 && "org"@[0] == 'o' && "org"@[1] == 'r' && "org"@[2] == 'g');
    reveal_strlit("rs");
    assert("rs"@.len() == 2 && "rs"@[0] == 'r' && "rs"@[1] == 's');
    reveal_strlit("ts");
    assert("ts"@.len() == 2 && "ts"@[0] == 't' && "ts"@[1] == 's');
    reveal_strlit("tsx");
    assert("tsx"@.len() == 3 && "tsx"@[0] == 't' && "tsx"@[1] == 's' && "tsx"@[2] == 'x');
    reveal_strlit("js");
    assert("js"@.len() == 2 && "js"@[0] == 'j' && "js"@[1] == 's');
    reveal_strlit("jsx");
    assert("jsx"@.len() == 3 && "jsx"@[0] == 'j' && "jsx"@[1] == 's' && "jsx"@[2] == 'x');
    reveal_strlit("py");
    assert("py"@.len() == 2 && "py"@[0] == 'p' && "py"@[1] == 'y');
    reveal_strlit("go");
    assert("go"@.len() == 2 && "go"@[0] == 'g' && "go"@[1] == 'o');
    reveal_strlit("java");
    assert("java"@.len() == 4 && "java"@[0] == 'j' && "java"@[1] == 'a' && "java"@[2] == 'v' && "java"@[3] == 'a');
    reveal_strlit("kt");
    assert("kt"@.len() == 2 && "kt"@[0] == 'k' && "kt"@[1] == 't');
    reveal_strlit("swift");
    assert("swift"@.len() == 5 && "swift"@[0] == 's' && "swift"@[1] == 'w' && "swift"@[2] == 'i' && "swift"@[3] == 'f' && "swift"@[4] == 't');
    reveal_strlit("c");
    assert("c"@.len() == 1 && "c"@[0] == 'c');
    reveal_strlit("h");
    assert("h"@.len() == 1 && "h"@[0] == 'h');
    reveal_strlit("cc");
    assert("cc"@.len() == 2 && "cc"@[0] == 'c' && "cc"@[1] == 'c');
    reveal_strlit("cpp");
    assert("cpp"@.len() == 3 && "cpp"@[0] == 'c' && "cpp"@[1] == 'p' && "cpp"@[2] == 'p');
    reveal_strlit("hpp");
    assert("hpp"@.len() == 3 && "hpp"@[0] == 'h' && "hpp"@[1] == 'p' && "hpp"@[2] == 'p');
    reveal_strlit("cs");
    assert("cs"@.len() == 2 && "cs"@[0] == 'c' && "cs"@[1] == 's');
    reveal_strlit("rb");
    assert("rb"@.len() == 2 && "rb"@[0] == 'r' && "rb"@[1] == 'b');
    reveal_strlit("php");
    assert("php"@.len() == 3 && "php"@[0] == 'p' && "php"@[1] == 'h' && "php"@[2] == 'p');
    reveal_strlit("sh");
    assert("sh"@.len() == 2 && "sh"@[0] == 's' && "sh"@[1] == 'h');
    reveal_strlit("bash");
    assert("bash"@.len() == 4 && "bash"@[0] == 'b' && "bash"@[1] == 'a' && "bash"@[2] == 's' && "bash"@[3] == 'h');
    reveal_strlit("zsh");
    assert("zsh"@.len() == 3 && "zsh"@[0] == 'z' && "zsh"@[1] == 's' && "zsh"@[2] == 'h');
    reveal_strlit("sql");
    assert("sql"@.len() == 3 && "sql"@[0] == 's' && "sql"@[1] == 'q' && "sql"@[2] == 'l');
    reveal_strlit("toml");
    assert("toml"@.len() == 4 && "toml"@[0] == 't' && "toml"@[1] == 'o' && "toml"@[2] == 'm' && "toml"@[3] == 'l');
    reveal_strlit("yaml");
    assert("yaml"@.len() == 4 && "yaml"@[0] == 'y' && "yaml"@[1] == 'a' && "yaml"@[2] == 'm' && "yaml"@[3] == 'l');
    reveal_strlit("yml");
    assert("yml"@.len() == 3 && "yml"@[0] == 'y' && "yml"@[1] == 'm' && "yml"@[2] == 'l');
    reveal_strlit("json");
    assert("json"@.len() == 4 && "json"@[0] == 'j' && "json"@[1] == 's' && "json"@[2] == 'o' && "json"@[3] == 'n');
    reveal_strlit("ini");
    assert("ini"@.len() == 3 && "ini"@[0] == 'i' && "ini"@[1] == 'n' && "ini"@[2] == 'i');
    reveal_strlit("cfg");
    assert("cfg"@.len() == 3 && "cfg"@[0] == 'c' && "cfg"@[1] == 'f' && "cfg"@[2] == 'g');
    reveal_strlit("xml");
    assert("xml"@.len() == 3 && "xml"@[0] == 'x' && "xml"@[1] == 'm' && "xml"@[2] == 'l');
    reveal_strlit("lua");
    assert("lua"@.len() == 3 && "lua"@[0] == 'l' && "lua"@[1] == 'u' && "lua"@[2] == 'a');
    reveal_strlit("r");
    assert("r"@.len() == 1 && "r"@[0] == 'r');
    reveal_strlit("m");
    assert("m"@.len() == 1 && "m"@[0] == 'm');
    reveal_strlit("scala");
    assert("scala"@.len() == 5 && "scala"@[0] == 's' && "scala"@[1] == 'c' && "scala"@[2] == 'a' && "scala"@[3] == 'l' && "scala"@[4] == 'a');
    reveal_strlit("dart");
    assert("dart"@.len() == 4 && "dart"@[0] == 'd' && "dart"@[1] == 'a' && "dart"@[2] == 'r' && "dart"@[3] == 't');
    reveal_strlit("vue");
    assert("vue"@.len() == 3 && "vue"@[0] == 'v' && "vue"@[1] == 'u' && "vue"@[2] == 'e');
    reveal_strlit("svelte");
    assert("svelte"@.len() == 6 && "svelte"@[0] == 's' && "svelte"@[1] == 'v' && "svelte"@[2] == 'e' && "svelte"@[3] == 'l' && "svelte"@[4] == 't' && "svelte"@[5] == 'e');
    assert forall|i: int| 0 <= i < code_extensions().len() implies {
        let x = #[trigger] code_extensions()[i];
        x != "pdf"@ && x != "docx"@ && x != "md"@ && x != "markdown"@ && x != "mdx"@ && x != "html"@ && x != "htm"@ && x != "xhtml"@ && x != "csv"@ && x != "tsv"@ && x != "txt"@ && x != "text"@ && x != "log"@ && x != "rst"@ && x != "adoc"@ && x != "org"@ && x.len() != 0
    } by {
        if i == 0 {
            assert(code_extensions()[i] == "rs"@);
        } else if i == 1 {
            assert(code_extensions()[i] == "ts"@);
        } else if i == 2 {
            assert(code_extensions()[i] == "tsx"@);
        } else if i == 3 {
            assert(code_extensions()[i] == "js"@);
        } else if i == 4 {
            assert(code_extensions()[i] == "jsx"@);
        } else if i == 5 {
            assert(code_extensions()[i] == "py"@);
        } else if i == 6 {
            assert(code_extensions()[i] == "go"@);
        } else if i == 7 {
            assert(code_extensions()[i] == "java"@);
        } else if i == 8 {
            assert(code_extensions()[i] == "kt"@);
        } else if i == 9 {
            assert(code_extensions()[i] == "swift"@);
        } else if i == 10 {
            assert(code_extensions()[i] == "c"@);
        } else if i == 11 {
            assert(code_extensions()[i] == "h"@);
        } else if i == 12 {
            assert(code_extensions()[i] == "cc"@);
        } else if i == 13 {
            assert(code_extensions()[i] == "cpp"@);
        } else if i == 14 {
            assert(code_extensions()[i] == "hpp"@);
        } else if i == 15 {
            assert(code_extensions()[i] == "cs"@);
        } else if i == 16 {
            assert(code_extensions()[i] == "rb"@);
        } else if i == 17 {
            assert(code_extensions()[i] == "php"@);
        } else if i == 18 {
            assert(code_extensions()[i] == "sh"@);
        } else if i == 19 {
            assert(code_extensions()[i] == "bash"@);
        } else if i == 20 {
            assert(code_extensions()[i] == "zsh"@);
        } else if i == 21 {
            assert(code_extensions()[i] == "sql"@);
        } else if i == 22 {
            assert(code_extensions()[i] == "toml"@);
        } else if i == 23 {
            assert(code_extensions()[i] == "yaml"@);
        } else if i == 24 {
            assert(code_extensions()[i] == "yml"@);
        } else if i == 25 {
            assert(code_extensions()[i] == "json"@);
        } else if i == 26 {
            assert(code_extensions()[i] == "ini"@);
        } else if i == 27 {
            assert(code_extensions()[i] == "cfg"@);
        } else if i == 28 {
            assert(code_extensions()[i] == "xml"@);
        } else if i == 29 {
            assert(code_extensions()[i] == "lua"@);
        } else if i == 30 {
            assert(code_extensions()[i] == "r"@);
        } else if i == 31 {
            assert(code_extensions()[i] == "m"@);
        } else if i == 32 {
            assert(code_extensions()[i] == "scala"@);
        } else if i == 33 {
            assert(code_extensions()[i] == "dart"@);
        } else if i == 34 {
            assert(code_extensions()[i] == "vue"@);
        } else if i == 35 {
            assert(code_extensions()[i] == "svelte"@);
        }
    }
    assert(lower(e).len() == e.len());
}

/// `e` spells `lo`, each letter either as in `lo` or as in `up`.
pub open spec fn spelled(e: Seq<char>, lo: Seq<char>, up: Seq<char>) -> bool {
    &&& e.len() == lo.len()
    &&& forall|k: int| 0 <= k < e.len() ==> #[trigger] e[k] == lo[k] || e[k] == up[k]
}

/// Folding an extension spelled with letters of `lo` or `up` gives `lo`, when each letter of
/// both folds to the one of `lo`.
proof fn lemma_spelled_folds(e: Seq<char>, lo: Seq<char>, up: Seq<char>)
    requires
        spelled(e, lo, up),
        up.len() == lo.len(),
        forall|k: int| 0 <= k < lo.len() ==> lower_char(#[trigger] lo[k]) == lo[k] && lower_char(up[k]) == lo[k],
    ensures
        lower(e) == lo,
{
    assert forall|k: int| 0 <= k < e.len() implies lower(e)[k] == lo[k] by {
        assert(e[k] == lo[k] || e[k] == up[k]);
    }
    assert(lower(e) =~= lo);
}


proof fn lemma_folds_pdf()
    ensures
        "PDF"@.len() == "pdf"@.len(),
        forall|k: int| 0 <= k < "pdf"@.len() ==> lower_char(#[trigger] "pdf"@[k]) == "pdf"@[k] && lower_char("PDF"@[k]) == "pdf"@[k],
{
    reveal_strlit("pdf");
    reveal_strlit("PDF");
    assert forall|k: int| 0 <= k < "pdf"@.len() implies lower_char(#[trigger] "pdf"@[k]) == "pdf"@[k] && lower_char("PDF"@[k]) == "pdf"@[k] by {
        if k == 0 {
            assert("pdf"@[k] == 'p' && "PDF"@[k] == 'P');
            assert(lower_char('p') == 'p' && lower_char('P') == 'p');
        } else if k == 1 {
            assert("pdf"@[k] == 'd' && "PDF"@[k] == 'D');
            assert(lower_char('d') == 'd' && lower_char('D') == 'd');
        } else if k == 2 {
            assert("pdf"@[k] == 'f' && "PDF"@[k] == 'F');
            assert(lower_char('f') == 'f' && lower_char('F') == 'f');
        }
    }
}

proof fn lemma_folds_docx()
    ensures
        "DOCX"@.len() == "docx"@.len(),
        forall|k: int| 0 <= k < "docx"@.len() ==> lower_char(#[trigger] "docx"@[k]) == "docx"@[k] && lower_char("DOCX"@[k]) == "docx"@[k],
{
    reveal_strlit("docx");
    reveal_strlit("DOCX");
    assert forall|k: int| 0 <= k < "docx"@.len() implies lower_char(#[trigger] "docx"@[k]) == "docx"@[k] && lower_char("DOCX"@[k]) == "docx"@[k] by {
        if k == 0 {
            assert("docx"@[k] == 'd' && "DOCX"@[k] == 'D');
            assert(lower_char('d') == 'd' && lower_char('D') == 'd');
        } else if k == 1 {
            assert("docx"@[k] == 'o' && "DOCX"@[k] == 'O');
            assert(lower_char('o') == 'o' && lower_char('O') == 'o');
        } else if k == 2 {
            assert("docx"@[k] == 'c' && "DOCX"@[k] == 'C');
            assert(lower_char('c') == 'c' && lower_char('C') == 'c');
        } else if k == 3 {
            assert("docx"@[k] == 'x' && "DOCX"@[k] == 'X');
            assert(lower_char('x') == 'x' && lower_char('X') == 'x');
        }
    }
}

proof fn lemma_folds_md()
    ensures
        "MD"@.len() == "md"@.len(),
        forall|k: int| 0 <= k < "md"@.len() ==> lower_char(#[trigger] "md"@[k]) == "md"@[k] && lower_char("MD"@[k]) == "md"@[k],
{
    reveal_strlit("md");
    reveal_strlit("MD");
    assert forall|k: int| 0 <= k < "md"@.len() implies lower_char(#[trigger] "md"@[k]) == "md"@[k] && lower_char("MD"@[k]) == "md"@[k] by {
        if k == 0 {
            assert("md"@[k] == 'm' && "MD"@[k] == 'M');
            assert(lower_char('m') == 'm' && lower_char('M') == 'm');
        } else if k == 1 {
            assert("md"@[k] == 'd' && "MD"@[k] == 'D');
            assert(lower_char('d') == 'd' && lower_char('D') == 'd');
        }
    }
}

proof fn lemma_folds_markdown()
    ensures
        "MARKDOWN"@.len() == "markdown"@.len(),
        forall|k: int| 0 <= k < "markdown"@.len() ==> lower_char(#[trigger] "markdown"@[k]) == "markdown"@[k] && lower_char("MARKDOWN"@[k]) == "markdown"@[k],
{
    reveal_strlit("markdown");
    reveal_strlit("MARKDOWN");
    assert forall|k: int| 0 <= k < "markdown"@.len() implies lower_char(#[trigger] "markdown"@[k]) == "markdown"@[k] && lower_char("MARKDOWN"@[k]) == "markdown"@[k] by {
        if k == 0 {
            assert("markdown"@[k] == 'm' && "MARKDOWN"@[k] == 'M');
            assert(lower_char('m') == 'm' && lower_char('M') == 'm');
        } else if k == 1 {
            assert("markdown"@[k] == 'a' && "MARKDOWN"@[k] == 'A');
            assert(lower_char('a') == 'a' && lower_char('A') == 'a');
        } else if k == 2 {
            assert("markdown"@[k] == 'r' && "MARKDOWN"@[k] == 'R');
            assert(lower_char('r') == 'r' && lower_char('R') == 'r');
        } else if k == 3 {
            assert("markdown"@[k] == 'k' && "MARKDOWN"@[k] == 'K');
            assert(lower_char('k') == 'k' && lower_char('K') == 'k');
        } else if k == 4 {
            assert("markdown"@[k] == 'd' && "MARKDOWN"@[k] == 'D');
            assert(lower_char('d') == 'd' && lower_char('D') == 'd');
        } else if k == 5 {
            assert("markdown"@[k] == 'o' && "MARKDOWN"@[k] == 'O');
            assert(lower_char('o') == 'o' && lower_char('O') == 'o');
        } else if k == 6 {
            assert("markdown"@[k] == 'w' && "MARKDOWN"@[k] == 'W');
            assert(lower_char('w') == 'w' && lower_char('W') == 'w');
        } else if k == 7 {
            assert("markdown"@[k] == 'n' && "MARKDOWN"@[k] == 'N');
            assert(lower_char('n') == 'n' && lower_char('N') == 'n');
        }
    }
}

proof fn lemma_folds_mdx()
    ensures
        "MDX"@.len() == "mdx"@.len(),
        forall|k: int| 0 <= k < "mdx"@.len() ==> lower_char(#[trigger] "mdx"@[k]) == "mdx"@[k] && lower_char("MDX"@[k]) == "mdx"@[k],
{
    reveal_strlit("mdx");
    reveal_strlit("MDX");
    assert forall|k: int| 0 <= k < "mdx"@.len() implies lower_char(#[trigger] "mdx"@[k]) == "mdx"@[k] && lower_char("MDX"@[k]) == "mdx"@[k] by {
        if k == 0 {
            assert("mdx"@[k] == 'm' && "MDX"@[k] == 'M');
            assert(lower_char('m') == 'm' && lower_char('M') == 'm');
        } else if k == 1 {
            assert("mdx"@[k] == 'd' && "MDX"@[k] == 'D');
            assert(lower_char('d') == 'd' && lower_char('D') == 'd');
        } else if k == 2 {
            assert("mdx"@[k] == 'x' && "MDX"@[k] == 'X');
            assert(lower_char('x') == 'x' && lower_char('X') == 'x');
        }
    }
}

proof fn lemma_folds_html()
    ensures
        "HTML"@.len() == "html"@.len(),
        forall|k: int| 0 <= k < "html"@.len() ==> lower_char(#[trigger] "html"@[k]) == "html"@[k] && lower_char("HTML"@[k]) == "html"@[k],
{
    reveal_strlit("html");
    reveal_strlit("HTML");
    assert forall|k: int| 0 <= k < "html"@.len() implies lower_char(#[trigger] "html"@[k]) == "html"@[k] && lower_char("HTML"@[k]) == "html"@[k] by {
        if k == 0 {
            assert("html"@[k] == 'h' && "HTML"@[k] == 'H');
            assert(lower_char('h') == 'h' && lower_char('H') == 'h');
        } else if k == 1 {
            assert("html"@[k] == 't' && "HTML"@[k] == 'T');
            assert(lower_char('t') == 't' && lower_char('T') == 't');
        } else if k == 2 {
            assert("html"@[k] == 'm' && "HTML"@[k] == 'M');
            assert(lower_char('m') == 'm' && lower_char('M') == 'm');
        } else if k == 3 {
            assert("html"@[k] == 'l' && "HTML"@[k] == 'L');
            assert(lower_char('l') == 'l' && lower_char('L') == 'l');
        }
    }
}

proof fn lemma_folds_htm()
    ensures
        "HTM"@.len() == "htm"@.len(),
        forall|k: int| 0 <= k < "htm"@.len() ==> lower_char(#[trigger] "htm"@[k]) == "htm"@[k] && lower_char("HTM"@[k]) == "htm"@[k],
{
    reveal_strlit("htm");
    reveal_strlit("HTM");
    assert forall|k: int| 0 <= k < "htm"@.len() implies lower_char(#[trigger] "htm"@[k]) == "htm"@[k] && lower_char("HTM"@[k]) == "htm"@[k] by {
        if k == 0 {
            assert("htm"@[k] == 'h' && "HTM"@[k] == 'H');
            assert(lower_char('h') == 'h' && lower_char('H') == 'h');
        } else if k == 1 {
            assert("htm"@[k] == 't' && "HTM"@[k] == 'T');
            assert(lower_char('t') == 't' && lower_char('T') == 't');
        } else if k == 2 {
            assert("htm"@[k] == 'm' && "HTM"@[k] == 'M');
            assert(lower_char('m') == 'm' && lower_char('M') == 'm');
        }
    }
}

proof fn lemma_folds_xhtml()
    ensures
        "XHTML"@.len() == "xhtml"@.len(),
        forall|k: int| 0 <= k < "xhtml"@.len() ==> lower_char(#[trigger] "xhtml"@[k]) == "xhtml"@[k] && lower_char("XHTML"@[k]) == "xhtml"@[k],
{
    reveal_strlit("xhtml");
    reveal_strlit("XHTML");
    assert forall|k: int| 0 <= k < "xhtml"@.len() implies lower_char(#[trigger] "xhtml"@[k]) == "xhtml"@[k] && lower_char("XHTML"@[k]) == "xhtml"@[k] by {
        if k == 0 {
            assert("xhtml"@[k] == 'x' && "XHTML"@[k] == 'X');
            assert(lower_char('x') == 'x' && lower_char('X') == 'x');
        } else if k == 1 {
            assert("xhtml"@[k] == 'h' && "XHTML"@[k] == 'H');
            assert(lower_char('h') == 'h' && lower_char('H') == 'h');
        } else if k == 2 {
            assert("xhtml"@[k] == 't' && "XHTML"@[k] == 'T');
            assert(lower_char('t') == 't' && lower_char('T') == 't');
        } else if k == 3 {
            assert("xhtml"@[k] == 'm' && "XHTML"@[k] == 'M');
            assert(lower_char('m') == 'm' && lower_char('M') == 'm');
        } else if k == 4 {
            assert("xhtml"@[k] == 'l' && "XHTML"@[k] == 'L');
            assert(lower_char('l') == 'l' && lower_char('L') == 'l');
        }
    }
}

proof fn lemma_folds_csv()
    ensures
        "CSV"@.len() == "csv"@.len(),
        forall|k: int| 0 <= k < "csv"@.len() ==> lower_char(#[trigger] "csv"@[k]) == "csv"@[k] && lower_char("CSV"@[k]) == "csv"@[k],
{
    reveal_strlit("csv");
    reveal_strlit("CSV");
    assert forall|k: int| 0 <= k < "csv"@.len() implies lower_char(#[trigger] "csv"@[k]) == "csv"@[k] && lower_char("CSV"@[k]) == "csv"@[k] by {
        if k == 0 {
            assert("csv"@[k] == 'c' && "CSV"@[k] == 'C');
            assert(lower_char('c') == 'c' && lower_char('C') == 'c');
        } else if k == 1 {
            assert("csv"@[k] == 's' && "CSV"@[k] == 'S');
            assert(lower_char('s') == 's' && lower_char('S') == 's');
        } else if k == 2 {
            assert("csv"@[k] == 'v' && "CSV"@[k] == 'V');
            assert(lower_char('v') == 'v' && lower_char('V') == 'v');
        }
    }
}

proof fn lemma_folds_tsv()
    ensures
        "TSV"@.len() == "tsv"@.len(),
        forall|k: int| 0 <= k < "tsv"@.len() ==> lower_char(#[trigger] "tsv"@[k]) == "tsv"@[k] && lower_char("TSV"@[k]) == "tsv"@[k],
{
    reveal_strlit("tsv");
    reveal_strlit("TSV");
    assert forall|k: int| 0 <= k < "tsv"@.len() implies lower_char(#[trigger] "tsv"@[k]) == "tsv"@[k] && lower_char("TSV"@[k]) == "tsv"@[k] by {
        if k == 0 {
            assert("tsv"@[k] == 't' && "TSV"@[k] == 'T');
            assert(lower_char('t') == 't' && lower_char('T') == 't');
        } else if k == 1 {
            assert("tsv"@[k] == 's' && "TSV"@[k] == 'S');
            assert(lower_char('s') == 's' && lower_char('S') == 's');
        } else if k == 2 {
            assert("tsv"@[k] == 'v' && "TSV"@[k] == 'V');
            assert(lower_char('v') == 'v' && lower_char('V') == 'v');
        }
    }
}

proof fn lemma_folds_txt()
    ensures
        "TXT"@.len() == "txt"@.len(),
        forall|k: int| 0 <= k < "txt"@.len() ==> lower_char(#[trigger] "txt"@[k]) == "txt"@[k] && lower_char("TXT"@[k]) == "txt"@[k],
{
    reveal_strlit("txt");
    reveal_strlit("TXT");
    assert forall|k: int| 0 <= k < "txt"@.len() implies lower_char(#[trigger] "txt"@[k]) == "txt"@[k] && lower_char("TXT"@[k]) == "txt"@[k] by {
        if k == 0 {
            assert("txt"@[k] == 't' && "TXT"@[k] == 'T');
            assert(lower_char('t') == 't' && lower_char('T') == 't');
        } else if k == 1 {
            assert("txt"@[k] == 'x' && "TXT"@[k] == 'X');
            assert(lower_char('x') == 'x' && lower_char('X') == 'x');
        } else if k == 2 {
            assert("txt"@[k] == 't' && "TXT"@[k] == 'T');
            assert(lower_char('t') == 't' && lower_char('T') == 't');
        }
    }
}

proof fn lemma_folds_text()
    ensures
        "TEXT"@.len() == "text"@.len(),
        forall|k: int| 0 <= k < "text"@.len() ==> lower_char(#[trigger] "text"@[k]) == "text"@[k] && lower_char("TEXT"@[k]) == "text"@[k],
{
    reveal_strlit("text");
    reveal_strlit("TEXT");
    assert forall|k: int| 0 <= k < "text"@.len() implies lower_char(#[trigger] "text"@[k]) == "text"@[k] && lower_char("TEXT"@[k]) == "text"@[k] by {
        if k == 0 {
            assert("text"@[k] == 't' && "TEXT"@[k] == 'T');
            assert(lower_char('t') == 't' && lower_char('T') == 't');
        } else if k == 1 {
            assert("text"@[k] == 'e' && "TEXT"@[k] == 'E');
            assert(lower_char('e') == 'e' && lower_char('E') == 'e');
        } else if k == 2 {
            assert("text"@[k] == 'x' && "TEXT"@[k] == 'X');
            assert(lower_char('x') == 'x' && lower_char('X') == 'x');
        } else if k == 3 {
            assert("text"@[k] == 't' && "TEXT"@[k] == 'T');
            assert(lower_char('t') == 't' && lower_char('T') == 't');
        }
    }
}

proof fn lemma_folds_log()
    ensures
        "LOG"@.len() == "log"@.len(),
        forall|k: int| 0 <= k < "log"@.len() ==> lower_char(#[trigger] "log"@[k]) == "log"@[k] && lower_char("LOG"@[k]) == "log"@[k],
{
    reveal_strlit("log");
    reveal_strlit("LOG");
    assert forall|k: int| 0 <= k < "log"@.len() implies lower_char(#[trigger] "log"@[k]) == "log"@[k] && lower_char("LOG"@[k]) == "log"@[k] by {
        if k == 0 {
            assert("log"@[k] == 'l' && "LOG"@[k] == 'L');
            assert(lower_char('l') == 'l' && lower_char('L') == 'l');
        } else if k == 1 {
            assert("log"@[k] == 'o' && "LOG"@[k] == 'O');
            assert(lower_char('o') == 'o' && lower_char('O') == 'o');
        } else if k == 2 {
            assert("log"@[k] == 'g' && "LOG"@[k] == 'G');
            assert(lower_char('g') == 'g' && lower_char('G') == 'g');
        }
    }
}

proof fn lemma_folds_rst()
    ensures
        "RST"@.len() == "rst"@.len(),
        forall|k: int| 0 <= k < "rst"@.len() ==> lower_char(#[trigger] "rst"@[k]) == "rst"@[k] && lower_char("RST"@[k]) == "rst"@[k],
{
    reveal_strlit("rst");
    reveal_strlit("RST");
    assert forall|k: int| 0 <= k < "rst"@.len() implies lower_char(#[trigger] "rst"@[k]) == "rst"@[k] && lower_char("RST"@[k]) == "rst"@[k] by {
        if k == 0 {
            assert("rst"@[k] == 'r' && "RST"@[k] == 'R');
            assert(lower_char('r') == 'r' && lower_char('R') == 'r');
        } else if k == 1 {
            assert("rst"@[k] == 's' && "RST"@[k] == 'S');
            assert(lower_char('s') == 's' && lower_char('S') == 's');
        } else if k == 2 {
            assert("rst"@[k] == 't' && "RST"@[k] == 'T');
            assert(lower_char('t') == 't' && lower_char('T') == 't');
        }
    }
}

proof fn lemma_folds_adoc()
    ensures
        "ADOC"@.len() == "adoc"@.len(),
        forall|k: int| 0 <= k < "adoc"@.len() ==> lower_char(#[trigger] "adoc"@[k]) == "adoc"@[k] && lower_char("ADOC"@[k]) == "adoc"@[k],
{
    reveal_strlit("adoc");
    reveal_strlit("ADOC");
    assert forall|k: int| 0 <= k < "adoc"@.len() implies lower_char(#[trigger] "adoc"@[k]) == "adoc"@[k] && lower_char("ADOC"@[k]) == "adoc"@[k] by {
        if k == 0 {
            assert("adoc"@[k] == 'a' && "ADOC"@[k] == 'A');
            assert(lower_char('a') == 'a' && lower_char('A') == 'a');
        } else if k == 1 {
            assert("adoc"@[k] == 'd' && "ADOC"@[k] == 'D');
            assert(lower_char('d') == 'd' && lower_char('D') == 'd');
        } else if k == 2 {
            assert("adoc"@[k] == 'o' && "ADOC"@[k] == 'O');
            assert(lower_char('o') == 'o' && lower_char('O') == 'o');
        } else if k == 3 {
            assert("adoc"@[k] == 'c' && "ADOC"@[k] == 'C');
            assert(lower_char('c') == 'c' && lower_char('C') == 'c');
        }
    }
}

proof fn lemma_folds_org()
    ensures
        "ORG"@.len() == "org"@.len(),
        forall|k: int| 0 <= k < "org"@.len() ==> lower_char(#[trigger] "org"@[k]) == "org"@[k] && lower_char("ORG"@[k]) == "org"@[k],
{
    reveal_strlit("org");
    reveal_strlit("ORG");
    assert forall|k: int| 0 <= k < "org"@.len() implies lower_char(#[trigger] "org"@[k]) == "org"@[k] && lower_char("ORG"@[k]) == "org"@[k] by {
        if k == 0 {
            assert("org"@[k] == 'o' && "ORG"@[k] == 'O');
            assert(lower_char('o') == 'o' && lower_char('O') == 'o');
        } else if k == 1 {
            assert("org"@[k] == 'r' && "ORG"@[k] == 'R');
            assert(lower_char('r') == 'r' && lower_char('R') == 'r');
        } else if k == 2 {
            assert("org"@[k] == 'g' && "ORG"@[k] == 'G');
            assert(lower_char('g') == 'g' && lower_char('G') == 'g');
        }
    }
}

/// Case does not matter: an extension that spells one of the format names in any mix of
/// upper- and lower-case letters (`HTM`, `Htm`, `hTmL`, `PDF`, `Md`) names that format.
pub proof fn law_extension_any_case(e: Seq<char>)
    ensures
        spelled(e, "pdf"@, "PDF"@) ==> format_of_extension(lower(e)) == Some(Format::Pdf),
        spelled(e, "docx"@, "DOCX"@) ==> format_of_extension(lower(e)) == Some(Format::Docx),
        spelled(e, "md"@, "MD"@) || spelled(e, "markdown"@, "MARKDOWN"@) || spelled(e, "mdx"@, "MDX"@) ==> format_of_extension(lower(e)) == Some(Format::Markdown),
        spelled(e, "html"@, "HTML"@) || spelled(e, "htm"@, "HTM"@) || spelled(e, "xhtml"@, "XHTML"@) ==> format_of_extension(lower(e)) == Some(Format::Html),
        spelled(e, "csv"@, "CSV"@) || spelled(e, "tsv"@, "TSV"@) ==> format_of_extension(lower(e)) == Some(Format::Csv),
        spelled(e, "txt"@, "TXT"@) || spelled(e, "text"@, "TEXT"@) || spelled(e, "log"@, "LOG"@) || spelled(e, "rst"@, "RST"@) || spelled(e, "adoc"@, "ADOC"@) || spelled(e, "org"@, "ORG"@) ==> format_of_extension(lower(e)) == Some(Format::Text),
{
    law_extension_table(e);
    if spelled(e, "pdf"@, "PDF"@) {
        lemma_folds_pdf();
        lemma_spelled_folds(e, "pdf"@, "PDF"@);
    }
    if spelled(e, "docx"@, "DOCX"@) {
        lemma_folds_docx();
        lemma_spelled_folds(e, "docx"@, "DOCX"@);
    }
    if spelled(e, "md"@, "MD"@) {
        lemma_folds_md();
        lemma_spelled_folds(e, "md"@, "MD"@);
    }
    if spelled(e, "markdown"@, "MARKDOWN"@) {
        lemma_folds_markdown();
        lemma_spelled_folds(e, "markdown"@, "MARKDOWN"@);
    }
    if spelled(e, "mdx"@, "MDX"@) {
        lemma_folds_mdx();
        lemma_spelled_folds(e, "mdx"@, "MDX"@);
    }
    if spelled(e, "html"@, "HTML"@) {
        lemma_folds_html();
        lemma_spelled_folds(e, "html"@, "HTML"@);
    }
    if spelled(e, "htm"@, "HTM"@) {
        lemma_folds_htm();
        lemma_spelled_folds(e, "htm"@, "HTM"@);
    }
    if spelled(e, "xhtml"@, "XHTML"@) {
        lemma_folds_xhtml();
        lemma_spelled_folds(e, "xhtml"@, "XHTML"@);
    }
    if spelled(e, "csv"@, "CSV"@) {
        lemma_folds_csv();
        lemma_spelled_folds(e, "csv"@, "CSV"@);
    }
    if spelled(e, "tsv"@, "TSV"@) {
        lemma_folds_tsv();
        lemma_spelled_folds(e, "tsv"@, "TSV"@);
    }
    if spelled(e, "txt"@, "TXT"@) {
        lemma_folds_txt();
        lemma_spelled_folds(e, "txt"@, "TXT"@);
    }
    if spelled(e, "text"@, "TEXT"@) {
        lemma_folds_text();
        lemma_spelled_folds(e, "text"@, "TEXT"@);
    }
    if spelled(e, "log"@, "LOG"@) {
        lemma_folds_log();
        lemma_spelled_folds(e, "log"@, "LOG"@);
    }
    if spelled(e, "rst"@, "RST"@) {
        lemma_folds_rst();
        lemma_spelled_folds(e, "rst"@, "RST"@);
    }
    if spelled(e, "adoc"@, "ADOC"@) {
        lemma_folds_adoc();
        lemma_spelled_folds(e, "adoc"@, "ADOC"@);
    }
    if spelled(e, "org"@, "ORG"@) {
        lemma_folds_org();
        lemma_spelled_folds(e, "org"@, "ORG"@);
    }
}

/// The format for an extension as the path gives it; case does not matter.
pub fn format_for_extension(ext: &str) -> (r: Option<Format>)
    ensures
        r == format_of_extension(lower(ext@)),
{
    let code: [&str; 36] = [
        "rs", "ts", "tsx", "js", "jsx", "py", "go", "java", "kt", "swift", "c", "h", "cc", "cpp",
        "hpp", "cs", "rb", "php", "sh", "bash", "zsh", "sql", "toml", "yaml", "yml", "json", "ini",
        "cfg", "xml", "lua", "r", "m", "scala", "dart", "vue", "svelte",
    ];
    proof {
        assert(str_views(code@) =~= code_extensions());
    }
    if equals_lower(ext, "pdf") {
        Some(Format::Pdf)
    } else if equals_lower(ext, "docx") {
        Some(Format::Docx)
    } else if equals_lower(ext, "md") || equals_lower(ext, "markdown") || equals_lower(ext, "mdx") {
        Some(Format::Markdown)
    } else if equals_lower(ext, "html") || equals_lower(ext, "htm") || equals_lower(ext, "xhtml") {
        Some(Format::Html)
    } else if equals_lower(ext, "csv") || equals_lower(ext, "tsv") {
        Some(Format::Csv)
    } else if equals_lower(ext, "txt") || equals_lower(ext, "text") || equals_lower(ext, "log")
        || equals_lower(ext, "rst") || equals_lower(ext, "adoc") || equals_lower(ext, "org")
        || ext.unicode_len() == 0 {
        Some(Format::Text)
    } else if crate::rag::native::extract::one_of_lower(ext, &code) {
        Some(Format::Code)
    } else {
        None
    }
}

/// The format of a file, by its extension: the one place that says which files the library
/// takes, asked by the scan before it opens anything and by the reader after.
pub fn format_for(path: &str) -> (r: Option<Format>)
    ensures
        r == format_of_extension(lower(or_empty(extension_of(path@)))),
{
    let ext = match path_extension(path) {
        Some(e) => e,
        None => String::new(),
    };
    format_for_extension(ext.as_str())
}

/// A NUL among the first bytes: the same test the file tools use, so both give one answer.
pub fn looks_binary(head: &[u8]) -> (r: bool)
    ensures
        r == binary(head@),
{
    crate::rag::native::extract::looks_binary(head)
}

/// Tags whose content is code or markup, not text.
pub open spec fn opaque_name(name: Seq<char>) -> bool {
    name == "script"@ || name == "style"@ || name == "noscript"@ || name == "template"@
}

pub fn is_opaque(name: &str) -> (r: bool)
    ensures
        r == opaque_name(name@),
{
    str_eq(name, "script") || str_eq(name, "style") || str_eq(name, "noscript") || str_eq(name, "template")
}

pub open spec fn block_names() -> Seq<Seq<char>> {
    seq![
        "p"@, "div"@, "section"@, "article"@, "li"@, "tr"@, "h1"@, "h2"@, "h3"@, "h4"@, "h5"@,
        "h6"@, "blockquote"@, "pre"@, "td"@, "th"@,
    ]
}

/// HTML blocks that begin and end a line.
pub fn breaks_line(name: &str) -> (r: bool)
    ensures
        r == block_names().contains(name@),
{
    let blocks: [&str; 16] = [
        "p", "div", "section", "article", "li", "tr", "h1", "h2", "h3", "h4", "h5", "h6",
        "blockquote", "pre", "td", "th",
    ];
    proof {
        assert(str_views(blocks@) =~= block_names());
    }
    crate::rag::native::extract::one_of(name, &blocks)
}

/// Why a file that opened gave no text, said in terms of its format so the user knows the next step.
pub open spec fn empty_reason_text(format: Format) -> Seq<char> {
    if format == Format::Pdf {
        "PDF này không có lớp chữ nào đọc được — thường là bản quét ảnh, và thư viện chưa có OCR nên chưa nạp được nội dung của nó"@
    } else if format == Format::Docx {
        "tệp Word mở ra được nhưng phần thân không có chữ nào"@
    } else {
        "tệp rỗng, hoặc chỉ có khoảng trắng"@
    }
}

pub fn empty_reason(format: Format) -> (r: &'static str)
    ensures
        r@ == empty_reason_text(format),
{
    match format {
        Format::Pdf => "PDF này không có lớp chữ nào đọc được — thường là bản quét ảnh, và thư viện chưa có OCR nên chưa nạp được nội dung của nó",
        Format::Docx => "tệp Word mở ra được nhưng phần thân không có chữ nào",
        _ => "tệp rỗng, hoặc chỉ có khoảng trắng",
    }
}

/// `str::lines`: pieces between newlines, without a final empty piece after a trailing newline.
pub open spec fn lines_of(s: Seq<char>) -> Seq<Seq<char>>
    decreases s.len(),
{
    if s.len() == 0 {
        Seq::empty()
    } else {
        let first = before_newline(s);
        if first.len() >= s.len() {
            seq![first]
        } else {
            seq![first] + lines_of(s.skip(first.len() as int + 1))
        }
    }
}

/// The first line that is not blank, trimmed; empty when every line is blank.
pub open spec fn first_text_line(lines: Seq<Seq<char>>) -> Seq<char>
    decreases lines.len(),
{
    if lines.len() == 0 {
        Seq::empty()
    } else if !blank(trimmed(lines[0])) {
        trimmed(lines[0])
    } else {
        first_text_line(lines.drop_first())
    }
}

/// `s` without its leading `#` marks.
pub open spec fn strip_hashes(s: Seq<char>) -> Seq<char>
    decreases s.len(),
{
    if s.len() > 0 && s[0] == '#' {
        strip_hashes(s.drop_first())
    } else {
        s
    }
}

/// Titles longer than this read as an opening sentence, not a title.
pub const MAX_TITLE: usize = 120;

/// The display title: the first line of a document when it looks like one (a Markdown heading
/// without its marks; the first line of a PDF, Word or HTML document), else the file stem.
pub open spec fn title_text(format: Format, text: Seq<char>, stem: Seq<char>) -> Seq<char> {
    let first = first_text_line(lines_of(text));
    let candidate = if format == Format::Markdown {
        trimmed(strip_hashes(first))
    } else if format == Format::Pdf || format == Format::Docx || format == Format::Html {
        first
    } else {
        Seq::empty()
    };
    if candidate.len() == 0 || candidate.len() > MAX_TITLE {
        stem
    } else {
        candidate
    }
}

proof fn lemma_before_newline_len(s: Seq<char>)
    ensures
        before_newline(s).len() <= s.len(),
        before_newline(s).len() < s.len() ==> s[before_newline(s).len() as int] == '\n',
        forall|k: int| 0 <= k < before_newline(s).len() ==> #[trigger] s[k] != '\n',
        forall|k: int| 0 <= k < before_newline(s).len() ==> #[trigger] before_newline(s)[k] == s[k],
    decreases s.len(),
{
    if s.len() > 0 && s[0] != '\n' {
        let t = s.drop_first();
        lemma_before_newline_len(t);
        let b = before_newline(s);
        let c = before_newline(t);
        assert(b == seq![s[0]] + c);
        assert forall|k: int| 0 <= k < b.len() implies #[trigger] s[k] != '\n' by {
            if k > 0 {
                assert(t[k - 1] == s[k]);
                assert(t[k - 1] != '\n');
            }
        }
        assert forall|k: int| 0 <= k < b.len() implies #[trigger] b[k] == s[k] by {
            if k == 0 {
                assert(b[0] == s[0]);
            } else {
                assert(b[k] == c[k - 1]);
                assert(c[k - 1] == t[k - 1]);
                assert(t[k - 1] == s[k]);
            }
        }
        if b.len() < s.len() {
            assert(t[c.len() as int] == s[c.len() as int + 1]);
        }
    }
}

/// The first newline at or after `from`, or the end.
fn next_newline(s: &str, from: usize) -> (r: usize)
    requires
        from <= s@.len(),
    ensures
        from <= r <= s@.len(),
        before_newline(s@.skip(from as int)) == s@.subrange(from as int, r as int),
{
    let n = s.unicode_len();
    let mut j = from;
    while j < n && s.get_char(j) != '\n'
        invariant
            n == s@.len(),
            from <= j <= n,
            forall|k: int| from <= k < j ==> #[trigger] s@[k] != '\n',
        decreases n - j,
    {
        j = j + 1;
    }
    proof {
        let t = s@.skip(from as int);
        lemma_before_newline_len(t);
        let b = before_newline(t);
        // The run of non-newlines from `from` ends exactly at `j`.
        if b.len() < j - from {
            assert(t[b.len() as int] == s@[from + b.len()]);
        }
        if b.len() > j - from {
            assert(b[j - from] == t[j - from]);
            assert(t[j - from] == s@[j as int]);
        }
        assert(b.len() == j - from);
        assert(b =~= s@.subrange(from as int, j as int)) by {
            assert forall|k: int| 0 <= k < b.len() implies #[trigger] b[k] == s@.subrange(from as int, j as int)[k] by {
                assert(t[k] == s@[from + k]);
            }
        }
    }
    j
}

proof fn lemma_lines_step(s: Seq<char>, from: int, j: int)
    requires
        0 <= from < s.len() || (from == s.len() && false),
        from <= j <= s.len(),
        before_newline(s.skip(from)) == s.subrange(from, j),
    ensures
        lines_of(s.skip(from)) == if j >= s.len() {
            seq![s.subrange(from, j)]
        } else {
            seq![s.subrange(from, j)] + lines_of(s.skip(j + 1))
        },
{
    let t = s.skip(from);
    assert(t.len() > 0);
    if j < s.len() {
        assert(t.skip(j - from + 1) =~= s.skip(j + 1));
    }
}

/// The title of a document, from its text, its format and its file stem.
pub fn title_of(format: Format, text: &str, stem: &str) -> (r: String)
    ensures
        r@ == title_text(format, text@, stem@),
{
    let n = text.unicode_len();
    let mut from: usize = 0;
    let mut first: &str = "";
    let ghost mut rest: Seq<Seq<char>> = lines_of(text@);
    proof {
        assert(text@.skip(0) =~= text@);
        reveal_strlit("");
    }
    let mut found = false;
    while from < n && !found
        invariant
            n == text@.len(),
            from <= n,
            found ==> first@ == first_text_line(lines_of(text@)) && !blank(first@),
            !found ==> first_text_line(lines_of(text@)) == first_text_line(lines_of(text@.skip(from as int))),
            !found ==> first@.len() == 0,
        decreases n - from + (if found { 0int } else { 1int }),
    {
        let j = next_newline(text, from);
        proof {
            lemma_lines_step(text@, from as int, j as int);
        }
        let line = trim(text.substring_char(from, j));
        if !is_blank(line) {
            first = line;
            found = true;
        } else {
            proof {
                let piece = text@.subrange(from as int, j as int);
                if j < n {
                    let rest = lines_of(text@.skip(j + 1));
                    assert((seq![piece] + rest)[0] == piece);
                    assert((seq![piece] + rest).drop_first() =~= rest);
                    assert(first_text_line(lines_of(text@.skip(from as int))) == first_text_line(rest));
                } else {
                    assert(seq![piece][0] == piece);
                    assert(seq![piece].drop_first() =~= Seq::<Seq<char>>::empty());
                    assert(first_text_line(lines_of(text@.skip(from as int))) == first_text_line(Seq::<Seq<char>>::empty()));
                }
            }
            from = if j < n {
                j + 1
            } else {
                n
            };
        }
    }
    proof {
        if !found {
            assert(text@.skip(n as int).len() == 0);
            assert(lines_of(text@.skip(n as int)) == Seq::<Seq<char>>::empty());
        }
    }
    let candidate: &str = match format {
        Format::Markdown => {
            let m = first.unicode_len();
            let mut h: usize = 0;
            proof {
                assert(first@.skip(0) =~= first@);
            }
            while h < m && first.get_char(h) == '#'
                invariant
                    m == first@.len(),
                    h <= m,
                    strip_hashes(first@) == strip_hashes(first@.skip(h as int)),
                decreases m - h,
            {
                proof {
                    assert(first@.skip(h as int)[0] == first@[h as int]);
                    assert(first@.skip(h as int).drop_first() =~= first@.skip(h + 1));
                }
                h = h + 1;
            }
            proof {
                assert(first@.skip(h as int) =~= first@.subrange(h as int, m as int));
            }
            trim(first.substring_char(h, m))
        },
        Format::Pdf | Format::Docx | Format::Html => first,
        _ => "",
    };
    let count = candidate.unicode_len();
    if count == 0 || count > MAX_TITLE {
        String::from_str(stem)
    } else {
        String::from_str(candidate)
    }
}

/// Tidy the whitespace stripped markup leaves: every line trimmed, and runs of blank lines
/// folded to one, each line ending in a newline. The second part counts the blank lines just
/// seen, up to two.
pub open spec fn squeezed(lines: Seq<Seq<char>>) -> (Seq<char>, nat)
    decreases lines.len(),
{
    if lines.len() == 0 {
        (Seq::empty(), 0)
    } else {
        let (out, run) = squeezed(lines.drop_last());
        let line = trimmed(lines.last());
        if line.len() == 0 {
            if run + 1 > 1 {
                (out, 2)
            } else {
                (out + "\n"@, 1)
            }
        } else {
            (out + line + "\n"@, 0)
        }
    }
}

pub fn squeeze(text: &str) -> (r: String)
    ensures
        r@ == squeezed(lines_of(text@)).0,
{
    let n = text.unicode_len();
    let mut out = String::new();
    let mut run: usize = 0;
    let mut from: usize = 0;
    let ghost mut done: Seq<Seq<char>> = Seq::empty();
    proof {
        assert(text@.skip(0) =~= text@);
    }
    while from < n
        invariant
            n == text@.len(),
            from <= n,
            lines_of(text@) == done + lines_of(text@.skip(from as int)),
            squeezed(done) == (out@, run as nat),
            run <= 2,
        decreases n - from,
    {
        let j = next_newline(text, from);
        proof {
            lemma_lines_step(text@, from as int, j as int);
        }
        let line = trim(text.substring_char(from, j));
        let ghost piece = text@.subrange(from as int, j as int);
        proof {
            assert(done.push(piece).drop_last() =~= done);
            assert(done.push(piece).last() == piece);
        }
        if line.unicode_len() == 0 {
            if run < 1 {
                out.append("\n");
                run = 1;
            } else {
                run = 2;
            }
        } else {
            run = 0;
            out.append(line);
            out.append("\n");
        }
        proof {
            if j < n {
                assert(lines_of(text@) =~= done.push(piece) + lines_of(text@.skip(j + 1)));
            } else {
                assert(text@.skip(n as int).len() == 0);
                assert(lines_of(text@) =~= done.push(piece) + lines_of(text@.skip(n as int)));
            }
            done = done.push(piece);
        }
        from = if j < n {
            j + 1
        } else {
            n
        };
    }
    proof {
        assert(text@.skip(n as int).len() == 0);
        assert(lines_of(text@) =~= done);
    }
    out
}

/// No line of `s` holds a newline.
pub open spec fn newline_free(s: Seq<char>) -> bool {
    forall|k: int| 0 <= k < s.len() ==> #[trigger] s[k] != '\n'
}

proof fn lemma_lines_newline_free(s: Seq<char>)
    ensures
        forall|i: int| 0 <= i < lines_of(s).len() ==> newline_free(#[trigger] lines_of(s)[i]),
    decreases s.len(),
{
    if s.len() > 0 {
        let first = before_newline(s);
        lemma_before_newline_len(s);
        assert(newline_free(first)) by {
            assert forall|k: int| 0 <= k < first.len() implies #[trigger] first[k] != '\n' by {
                assert(first[k] == s[k]);
            }
        }
        if first.len() < s.len() {
            let rest = s.skip(first.len() as int + 1);
            lemma_lines_newline_free(rest);
            assert forall|i: int| 0 <= i < lines_of(s).len() implies newline_free(#[trigger] lines_of(s)[i]) by {
                if i > 0 {
                    assert(lines_of(s)[i] == lines_of(rest)[i - 1]);
                }
            }
        }
    }
}

proof fn lemma_strip_front_at(s: Seq<char>) -> (i: int)
    ensures
        0 <= i <= s.len(),
        strip_front(s) == s.skip(i),
        i < s.len() ==> !is_ws(s[i]),
        forall|k: int| 0 <= k < i ==> is_ws(#[trigger] s[k]),
    decreases s.len(),
{
    if s.len() > 0 && is_ws(s[0]) {
        let j = lemma_strip_front_at(s.drop_first());
        assert(s.drop_first().skip(j) =~= s.skip(j + 1));
        assert forall|k: int| 0 <= k < j + 1 implies is_ws(#[trigger] s[k]) by {
            if k > 0 {
                assert(s[k] == s.drop_first()[k - 1]);
            }
        }
        j + 1
    } else {
        assert(s.skip(0) =~= s);
        0
    }
}

proof fn lemma_strip_back_at(s: Seq<char>) -> (j: int)
    ensures
        0 <= j <= s.len(),
        strip_back(s) == s.take(j),
        j > 0 ==> !is_ws(s[j - 1]),
        forall|k: int| j <= k < s.len() ==> is_ws(#[trigger] s[k]),
    decreases s.len(),
{
    if s.len() > 0 && is_ws(s.last()) {
        let j = lemma_strip_back_at(s.drop_last());
        assert(s.drop_last().take(j) =~= s.take(j));
        assert forall|k: int| j <= k < s.len() implies is_ws(#[trigger] s[k]) by {
            if k < s.len() - 1 {
                assert(s[k] == s.drop_last()[k]);
            }
        }
        j
    } else {
        assert(s.take(s.len() as int) =~= s);
        s.len() as int
    }
}

/// A trimmed line keeps no newline, and when not empty it starts and ends with a non-blank.
proof fn lemma_trimmed_line(x: Seq<char>)
    requires
        newline_free(x),
    ensures
        newline_free(trimmed(x)),
        trimmed(x).len() > 0 ==> !is_ws(trimmed(x)[0]) && !is_ws(trimmed(x).last()),
{
    let i = lemma_strip_front_at(x);
    let y = x.skip(i);
    let j = lemma_strip_back_at(y);
    let t = y.take(j);
    assert(trimmed(x) == t);
    assert forall|k: int| 0 <= k < t.len() implies #[trigger] t[k] != '\n' by {
        assert(t[k] == x[i + k]);
    }
    if t.len() > 0 {
        assert(t[0] == y[0]);
        assert(t.last() == y[j - 1]);
    }
}

/// A line trims to nothing exactly when it is blank.
proof fn lemma_trimmed_empty(x: Seq<char>)
    ensures
        trimmed(x).len() == 0 <==> blank(x),
        blank(trimmed(x)) <==> blank(x),
{
    let i = lemma_strip_front_at(x);
    let y = x.skip(i);
    let j = lemma_strip_back_at(y);
    let t = y.take(j);
    assert(trimmed(x) == t);
    if blank(x) {
        if i < x.len() {
            assert(is_ws(x[i]));
        }
    }
    if t.len() == 0 && i < x.len() {
        assert(y[0] == x[i]);
        assert(is_ws(y[0]));
    }
    if t.len() == 0 {
        assert forall|k: int| 0 <= k < x.len() implies is_ws(#[trigger] x[k]) by {}
    }
    if t.len() > 0 {
        assert(t[0] == y[0]);
        assert(!blank(t));
        assert(!is_ws(x[i]));
    }
}

/// The first text line is the first line that is not blank, trimmed; nothing when every line is
/// blank.
proof fn lemma_first_text_line(lines: Seq<Seq<char>>)
    ensures
        (forall|j: int| 0 <= j < lines.len() ==> blank(#[trigger] lines[j])) ==> first_text_line(lines).len() == 0,
        forall|i: int|
            0 <= i < lines.len() && !blank(#[trigger] lines[i]) && (forall|j: int| 0 <= j < i ==> blank(#[trigger] lines[j]))
                ==> first_text_line(lines) == trimmed(lines[i]),
    decreases lines.len(),
{
    if lines.len() > 0 {
        lemma_trimmed_empty(lines[0]);
        let rest = lines.drop_first();
        lemma_first_text_line(rest);
        if (forall|j: int| 0 <= j < lines.len() ==> blank(#[trigger] lines[j])) {
            assert(blank(lines[0]));
            assert forall|j: int| 0 <= j < rest.len() implies blank(#[trigger] rest[j]) by {
                assert(rest[j] == lines[j + 1]);
            }
        }
        assert forall|i: int|
            0 <= i < lines.len() && !blank(#[trigger] lines[i]) && (forall|j: int| 0 <= j < i ==> blank(#[trigger] lines[j]))
                implies first_text_line(lines) == trimmed(lines[i]) by {
            if i > 0 {
                assert(blank(lines[0]));
                assert(rest[i - 1] == lines[i]);
                assert forall|j: int| 0 <= j < i - 1 implies blank(#[trigger] rest[j]) by {
                    assert(rest[j] == lines[j + 1]);
                }
            }
        }
    }
}

/// The title of a document: plain text, tables and code are named by their file stem. A PDF,
/// Word or HTML document is named by its first line that is not blank, trimmed, when that is at
/// most `MAX_TITLE` characters long, else by its stem; a Markdown document by at most
/// `MAX_TITLE` characters taken from that line, or by its stem; a document with no text line by
/// its stem.
pub proof fn law_title(format: Format, text: Seq<char>, stem: Seq<char>)
    ensures
        format == Format::Text || format == Format::Csv || format == Format::Code ==> title_text(format, text, stem) == stem,
        (forall|j: int| 0 <= j < lines_of(text).len() ==> blank(#[trigger] lines_of(text)[j])) ==> title_text(format, text, stem) == stem,
        forall|i: int|
            0 <= i < lines_of(text).len() && !blank(#[trigger] lines_of(text)[i])
                && (forall|j: int| 0 <= j < i ==> blank(#[trigger] lines_of(text)[j])) ==> {
                &&& (format == Format::Pdf || format == Format::Docx || format == Format::Html) ==> title_text(format, text, stem) == if trimmed(lines_of(text)[i]).len() <= MAX_TITLE {
                    trimmed(lines_of(text)[i])
                } else {
                    stem
                }
                &&& format == Format::Markdown ==> title_text(format, text, stem) == stem || (
                    1 <= title_text(format, text, stem).len() <= MAX_TITLE)
            },
{
    let lines = lines_of(text);
    lemma_first_text_line(lines);
    assert forall|i: int|
        0 <= i < lines.len() && !blank(#[trigger] lines[i]) && (forall|j: int| 0 <= j < i ==> blank(#[trigger] lines[j]))
            implies trimmed(lines[i]).len() > 0 by {
        lemma_trimmed_empty(lines[i]);
    }
}

/// What squeezing leaves: every line ends in a newline; no two blank lines in a row and no
/// blank line twice at the start; every line starts and ends with a non-blank.
pub open spec fn tidy(r: Seq<char>) -> bool {
    &&& r.len() > 0 ==> r.last() == '\n'
    &&& forall|k: int| 0 <= k && k + 2 < r.len() ==> !(#[trigger] r[k] == '\n' && r[k + 1] == '\n' && r[k + 2] == '\n')
    &&& !(r.len() >= 2 && r[0] == '\n' && r[1] == '\n')
    &&& forall|k: int| 0 <= k < r.len() && #[trigger] r[k] != '\n' && (k == 0 || r[k - 1] == '\n') ==> !is_ws(r[k])
    &&& forall|k: int| 0 <= k < r.len() && #[trigger] r[k] != '\n' && (k + 1 == r.len() || r[k + 1] == '\n') ==> !is_ws(r[k])
}

proof fn lemma_squeezed_tidy(lines: Seq<Seq<char>>)
    requires
        forall|i: int| 0 <= i < lines.len() ==> newline_free(#[trigger] lines[i]),
    ensures
        tidy(squeezed(lines).0),
        squeezed(lines).1 == 0 ==> squeezed(lines).0.len() == 0 || (squeezed(lines).0.len() >= 2
            && squeezed(lines).0[squeezed(lines).0.len() - 2] != '\n'),
        squeezed(lines).1 > 0 ==> squeezed(lines).0.len() >= 1 && (squeezed(lines).0.len() == 1 || (
            squeezed(lines).0.len() >= 3 && squeezed(lines).0[squeezed(lines).0.len() - 2] == '\n'
            && squeezed(lines).0[squeezed(lines).0.len() - 3] != '\n')),
    decreases lines.len(),
{
    if lines.len() > 0 {
        let prev = lines.drop_last();
        assert forall|i: int| 0 <= i < prev.len() implies newline_free(#[trigger] prev[i]) by {
            assert(prev[i] == lines[i]);
        }
        lemma_squeezed_tidy(prev);
        let (out, run) = squeezed(prev);
        let line = trimmed(lines.last());
        lemma_trimmed_line(lines.last());
        if line.len() == 0 {
            if run + 1 <= 1 {
                let r = out + "\n"@;
                reveal_strlit("\n");
                assert(r.len() == out.len() + 1);
                assert forall|k: int| 0 <= k < out.len() implies #[trigger] r[k] == out[k] by {}
                assert(r.last() == '\n');
                assert(tidy(r));
            }
        } else {
            reveal_strlit("\n");
            let r = out + line + "\n"@;
            let n = out.len() as int;
            let m = line.len() as int;
            assert(r.len() == n + m + 1);
            assert forall|k: int| 0 <= k < n implies #[trigger] r[k] == out[k] by {}
            assert forall|k: int| n <= k < n + m implies #[trigger] r[k] == line[k - n] by {}
            assert(r[n + m] == '\n');
            assert(r[n] == line[0]);
            assert(r[n + m - 1] == line.last());
            assert forall|k: int| 0 <= k && k + 2 < r.len() implies !(#[trigger] r[k] == '\n' && r[k + 1] == '\n' && r[k + 2] == '\n') by {
                if k + 2 < n {
                } else if k < n + m {
                    if k + 2 < n + m {
                        assert(r[k + 2] == line[k + 2 - n]);
                    } else if k + 1 < n + m && k + 1 >= n {
                        assert(r[k + 1] == line[k + 1 - n]);
                    } else if k >= n {
                        assert(r[k] == line[k - n]);
                    } else {
                        assert(k + 2 >= n);
                        if k + 2 == n { assert(r[k + 2] == line[0]); }
                        else if k + 1 == n { assert(r[k + 1] == line[0]); }
                    }
                }
            }
            assert(tidy(r));
        }
    }
}

/// Squeezing tidies any text: every line of the result ends in a newline; no two blank lines
/// follow each other, and the result never opens with two; every line is trimmed.
pub proof fn law_squeeze_tidies(text: Seq<char>)
    ensures
        tidy(squeezed(lines_of(text)).0),
{
    lemma_lines_newline_free(text);
    lemma_squeezed_tidy(lines_of(text));
}

/// What reading markup has gathered: the text so far, whether a Word text run is open, and
/// how deep inside script-like tags an HTML page is (a depth that would pass `usize::MAX`
/// stays there).
pub struct MarkupState {
    pub out: Seq<char>,
    pub in_text: bool,
    pub skipping: nat,
}

/// The text a general reference stands for, appended when quick-xml knows it.
pub open spec fn with_entity(out: Seq<char>, name: Seq<char>) -> Seq<char> {
    match xml_unescape("&"@ + name + ";"@) {
        Some(t) => out + t,
        None => out,
    }
}

/// One event of a Word body (`word`) or an HTML page. Word keeps the text of `t` runs, ends a
/// line after each paragraph, and turns `tab`, `br` and `cr` into a tab or a line break. HTML
/// drops everything inside `script`, `style`, `noscript` and `template`, breaks lines at
/// block tags and at `br` and `hr`, and keeps all other text.
pub open spec fn markup_step(st: MarkupState, ev: XmlEvent, word: bool) -> MarkupState {
    match ev {
        XmlEvent::Start(name) => if word {
            if name@ == "t"@ {
                MarkupState { in_text: true, ..st }
            } else {
                st
            }
        } else if opaque_name(name@) {
            MarkupState { skipping: if st.skipping < usize::MAX { st.skipping + 1 } else { st.skipping }, ..st }
        } else if block_names().contains(name@) {
            MarkupState { out: st.out + "\n"@, ..st }
        } else {
            st
        },
        XmlEvent::End(name) => if word {
            if name@ == "t"@ {
                MarkupState { in_text: false, ..st }
            } else if name@ == "p"@ {
                MarkupState { out: st.out + "\n"@, ..st }
            } else {
                st
            }
        } else if opaque_name(name@) {
            MarkupState { skipping: if st.skipping > 0 { (st.skipping - 1) as nat } else { 0 }, ..st }
        } else if block_names().contains(name@) {
            MarkupState { out: st.out + "\n"@, ..st }
        } else {
            st
        },
        XmlEvent::Empty(name) => if word {
            if name@ == "tab"@ {
                MarkupState { out: st.out + "\t"@, ..st }
            } else if name@ == "br"@ || name@ == "cr"@ {
                MarkupState { out: st.out + "\n"@, ..st }
            } else {
                st
            }
        } else if name@ == "br"@ || name@ == "hr"@ {
            MarkupState { out: st.out + "\n"@, ..st }
        } else {
            st
        },
        XmlEvent::Text(text) => if (word && st.in_text) || (!word && st.skipping == 0) {
            MarkupState { out: st.out + text@, ..st }
        } else {
            st
        },
        XmlEvent::GeneralRef(name) => if (word && st.in_text) || (!word && st.skipping == 0) {
            MarkupState { out: with_entity(st.out, name@), ..st }
        } else {
            st
        },
        _ => st,
    }
}

/// The state after a run of events.
pub open spec fn markup_fold(events: Seq<XmlEvent>, word: bool) -> MarkupState
    decreases events.len(),
{
    if events.len() == 0 {
        MarkupState { out: Seq::empty(), in_text: false, skipping: 0 }
    } else {
        markup_step(markup_fold(events.drop_last(), word), events.last(), word)
    }
}

/// The text gathered from a Word body (read strictly) or an HTML page (read leniently); a
/// document that breaks half way keeps what was read before the break.
pub open spec fn markup_text_of(source: Seq<char>, word: bool) -> Seq<char> {
    markup_fold(xml_events_of(source, !word), word).out
}

fn is_t(name: &str) -> (r: bool)
    ensures
        r == (name@ == "t"@),
{
    str_eq(name, "t")
}

/// The text of a Word body or an HTML page, before any tidying.
pub fn markup_text(source: &str, word: bool) -> (r: String)
    ensures
        r@ == markup_text_of(source@, word),
{
    let mut reader = open_xml(source, !word);
    let ghost events = pending_events(reader);
    let mut out = String::new();
    let mut in_text = false;
    let mut skipping: usize = 0;
    let ghost mut k: int = 0;
    proof {
        assert(events.take(0) =~= Seq::<XmlEvent>::empty());
        assert(events.skip(0) =~= events);
    }
    loop
        invariant
            well_ended(events),
            events == xml_events_of(source@, !word),
            0 <= k < events.len(),
            pending_events(reader) == events.skip(k),
            markup_fold(events.take(k), word) == (MarkupState { out: out@, in_text, skipping: skipping as nat }),
        decreases events.len() - k,
    {
        let ev = next_xml(&mut reader);
        proof {
            assert(ev == events[k]);
            assert(events.take(k + 1).drop_last() =~= events.take(k));
            assert(events.skip(k).drop_first() =~= events.skip(k + 1));
        }
        let mut stop = false;
        match ev {
            XmlEvent::Start(name) => {
                if word {
                    if is_t(name.as_str()) {
                        in_text = true;
                    }
                } else if is_opaque(name.as_str()) {
                    if skipping < usize::MAX {
                        skipping = skipping + 1;
                    }
                } else if breaks_line(name.as_str()) {
                    out.append("\n");
                }
            },
            XmlEvent::End(name) => {
                if word {
                    if is_t(name.as_str()) {
                        in_text = false;
                    } else if str_eq(name.as_str(), "p") {
                        out.append("\n");
                    }
                } else if is_opaque(name.as_str()) {
                    if skipping > 0 {
                        skipping = skipping - 1;
                    }
                } else if breaks_line(name.as_str()) {
                    out.append("\n");
                }
            },
            XmlEvent::Empty(name) => {
                if word {
                    if str_eq(name.as_str(), "tab") {
                        out.append("\t");
                    } else if str_eq(name.as_str(), "br") || str_eq(name.as_str(), "cr") {
                        out.append("\n");
                    }
                } else if str_eq(name.as_str(), "br") || str_eq(name.as_str(), "hr") {
                    out.append("\n");
                }
            },
            XmlEvent::Text(text) => {
                if (word && in_text) || (!word && skipping == 0) {
                    out.append(text.as_str());
                }
            },
            XmlEvent::GeneralRef(name) => {
                if (word && in_text) || (!word && skipping == 0) {
                    match unescape_reference(name.as_str()) {
                        Some(decoded) => out.append(decoded.as_str()),
                        None => {},
                    }
                }
            },
            XmlEvent::Eof => {
                stop = true;
            },
            XmlEvent::Error => {
                stop = true;
            },
            XmlEvent::Other => {},
        }
        proof {
            k = k + 1;
        }
        if stop {
            proof {
                assert(k == events.len());
                assert(events.take(k) =~= events);
            }
            return out;
        }
    }
}

/// The text of a Word document's body, or why the reader could not read it.
pub open spec fn word_outcome(bytes: Seq<u8>) -> Result<Seq<char>, Seq<char>> {
    match zip_entry_of(bytes, DOCX_BODY@) {
        ZipEntryView::Text(xml) => Ok(markup_text_of(xml, true)),
        ZipEntryView::NotZip(e) => Err("không mở được dạng zip: "@ + e),
        ZipEntryView::Missing(e) => Err("thiếu word/document.xml — "@ + e),
        ZipEntryView::Unreadable(e) => Err(e),
    }
}

/// The text a format reads out of the bytes, or why the reader could not: PDF bytes are the
/// text the PDF reader gave; Word reads its body; everything else is read as UTF-8 with
/// malformed bytes replaced, and HTML is then stripped of its markup and tidied.
pub open spec fn document_text(format: Format, bytes: Seq<u8>) -> Result<Seq<char>, Seq<char>> {
    if format == Format::Pdf {
        Ok(lossy_utf8(bytes))
    } else if format == Format::Docx {
        word_outcome(bytes)
    } else if format == Format::Html {
        Ok(squeezed(lines_of(markup_text_of(lossy_utf8(bytes), false))).0)
    } else {
        Ok(lossy_utf8(bytes))
    }
}

/// Formats read as text, where a NUL among the first bytes means the file is not text.
pub open spec fn read_as_text(format: Format) -> bool {
    format != Format::Pdf && format != Format::Docx
}

/// Read one document: `format` is what its extension says (`None`: no reader takes it),
/// `size` its length on disk, `stem` its file stem, and `bytes` its contents (for a PDF, the
/// text the PDF reader gave). A file without a reader, over the cap, binary, unreadable, or
/// without a single character of text is refused with the error that names it; anything else
/// is its text, its format and its title.
pub fn extract_document(shown: &str, stem: &str, format: Option<Format>, size: u64, bytes: &[u8]) -> (r: Result<Extracted, RagError>)
    ensures
        match format {
            None => r matches Err(RagError::Unsupported(p)) && p@ == shown@,
            Some(f) => if size > MAX_FILE_BYTES {
                r matches Err(RagError::TooLarge { path, bytes: b, limit }) && path@ == shown@ && b == size && limit
                    == MAX_FILE_BYTES
            } else if read_as_text(f) && binary(bytes@) {
                r matches Err(RagError::Binary(p)) && p@ == shown@
            } else {
                match document_text(f, bytes@) {
                    Err(m) => r matches Err(RagError::Extract { path, message }) && path@ == shown@ && message@ == m,
                    Ok(t) => if blank(t) {
                        r matches Err(RagError::Empty { path, reason }) && path@ == shown@ && reason@ == empty_reason_text(f)
                    } else {
                        r matches Ok(x) && x.text@ == t && x.format == f && x.title@ == title_text(f, t, stem@)
                    },
                }
            },
        },
{
    let format = match format {
        Some(f) => f,
        None => {
            return Err(RagError::Unsupported(String::from_str(shown)));
        },
    };
    if size > MAX_FILE_BYTES {
        return Err(RagError::TooLarge { path: String::from_str(shown), bytes: size, limit: MAX_FILE_BYTES });
    }
    let text = match format {
        Format::Pdf => utf8_lossy(bytes),
        Format::Docx => match read_zip_entry(bytes, DOCX_BODY) {
            ZipEntry::Text(xml) => markup_text(xml.as_str(), true),
            ZipEntry::NotZip(error) => {
                return Err(RagError::Extract {
                    path: String::from_str(shown),
                    message: String::from_str("không mở được dạng zip: ").concat(error.as_str()),
                });
            },
            ZipEntry::Missing(error) => {
                return Err(RagError::Extract {
                    path: String::from_str(shown),
                    message: String::from_str("thiếu word/document.xml — ").concat(error.as_str()),
                });
            },
            ZipEntry::Unreadable(error) => {
                return Err(RagError::Extract { path: String::from_str(shown), message: error });
            },
        },
        _ => {
            if looks_binary(bytes) {
                return Err(RagError::Binary(String::from_str(shown)));
            }
            let source = utf8_lossy(bytes);
            match format {
                Format::Html => {
                    let raw = markup_text(source.as_str(), false);
                    squeeze(raw.as_str())
                },
                _ => source,
            }
        },
    };
    if is_blank(text.as_str()) {
        return Err(RagError::Empty { path: String::from_str(shown), reason: String::from_str(empty_reason(format)) });
    }
    let title = title_of(format, text.as_str(), stem);
    Ok(Extracted { text, format, title })
}

} // verus!
