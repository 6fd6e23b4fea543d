//! Reading files into text. One broken file spoils only itself: every path here returns a
//! `Result`. The format comes from the extension, not the content: the user stated their intent
//! in the name, and a Vietnamese `.md` looks exactly like a `.txt`.

use vstd::prelude::*;

use quick_xml::events::Event;

use crate::rag::error::RagError;
use crate::rag::format::Format;
use crate::rag::paths::{extension_of, file_stem_of, path_extension, path_file_stem};
use crate::text::{blank, decimal, decimal_text, equals_lower, is_blank, lower, trim, trimmed};

verus! {

/// Bumped whenever the readers produce different text from the same file.
pub const EXTRACT_VERSION: u32 = 2;

/// Both the PDF reader and the chunker hold a whole file in memory; this cap keeps one file
/// from taking the application down.
pub const MAX_FILE_BYTES: u64 = 64 * 1024 * 1024;

/// How many leading bytes are probed for a NUL before a file is called binary.
pub const BINARY_PROBE: usize = 4096;

#[derive(Clone, Copy, Debug, PartialEq, Eq, Structural)]
pub enum ReaderKind {
    Native(Format),
    Pdf,
    Image,
    Unsupported,
}

#[derive(Clone, Debug)]
pub struct Extracted {
    pub text: String,
    pub format: Format,
    pub title: String,
    pub pages: u32,
    pub ocr_pages: Vec<u32>,
}

pub open spec fn text_exts() -> Seq<Seq<char>> {
    seq!["txt"@, "text"@, "log"@, "rst"@, "adoc"@, "org"@]
}

pub open spec fn markdown_exts() -> Seq<Seq<char>> {
    seq!["md"@, "markdown"@, "mdx"@]
}

pub open spec fn data_exts() -> Seq<Seq<char>> {
    seq!["csv"@, "tsv"@, "json"@, "xml"@, "yaml"@, "yml"@]
}

pub open spec fn html_exts() -> Seq<Seq<char>> {
    seq!["html"@, "htm"@, "xhtml"@]
}

pub open spec fn code_exts() -> Seq<Seq<char>> {
    seq![
        "py"@, "rs"@, "ts"@, "tsx"@, "js"@, "jsx"@, "go"@, "java"@, "kt"@, "c"@, "h"@, "cpp"@,
        "hpp"@, "cs"@, "rb"@, "php"@, "swift"@, "sh"@, "ps1"@, "sql"@, "toml"@, "ini"@, "cfg"@,
        "conf"@, "gradle"@, "lua"@, "r"@, "m"@, "scala"@, "dart"@,
    ]
}

pub open spec fn image_exts() -> Seq<Seq<char>> {
    seq!["png"@, "jpg"@, "jpeg"@, "webp"@, "bmp"@, "gif"@, "tif"@, "tiff"@]
}

pub open spec fn unsupported_exts() -> Seq<Seq<char>> {
    seq!["xlsx"@, "xlsm"@, "pptx"@, "doc"@, "xls"@, "ppt"@]
}

/// The reader for a lower-case extension; `None` when the library does not take the file.
pub open spec fn reader_kind_of(e: Seq<char>) -> Option<ReaderKind> {
    if e == "pdf"@ {
        Some(ReaderKind::Pdf)
    } else if image_exts().contains(e) {
        Some(ReaderKind::Image)
    } else if e == "docx"@ {
        Some(ReaderKind::Native(Format::Office))
    } else if markdown_exts().contains(e) {
        Some(ReaderKind::Native(Format::Markdown))
    } else if html_exts().contains(e) {
        Some(ReaderKind::Native(Format::Html))
    } else if data_exts().contains(e) {
        Some(ReaderKind::Native(Format::Data))
    } else if code_exts().contains(e) {
        Some(ReaderKind::Native(Format::Code))
    } else if text_exts().contains(e) || e.len() == 0 {
        Some(ReaderKind::Native(Format::Text))
    } else if unsupported_exts().contains(e) {
        Some(ReaderKind::Unsupported)
    } else {
        None
    }
}

/// The text of an optional extension, empty when there is none.
pub open spec fn or_empty(e: Option<Seq<char>>) -> Seq<char> {
    match e {
        Some(t) => t,
        None => Seq::empty(),
    }
}

/// The views of a list of string slices.
pub open spec fn str_views(v: Seq<&str>) -> Seq<Seq<char>> {
    v.map_values(|s: &str| s@)
}

/// Whether the lower-cased `word` is one of `options`.
pub fn one_of_lower(word: &str, options: &[&str]) -> (r: bool)
    ensures
        r == str_views(options@).contains(lower(word@)),
{
    let mut i: usize = 0;
    while i < options.len()
        invariant
            i <= options@.len(),
            forall|k: int| 0 <= k < i ==> options@[k]@ != lower(word@),
        decreases options.len() - i,
    {
        if equals_lower(word, options[i]) {
            proof {
                assert(str_views(options@)[i as int] == lower(word@));
            }
            return true;
        }
        i = i + 1;
    }
    proof {
        if str_views(options@).contains(lower(word@)) {
            let k = choose|k: int| 0 <= k < str_views(options@).len() && str_views(options@)[k] == lower(word@);
            assert(options@[k]@ == lower(word@));
        }
    }
    false
}

/// Whether `word` is exactly one of `options`.
pub fn one_of(word: &str, options: &[&str]) -> (r: bool)
    ensures
        r == str_views(options@).contains(word@),
{
    let mut i: usize = 0;
    while i < options.len()
        invariant
            i <= options@.len(),
            forall|k: int| 0 <= k < i ==> options@[k]@ != word@,
        decreases options.len() - i,
    {
        if crate::text::str_eq(word, options[i]) {
            proof {
                assert(str_views(options@)[i as int] == word@);
            }
            return true;
        }
        i = i + 1;
    }
    proof {
        if str_views(options@).contains(word@) {
            let k = choose|k: int| 0 <= k < str_views(options@).len() && str_views(options@)[k] == word@;
            assert(options@[k]@ == word@);
        }
    }
    false
}

/// The reader for a file extension as the path gives it; case does not matter.
pub fn reader_for_extension(ext: &str) -> (r: Option<ReaderKind>)
    ensures
        r == reader_kind_of(lower(ext@)),
{
    let text: [&str; 6] = ["txt", "text", "log", "rst", "adoc", "org"];
    let markdown: [&str; 3] = ["md", "markdown", "mdx"];
    let data: [&str; 6] = ["csv", "tsv", "json", "xml", "yaml", "yml"];
    let html: [&str; 3] = ["html", "htm", "xhtml"];
    let code: [&str; 30] = [
        "py", "rs", "ts", "tsx", "js", "jsx", "go", "java", "kt", "c", "h", "cpp", "hpp", "cs",
        "rb", "php", "swift", "sh", "ps1", "sql", "toml", "ini", "cfg", "conf", "gradle", "lua",
        "r", "m", "scala", "dart",
    ];
    let image: [&str; 8] = ["png", "jpg", "jpeg", "webp", "bmp", "gif", "tif", "tiff"];
    let unsupported: [&str; 6] = ["xlsx", "xlsm", "pptx", "doc", "xls", "ppt"];
    proof {
        assert(str_views(text@) =~= text_exts());
        assert(str_views(markdown@) =~= markdown_exts());
        assert(str_views(data@) =~= data_exts());
        assert(str_views(html@) =~= html_exts());
        assert(str_views(code@) =~= code_exts());
        assert(str_views(image@) =~= image_exts());
        assert(str_views(unsupported@) =~= unsupported_exts());
    }
    if equals_lower(ext, "pdf") {
        Some(ReaderKind::Pdf)
    } else if one_of_lower(ext, &image) {
        Some(ReaderKind::Image)
    } else if equals_lower(ext, "docx") {
        Some(ReaderKind::Native(Format::Office))
    } else if one_of_lower(ext, &markdown) {
        Some(ReaderKind::Native(Format::Markdown))
    } else if one_of_lower(ext, &html) {
        Some(ReaderKind::Native(Format::Html))
    } else if one_of_lower(ext, &data) {
        Some(ReaderKind::Native(Format::Data))
    } else if one_of_lower(ext, &code) {
        Some(ReaderKind::Native(Format::Code))
    } else if one_of_lower(ext, &text) || ext.unicode_len() == 0 {
        Some(ReaderKind::Native(Format::Text))
    } else if one_of_lower(ext, &unsupported) {
        Some(ReaderKind::Unsupported)
    } else {
        None
    }
}

/// The reader for a file, chosen by its extension; a file without one is read as text.
pub fn reader_for(path: &str) -> (r: Option<ReaderKind>)
    ensures
        r == reader_kind_of(lower(or_empty(extension_of(path@)))),
{
    let ext = match path_extension(path) {
        Some(e) => e,
        None => String::new(),
    };
    reader_for_extension(ext.as_str())
}

/// The media type an image is sent with, by its lower-case extension.
pub open spec fn mime_of(e: Seq<char>) -> Seq<char> {
    if e == "png"@ {
        "image/png"@
    } else if e == "jpg"@ || e == "jpeg"@ {
        "image/jpeg"@
    } else if e == "webp"@ {
        "image/webp"@
    } else if e == "gif"@ {
        "image/gif"@
    } else if e == "bmp"@ {
        "image/bmp"@
    } else if e == "tif"@ || e == "tiff"@ {
        "image/tiff"@
    } else {
        "application/octet-stream"@
    }
}

pub fn mime_for_extension(ext: &str) -> (r: &'static str)
    ensures
        r@ == mime_of(lower(ext@)),
{
    if equals_lower(ext, "png") {
        "image/png"
    } else if equals_lower(ext, "jpg") || equals_lower(ext, "jpeg") {
        "image/jpeg"
    } else if equals_lower(ext, "webp") {
        "image/webp"
    } else if equals_lower(ext, "gif") {
        "image/gif"
    } else if equals_lower(ext, "bmp") {
        "image/bmp"
    } else if equals_lower(ext, "tif") || equals_lower(ext, "tiff") {
        "image/tiff"
    } else {
        "application/octet-stream"
    }
}

pub open spec fn skipped_dirs() -> Seq<Seq<char>> {
    seq![
        ".git"@, ".hg"@, ".svn"@, ".venv"@, "venv"@, "env"@, "node_modules"@, "__pycache__"@,
        ".mypy_cache"@, ".pytest_cache"@, ".ruff_cache"@, "target"@, "dist"@, "build"@, ".next"@,
        ".nuxt"@, ".cache"@, ".idea"@, ".vscode"@, ".tox"@, "site-packages"@, ".gradle"@,
        ".terraform"@, "vendor"@, ".DS_Store"@, "$RECYCLE.BIN"@,
    ]
}

/// Directories a scan never enters: tool caches, dependencies, build output.
pub fn skip_dir(name: &str) -> (r: bool)
    ensures
        r == skipped_dirs().contains(name@),
{
    let names: [&str; 26] = [
        ".git", ".hg", ".svn", ".venv", "venv", "env", "node_modules", "__pycache__",
        ".mypy_cache", ".pytest_cache", ".ruff_cache", "target", "dist", "build", ".next",
        ".nuxt", ".cache", ".idea", ".vscode", ".tox", "site-packages", ".gradle", ".terraform",
        "vendor", ".DS_Store", "$RECYCLE.BIN",
    ];
    proof {
        assert(str_views(names@) =~= skipped_dirs());
    }
    one_of(name, &names)
}

/// A NUL among the first probe bytes.
pub open spec fn binary(data: Seq<u8>) -> bool {
    exists|i: int| 0 <= i < data.len() && i < BINARY_PROBE && data[i] == 0
}

pub fn looks_binary(data: &[u8]) -> (r: bool)
    ensures
        r == binary(data@),
{
    let mut i: usize = 0;
    while i < data.len() && i < BINARY_PROBE
        invariant
            i <= data@.len(),
            i <= BINARY_PROBE,
            forall|k: int| 0 <= k < i ==> data@[k] != 0,
        decreases data.len() - i,
    {
        if data[i] == 0 {
            return true;
        }
        i = i + 1;
    }
    false
}

/// The single-byte encodings tried, in order, on text that is not UTF-8.
#[derive(Clone, Copy, Debug, PartialEq, Eq, Structural)]
pub enum Legacy {
    /// Vietnamese Windows text, the likely origin of an old Vietnamese file.
    Windows1258,
    Windows1252,
}

/// `Encoding::decode_without_bom_handling`: the text and whether any byte was malformed.
pub uninterp spec fn legacy_decoding(encoding: Legacy, data: Seq<u8>) -> (Seq<char>, bool);

/// `String::from_utf8_lossy`: malformed sequences replaced by U+FFFD.
pub uninterp spec fn lossy_utf8(data: Seq<u8>) -> Seq<char>;

/// Calls `std::str::from_utf8`, which succeeds exactly on valid UTF-8 and then gives the
/// characters the bytes encode.
#[verifier::external_body]
fn utf8_text(data: &[u8]) -> (r: Option<String>)
    ensures
        r is Some <==> vstd::utf8::valid_utf8(data@),
        r matches Some(s) ==> s@ == vstd::utf8::decode_utf8(data@),
{
    match std::str::from_utf8(data) {
        Ok(text) => Some(text.to_string()),
        Err(_) => None,
    }
}

/// Calls `encoding_rs::Encoding::decode_without_bom_handling` with the named encoding. The
/// decoded text and the malformed-input flag are taken as `legacy_decoding` of the encoding and
/// the bytes.
#[verifier::external_body]
fn decode_legacy(encoding: Legacy, data: &[u8]) -> (r: (String, bool))
    ensures
        (r.0@, r.1) == legacy_decoding(encoding, data@),
{
    let table = match encoding {
        Legacy::Windows1258 => encoding_rs::WINDOWS_1258,
        Legacy::Windows1252 => encoding_rs::WINDOWS_1252,
    };
    let (text, had_errors) = table.decode_without_bom_handling(data);
    (text.into_owned(), had_errors)
}

/// Calls `String::from_utf8_lossy`. The result is taken as `lossy_utf8` of the bytes.
#[verifier::external_body]
pub(crate) fn utf8_lossy(data: &[u8]) -> (r: String)
    ensures
        r@ == lossy_utf8(data@),
{
    String::from_utf8_lossy(data).into_owned()
}

/// The text of a file's bytes: UTF-8 when they are; else the first Windows code page that
/// reads them without error; else UTF-8 with replacement characters.
pub open spec fn decoded_text(data: Seq<u8>) -> Seq<char> {
    if vstd::utf8::valid_utf8(data) {
        vstd::utf8::decode_utf8(data)
    } else if !legacy_decoding(Legacy::Windows1258, data).1 {
        legacy_decoding(Legacy::Windows1258, data).0
    } else if !legacy_decoding(Legacy::Windows1252, data).1 {
        legacy_decoding(Legacy::Windows1252, data).0
    } else {
        lossy_utf8(data)
    }
}

pub fn decode_text(data: &[u8]) -> (r: String)
    ensures
        r@ == decoded_text(data@),
{
    match utf8_text(data) {
        Some(text) => return text,
        None => {},
    }
    let (text, had_errors) = decode_legacy(Legacy::Windows1258, data);
    if !had_errors {
        return text;
    }
    let (text, had_errors) = decode_legacy(Legacy::Windows1252, data);
    if !had_errors {
        return text;
    }
    utf8_lossy(data)
}

/// One XML event, as plain values: tag names are local names (the namespace prefix dropped),
/// text is the character data as written, a general reference is the entity's name.
#[derive(Debug)]
pub enum XmlEvent {
    Start(String),
    End(String),
    Empty(String),
    Text(String),
    GeneralRef(String),
    Eof,
    Error,
    /// CDATA, comments, declarations, processing instructions, doctypes.
    Other,
}

impl XmlEvent {
    /// The end of the stream: either the document ended or it broke.
    pub open spec fn ends(self) -> bool {
        self is Eof || self is Error
    }
}

/// A finished event stream: it stops at its first end, and has one.
pub open spec fn well_ended(events: Seq<XmlEvent>) -> bool {
    &&& events.len() > 0
    &&& events.last().ends()
    &&& forall|i: int| 0 <= i < events.len() - 1 ==> !(#[trigger] events[i]).ends()
}

#[verifier::external_type_specification]
#[verifier::external_body]
#[verifier::reject_recursive_types(R)]
pub struct ExXmlReader<R>(quick_xml::Reader<R>);

#[verifier::external_type_specification]
#[verifier::external_body]
#[verifier::reject_recursive_types(T)]
pub struct ExCursor<T>(std::io::Cursor<T>);

/// The events quick-xml reads from a source, up to and including the first end; `lenient`
/// switches off end-name checks and allows unmatched end tags, as HTML needs.
pub uninterp spec fn xml_events_of(source: Seq<char>, lenient: bool) -> Seq<XmlEvent>;

/// The events a reader has yet to yield.
pub uninterp spec fn pending_events(reader: quick_xml::Reader<std::io::Cursor<Vec<u8>>>) -> Seq<XmlEvent>;

/// `quick_xml::escape::unescape`: the text a reference stands for, when it is a known one.
pub uninterp spec fn xml_unescape(raw: Seq<char>) -> Option<Seq<char>>;

/// Calls `quick_xml::Reader::from_reader` over the source's bytes and, when `lenient`, turns
/// off `check_end_names` and turns on `allow_unmatched_ends`. What the reader will yield is
/// taken as `xml_events_of` of the source and the flag; quick-xml yields events until the
/// document ends or breaks, so the stream is `well_ended`.
#[verifier::external_body]
pub(crate) fn open_xml(source: &str, lenient: bool) -> (r: quick_xml::Reader<std::io::Cursor<Vec<u8>>>)
    ensures
        pending_events(r) == xml_events_of(source@, lenient),
        well_ended(pending_events(r)),
{
    let mut reader = quick_xml::Reader::from_reader(std::io::Cursor::new(source.as_bytes().to_vec()));
    if lenient {
        reader.config_mut().check_end_names = false;
        reader.config_mut().allow_unmatched_ends = true;
    }
    reader
}

/// Calls `quick_xml::Reader::read_event_into` once and turns the event into plain values: the
/// local name of a tag, `xml10_content` of text and of a reference. The event is the first
/// pending one, and it leaves the pending list.
#[verifier::external_body]
pub(crate) fn next_xml(reader: &mut quick_xml::Reader<std::io::Cursor<Vec<u8>>>) -> (r: XmlEvent)
    requires
        pending_events(*old(reader)).len() > 0,
    ensures
        r == pending_events(*old(reader))[0],
        pending_events(*final(reader)) == pending_events(*old(reader)).drop_first(),
{
    let mut buf = Vec::new();
    match reader.read_event_into(&mut buf) {
        Ok(Event::Start(tag)) => XmlEvent::Start(tag.local_name().into_inner().to_string()),
        Ok(Event::End(tag)) => XmlEvent::End(tag.local_name().into_inner().to_string()),
        Ok(Event::Empty(tag)) => XmlEvent::Empty(tag.local_name().into_inner().to_string()),
        Ok(Event::Text(text)) => XmlEvent::Text(text.xml10_content().into_owned()),
        Ok(Event::GeneralRef(entity)) => XmlEvent::GeneralRef(entity.xml10_content().into_owned()),
        Ok(Event::Eof) => XmlEvent::Eof,
        Ok(_) => XmlEvent::Other,
        Err(_) => XmlEvent::Error,
    }
}

/// Calls `quick_xml::escape::unescape` on `&name;`. The result is taken as `xml_unescape` of
/// that text; the five entities XML predefines resolve to their characters.
#[verifier::external_body]
pub(crate) fn unescape_reference(name: &str) -> (r: Option<String>)
    ensures
        match r {
            Some(t) => xml_unescape("&"@ + name@ + ";"@) == Some(t@),
            None => xml_unescape("&"@ + name@ + ";"@) is None,
        },
        match r {
            Some(t) => (name@ == "amp"@ ==> t@ == "&"@) && (name@ == "lt"@ ==> t@ == "<"@) && (name@ == "gt"@
                ==> t@ == ">"@) && (name@ == "quot"@ ==> t@ == seq!['\u{22}']) && (name@ == "apos"@ ==> t@ == seq![
                '\u{27}',
            ]),
            None => name@ != "amp"@ && name@ != "lt"@ && name@ != "gt"@ && name@ != "quot"@ && name@ != "apos"@,
        },
{
    match quick_xml::escape::unescape(&format!("&{name};")) {
        Ok(text) => Some(text.into_owned()),
        Err(_) => None,
    }
}

/// Script and style bodies are code, not content.
pub open spec fn opaque_tag(name: Seq<char>) -> bool {
    lower(name) == "script"@ || lower(name) == "style"@
}

pub open spec fn html_breaks() -> Seq<Seq<char>> {
    seq!["p"@, "div"@, "section"@, "article"@, "li"@, "h1"@, "h2"@, "h3"@, "h4"@, "h5"@, "h6"@, "tr"@]
}

/// Tags that begin and end a line: a Word paragraph, or an HTML block.
pub open spec fn breaking_tag(name: Seq<char>, docx: bool) -> bool {
    if docx {
        name == "p"@
    } else {
        html_breaks().contains(lower(name))
    }
}

/// The reader's state: text so far, inside a Word text run, depth inside script or style (a
/// depth that would pass `usize::MAX` stays there).
pub struct XmlState {
    pub out: Seq<char>,
    pub in_text: bool,
    pub skipping: nat,
}

/// One event applied to the state.
pub open spec fn xml_step(st: XmlState, ev: XmlEvent, docx: bool) -> XmlState {
    match ev {
        XmlEvent::Start(name) => if docx && name@ == "t"@ {
            XmlState { in_text: true, ..st }
        } else if !docx && opaque_tag(name@) {
            XmlState { skipping: if st.skipping < usize::MAX { st.skipping + 1 } else { st.skipping }, ..st }
        } else if breaking_tag(name@, docx) {
            XmlState { out: st.out + "\n"@, ..st }
        } else {
            st
        },
        XmlEvent::End(name) => if docx && name@ == "t"@ {
            XmlState { in_text: false, ..st }
        } else if !docx && opaque_tag(name@) {
            XmlState { skipping: if st.skipping > 0 { (st.skipping - 1) as nat } else { 0 }, ..st }
        } else if breaking_tag(name@, docx) {
            XmlState { out: st.out + "\n"@, ..st }
        } else {
            st
        },
        XmlEvent::Empty(name) => if name@ == "tab"@ {
            XmlState { out: st.out + "\t"@, ..st }
        } else if name@ == "br"@ || name@ == "cr"@ {
            XmlState { out: st.out + "\n"@, ..st }
        } else {
            st
        },
        XmlEvent::Text(text) => if st.in_text && st.skipping == 0 {
            XmlState { out: st.out + text@, ..st }
        } else {
            st
        },
        XmlEvent::GeneralRef(name) => if st.in_text && st.skipping == 0 {
            match xml_unescape("&"@ + name@ + ";"@) {
                Some(t) => XmlState { out: st.out + t, ..st },
                None => st,
            }
        } else {
            st
        },
        _ => st,
    }
}

/// The state after a run of events.
pub open spec fn xml_fold(events: Seq<XmlEvent>, docx: bool) -> XmlState
    decreases events.len(),
{
    if events.len() == 0 {
        XmlState { out: Seq::empty(), in_text: !docx, skipping: 0 }
    } else {
        xml_step(xml_fold(events.drop_last(), docx), events.last(), docx)
    }
}

/// The text of a Word body (`docx`) or an HTML page: Word keeps only its text runs and breaks
/// paragraphs; HTML drops script and style bodies and breaks lines at block tags.
pub open spec fn xml_text_of(source: Seq<char>, docx: bool) -> Seq<char> {
    xml_fold(xml_events_of(source, !docx), docx).out
}

fn is_opaque(name: &str) -> (r: bool)
    ensures
        r == opaque_tag(name@),
{
    equals_lower(name, "script") || equals_lower(name, "style")
}

fn line_break(name: &str, docx: bool) -> (r: bool)
    ensures
        r == breaking_tag(name@, docx),
{
    if docx {
        crate::text::str_eq(name, "p")
    } else {
        let blocks: [&str; 12] = ["p", "div", "section", "article", "li", "h1", "h2", "h3", "h4", "h5", "h6", "tr"];
        proof {
            assert(str_views(blocks@) =~= html_breaks());
        }
        one_of_lower(name, &blocks)
    }
}

pub fn xml_text(source: &str, docx: bool) -> (r: String)
    ensures
        r@ == xml_text_of(source@, docx),
{
    let mut reader = open_xml(source, !docx);
    let ghost events = pending_events(reader);
    let mut out = String::new();
    let mut in_text = !docx;
    let mut skipping: usize = 0;
    let ghost mut k: int = 0;
    proof {
        assert(events.take(0) =~= Seq::<XmlEvent>::empty());
        assert(events.skip(0) =~= events);
    }
    loop
        invariant
            well_ended(events),
            events == xml_events_of(source@, !docx),
            0 <= k < events.len(),
            pending_events(reader) == events.skip(k),
            xml_fold(events.take(k), docx) == (XmlState { out: out@, in_text, skipping: skipping as nat }),
        decreases events.len() - k,
    {
        let ev = next_xml(&mut reader);
        proof {
            assert(ev == events[k]);
            assert(events.take(k + 1).drop_last() =~= events.take(k));
            assert(events.skip(k).drop_first() =~= events.skip(k + 1));
        }
        let mut stop = false;
        match ev {
            XmlEvent::Start(name) => {
                if docx && crate::text::str_eq(name.as_str(), "t") {
                    in_text = true;
                } else if !docx && is_opaque(name.as_str()) {
                    if skipping < usize::MAX {
                        skipping = skipping + 1;
                    }
                } else if line_break(name.as_str(), docx) {
                    out.append("\n");
                }
            },
            XmlEvent::End(name) => {
                if docx && crate::text::str_eq(name.as_str(), "t") {
                    in_text = false;
                } else if !docx && is_opaque(name.as_str()) {
                    if skipping > 0 {
                        skipping = skipping - 1;
                    }
                } else if line_break(name.as_str(), docx) {
                    out.append("\n");
                }
            },
            XmlEvent::Empty(name) => {
                if crate::text::str_eq(name.as_str(), "tab") {
                    out.append("\t");
                } else if crate::text::str_eq(name.as_str(), "br") || crate::text::str_eq(name.as_str(), "cr") {
                    out.append("\n");
                }
            },
            XmlEvent::Text(text) => {
                if in_text && skipping == 0 {
                    out.append(text.as_str());
                }
            },
            XmlEvent::GeneralRef(name) => {
                if in_text && skipping == 0 {
                    match unescape_reference(name.as_str()) {
                        Some(decoded) => out.append(decoded.as_str()),
                        None => {},
                    }
                }
            },
            XmlEvent::Eof => {
                stop = true;
            },
            XmlEvent::Error => {
                stop = true;
            },
            XmlEvent::Other => {},
        }
        proof {
            k = k + 1;
        }
        if stop {
            proof {
                assert(k == events.len());
                assert(events.take(k) =~= events);
            }
            return out;
        }
    }
}

/// The text of an HTML page.
pub fn html(source: &str) -> (r: String)
    ensures
        r@ == xml_text_of(source@, false),
{
    xml_text(source, false)
}

/// Reading one entry of a ZIP archive.
#[derive(Debug)]
pub enum ZipEntry {
    Text(String),
    /// The bytes are not a ZIP archive; the archive reader's message.
    NotZip(String),
    /// No entry by that name; the archive reader's message.
    Missing(String),
    /// The entry could not be read as UTF-8 text; the reader's message.
    Unreadable(String),
}

pub enum ZipEntryView {
    Text(Seq<char>),
    NotZip(Seq<char>),
    Missing(Seq<char>),
    Unreadable(Seq<char>),
}

impl View for ZipEntry {
    type V = ZipEntryView;

    open spec fn view(&self) -> ZipEntryView {
        match self {
            ZipEntry::Text(t) => ZipEntryView::Text(t@),
            ZipEntry::NotZip(e) => ZipEntryView::NotZip(e@),
            ZipEntry::Missing(e) => ZipEntryView::Missing(e@),
            ZipEntry::Unreadable(e) => ZipEntryView::Unreadable(e@),
        }
    }
}

/// What the `zip` crate reads for an entry of an archive held in `bytes`.
pub uninterp spec fn zip_entry_of(bytes: Seq<u8>, name: Seq<char>) -> ZipEntryView;

/// Opens the bytes with `zip::ZipArchive::new`, finds the entry with `by_name` and reads it
/// with `read_to_string`, reporting which of the three steps failed with its error's text.
/// The three steps only pass an opaque archive between them, so the outcome is taken as one
/// value: `zip_entry_of` of the bytes and the entry name.
#[verifier::external_body]
pub(crate) fn read_zip_entry(bytes: &[u8], name: &str) -> (r: ZipEntry)
    ensures
        r@ == zip_entry_of(bytes@, name@),
{
    let mut archive = match zip::ZipArchive::new(std::io::Cursor::new(bytes)) {
        Ok(archive) => archive,
        Err(error) => return ZipEntry::NotZip(error.to_string()),
    };
    let mut file = match archive.by_name(name) {
        Ok(file) => file,
        Err(error) => return ZipEntry::Missing(error.to_string()),
    };
    let mut text = String::new();
    match std::io::Read::read_to_string(&mut file, &mut text) {
        Ok(_) => ZipEntry::Text(text),
        Err(error) => ZipEntry::Unreadable(error.to_string()),
    }
}

/// Where a Word document keeps its body.
pub const DOCX_BODY: &'static str = "word/document.xml";

/// The text of a `.docx`, or why it could not be read.
pub open spec fn docx_outcome(shown: Seq<char>, bytes: Seq<u8>) -> Result<Seq<char>, Seq<char>> {
    match zip_entry_of(bytes, DOCX_BODY@) {
        ZipEntryView::Text(xml) => Ok(xml_text_of(xml, true)),
        ZipEntryView::NotZip(e) => Err("không mở được DOCX `"@ + shown + "`: "@ + e),
        ZipEntryView::Missing(e) => Err("DOCX `"@ + shown + "` thiếu nội dung: "@ + e),
        ZipEntryView::Unreadable(e) => Err("không đọc được DOCX `"@ + shown + "`: "@ + e),
    }
}

pub fn docx(shown: &str, bytes: &[u8]) -> (r: Result<String, RagError>)
    ensures
        match docx_outcome(shown@, bytes@) {
            Ok(t) => r matches Ok(s) && s@ == t,
            Err(m) => r matches Err(RagError::Extraction(e)) && e@ == m,
        },
{
    match read_zip_entry(bytes, DOCX_BODY) {
        ZipEntry::Text(xml) => Ok(xml_text(xml.as_str(), true)),
        ZipEntry::NotZip(error) => Err(RagError::Extraction(
            String::from_str("không mở được DOCX `").concat(shown).concat("`: ").concat(error.as_str()),
        )),
        ZipEntry::Missing(error) => Err(RagError::Extraction(
            String::from_str("DOCX `").concat(shown).concat("` thiếu nội dung: ").concat(error.as_str()),
        )),
        ZipEntry::Unreadable(error) => Err(RagError::Extraction(
            String::from_str("không đọc được DOCX `").concat(shown).concat("`: ").concat(error.as_str()),
        )),
    }
}

/// `ceiling MB` of the size cap.
pub open spec fn cap_text() -> Seq<char> {
    decimal_text((MAX_FILE_BYTES / 1024 / 1024) as nat) + " MB"@
}

pub(crate) fn cap_label() -> (r: String)
    ensures
        r@ == cap_text(),
{
    decimal(MAX_FILE_BYTES / 1024 / 1024).concat(" MB")
}

/// Why a file of this size is refused, if it is: empty, or over the cap.
pub open spec fn size_refusal(shown: Seq<char>, len: u64) -> Option<Seq<char>> {
    if len == 0 {
        Some("`"@ + shown + "` là tệp rỗng"@)
    } else if len > MAX_FILE_BYTES {
        Some("`"@ + shown + "` vượt trần "@ + cap_text())
    } else {
        None
    }
}

/// The size check every reader makes before it reads a byte.
pub fn check_size(shown: &str, len: u64) -> (r: Result<(), RagError>)
    ensures
        match size_refusal(shown@, len) {
            Some(m) => r matches Err(RagError::Extraction(e)) && e@ == m,
            None => r is Ok,
        },
{
    if len == 0 {
        return Err(RagError::Extraction(String::from_str("`").concat(shown).concat("` là tệp rỗng")));
    }
    if len > MAX_FILE_BYTES {
        let cap = cap_label();
        return Err(RagError::Extraction(
            String::from_str("`").concat(shown).concat("` vượt trần ").concat(cap.as_str()),
        ));
    }
    Ok(())
}

/// The checks before a native read: a regular file, not empty, within the cap.
pub fn check_file(shown: &str, is_file: bool, len: u64) -> (r: Result<(), RagError>)
    ensures
        !is_file ==> (r matches Err(RagError::Extraction(e)) && e@ == "`"@ + shown@ + "` không phải một tệp"@),
        is_file ==> match size_refusal(shown@, len) {
            Some(m) => r matches Err(RagError::Extraction(e)) && e@ == m,
            None => r is Ok,
        },
{
    if !is_file {
        return Err(RagError::Extraction(String::from_str("`").concat(shown).concat("` không phải một tệp")));
    }
    check_size(shown, len)
}

/// An image is refused when empty or over the cap.
pub fn check_image_size(shown: &str, len: u64) -> (r: Result<(), RagError>)
    ensures
        (len == 0 || len > MAX_FILE_BYTES) ==> (r matches Err(RagError::Extraction(e)) && e@ == "ảnh `"@
            + shown@ + "` rỗng hoặc vượt trần "@ + cap_text()),
        !(len == 0 || len > MAX_FILE_BYTES) ==> r is Ok,
{
    if len == 0 || len > MAX_FILE_BYTES {
        let cap = cap_label();
        return Err(RagError::Extraction(
            String::from_str("ảnh `").concat(shown).concat("` rỗng hoặc vượt trần ").concat(cap.as_str()),
        ));
    }
    Ok(())
}

/// The title of a file: its stem, or the whole path when it has none.
pub open spec fn title_from(path: Seq<char>) -> Seq<char> {
    match file_stem_of(path) {
        Some(stem) => stem,
        None => path,
    }
}

fn title_for(path: &str) -> (r: String)
    ensures
        r@ == title_from(path@),
{
    match path_file_stem(path) {
        Some(stem) => stem,
        None => String::from_str(path),
    }
}

/// The text a native reader takes out of a file's bytes, or why it could not.
pub open spec fn native_outcome(shown: Seq<char>, format: Format, bytes: Seq<u8>) -> Result<Seq<char>, Seq<char>> {
    let read = if format == Format::Office {
        docx_outcome(shown, bytes)
    } else if format == Format::Html {
        Ok(xml_text_of(lossy_utf8(bytes), false))
    } else if binary(bytes) {
        Err("`"@ + shown + "` trông như tệp nhị phân dù mang đuôi văn bản"@)
    } else {
        Ok(trimmed(decoded_text(bytes)))
    };
    match read {
        Ok(text) => if blank(text) {
            Err("`"@ + shown + "` không có nội dung chữ"@)
        } else {
            Ok(text)
        },
        Err(e) => Err(e),
    }
}

/// Read a file's bytes as the given format. `path` is the file as shown to the user; its stem
/// becomes the title.
pub fn extract_bytes(path: &str, format: Format, bytes: &[u8]) -> (r: Result<Extracted, RagError>)
    ensures
        match native_outcome(path@, format, bytes@) {
            Ok(t) => r matches Ok(x) && x.text@ == t && x.format == format && x.title@ == title_from(path@)
                && x.pages == 0 && x.ocr_pages@.len() == 0,
            Err(m) => r matches Err(RagError::Extraction(e)) && e@ == m,
        },
{
    let text = match format {
        Format::Office => match docx(path, bytes) {
            Ok(t) => t,
            Err(e) => return Err(e),
        },
        Format::Html => {
            let source = utf8_lossy(bytes);
            html(source.as_str())
        },
        _ => {
            if looks_binary(bytes) {
                return Err(RagError::Extraction(
                    String::from_str("`").concat(path).concat("` trông như tệp nhị phân dù mang đuôi văn bản"),
                ));
            }
            let decoded = decode_text(bytes);
            String::from_str(trim(decoded.as_str()))
        },
    };
    if is_blank(text.as_str()) {
        return Err(RagError::Extraction(String::from_str("`").concat(path).concat("` không có nội dung chữ")));
    }
    Ok(Extracted { text, format, title: title_for(path), pages: 0, ocr_pages: Vec::new() })
}

/// A PDF with no pages is a failure, not an empty document.
pub fn require_pages(shown: &str, pages: Vec<String>) -> (r: Result<Vec<String>, RagError>)
    ensures
        pages@.len() == 0 ==> (r matches Err(RagError::Extraction(e)) && e@ == "PDF `"@ + shown@ + "` không có trang nào"@),
        pages@.len() > 0 ==> (r matches Ok(v) && v@ == pages@),
{
    if pages.len() == 0 {
        return Err(RagError::Extraction(String::from_str("PDF `").concat(shown).concat("` không có trang nào")));
    }
    Ok(pages)
}

/// Characters per page once trimmed, summed.
pub open spec fn char_total(pages: Seq<String>) -> nat
    decreases pages.len(),
{
    if pages.len() == 0 {
        0
    } else {
        char_total(pages.drop_last()) + trimmed(pages.last()@).len()
    }
}

/// Trimmed characters per page, rounded down; zero without pages.
pub fn average_chars(pages: &Vec<String>) -> (r: usize)
    requires
        char_total(pages@) <= usize::MAX,
    ensures
        pages@.len() == 0 ==> r == 0,
        pages@.len() > 0 ==> r == char_total(pages@) / pages@.len(),
{
    if pages.len() == 0 {
        return 0;
    }
    let mut total: usize = 0;
    let mut i: usize = 0;
    while i < pages.len()
        invariant
            i <= pages@.len(),
            total == char_total(pages@.take(i as int)),
            char_total(pages@) <= usize::MAX,
        decreases pages.len() - i,
    {
        proof {
            assert(pages@.take(i + 1).drop_last() =~= pages@.take(i as int));
            lemma_char_total_prefix(pages@, i + 1);
        }
        let count = trim(pages[i].as_str()).unicode_len();
        total = total + count;
        i = i + 1;
    }
    proof {
        assert(pages@.take(pages.len() as int) =~= pages@);
    }
    total / pages.len()
}

proof fn lemma_char_total_prefix(pages: Seq<String>, k: int)
    requires
        0 <= k <= pages.len(),
    ensures
        char_total(pages.take(k)) <= char_total(pages),
    decreases pages.len() - k,
{
    if k < pages.len() {
        lemma_char_total_prefix(pages, k + 1);
        assert(pages.take(k + 1).drop_last() =~= pages.take(k));
    } else {
        assert(pages.take(k) =~= pages);
    }
}

/// One page of a PDF's text, marked with its page number.
pub open spec fn page_block(index: nat, page: Seq<char>) -> Seq<char> {
    "<!-- pai-page:"@ + decimal_text(index + 1) + " -->\n\n"@ + trimmed(page)
}

/// The pages, each marked, separated by blank lines.
pub open spec fn pages_text(pages: Seq<String>) -> Seq<char>
    decreases pages.len(),
{
    if pages.len() == 0 {
        Seq::empty()
    } else if pages.len() == 1 {
        page_block(0, pages[0]@)
    } else {
        pages_text(pages.drop_last()) + "\n\n"@ + page_block((pages.len() - 1) as nat, pages.last()@)
    }
}

/// A PDF's extracted text: every page marked with its number so chunks can cite it.
pub fn pdf_from_pages(path: &str, pages: Vec<String>, ocr_pages: Vec<u32>) -> (r: Extracted)
    ensures
        r.text@ == pages_text(pages@),
        r.format == Format::Pdf,
        r.title@ == title_from(path@),
        r.pages == pages@.len() as u32,
        r.ocr_pages@ == ocr_pages@,
{
    let mut text = String::new();
    let mut i: usize = 0;
    while i < pages.len()
        invariant
            i <= pages@.len(),
            text@ == pages_text(pages@.take(i as int)),
        decreases pages.len() - i,
    {
        let ghost t = pages@.take(i + 1);
        proof {
            assert(t.drop_last() =~= pages@.take(i as int));
            assert(t.last() == pages@[i as int]);
            if i == 0 {
                assert(pages@.take(0) =~= Seq::<String>::empty());
                assert(t[0] == pages@[0]);
            }
        }
        if i > 0 {
            text.append("\n\n");
        }
        text.append("<!-- pai-page:");
        let number = decimal((i as u64) + 1);
        text.append(number.as_str());
        text.append(" -->\n\n");
        text.append(trim(pages[i].as_str()));
        proof {
            assert(text@ =~= pages_text(t));
        }
        i = i + 1;
    }
    proof {
        assert(pages@.take(pages.len() as int) =~= pages@);
    }
    let count = pages.len() as u32;
    Extracted { text, format: Format::Pdf, title: title_for(path), pages: count, ocr_pages }
}

/// A PDF read from its text layer alone, refused when the layer is too thin: that is a scan.
pub fn extract_pdf(path: &str, pages: Vec<String>, min_chars_per_page: usize) -> (r: Result<Extracted, RagError>)
    requires
        char_total(pages@) <= usize::MAX,
    ensures
        (if pages@.len() == 0 { 0 } else { char_total(pages@) / pages@.len() }) < min_chars_per_page ==> (r matches Err(
            RagError::Extraction(e),
        ) && e@ == "PDF `"@ + path@ + "` không có đủ lớp chữ; cần bật OCR và chọn mô hình vision"@),
        (if pages@.len() == 0 { 0 } else { char_total(pages@) / pages@.len() }) >= min_chars_per_page ==> (r matches Ok(x)
            && x.text@ == pages_text(pages@) && x.format == Format::Pdf && x.title@ == title_from(path@)
            && x.pages == pages@.len() as u32 && x.ocr_pages@.len() == 0),
{
    if average_chars(&pages) < min_chars_per_page {
        return Err(RagError::Extraction(
            String::from_str("PDF `").concat(path).concat("` không có đủ lớp chữ; cần bật OCR và chọn mô hình vision"),
        ));
    }
    Ok(pdf_from_pages(path, pages, Vec::new()))
}

} // verus!
