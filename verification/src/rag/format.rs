//! Document format. This list must match `Format::as_str` and the labels the UI knows;
//! grouped by how a file is read.

use vstd::prelude::*;

use crate::text::{equals_lower, lower, trim, trimmed};

verus! {

#[derive(Clone, Copy, Debug, PartialEq, Eq, Structural)]
pub enum Format {
    Pdf,
    /// `.docx`, `.xlsx`, `.pptx` and relatives.
    Office,
    /// Images, read by a vision model. Only present once a vision model is selected.
    Image,
    Html,
    /// `.csv`, `.tsv`, `.json`, `.xml`, `.yaml`: structured, but read out as text.
    Data,
    Markdown,
    Code,
    Text,
}

impl Format {
    /// The wire label.
    pub open spec fn label(self) -> Seq<char> {
        match self {
            Format::Pdf => "pdf"@,
            Format::Office => "office"@,
            Format::Image => "image"@,
            Format::Html => "html"@,
            Format::Data => "data"@,
            Format::Markdown => "markdown"@,
            Format::Code => "code"@,
            Format::Text => "text"@,
        }
    }

    /// The format a lower-case label names; anything unknown reads as text.
    pub open spec fn from_label(name: Seq<char>) -> Format {
        if name == "pdf"@ {
            Format::Pdf
        } else if name == "office"@ || name == "docx"@ || name == "xlsx"@ || name == "pptx"@ {
            Format::Office
        } else if name == "image"@ {
            Format::Image
        } else if name == "html"@ {
            Format::Html
        } else if name == "data"@ || name == "csv"@ {
            Format::Data
        } else if name == "markdown"@ {
            Format::Markdown
        } else if name == "code"@ {
            Format::Code
        } else {
            Format::Text
        }
    }

    pub fn as_str(self) -> (r: &'static str)
        ensures
            r@ == self.label(),
    {
        match self {
            Format::Pdf => "pdf",
            Format::Office => "office",
            Format::Image => "image",
            Format::Html => "html",
            Format::Data => "data",
            Format::Markdown => "markdown",
            Format::Code => "code",
            Format::Text => "text",
        }
    }

    /// From the wire string, trimmed and case-folded; unknown formats fall back to
    /// [`Format::Text`] so a new label never blanks the list.
    pub fn parse(name: &str) -> (r: Format)
        ensures
            r == Format::from_label(lower(trimmed(name@))),
    {
        let t = trim(name);
        if equals_lower(t, "pdf") {
            Format::Pdf
        } else if equals_lower(t, "office") || equals_lower(t, "docx") || equals_lower(t, "xlsx")
            || equals_lower(t, "pptx") {
            Format::Office
        } else if equals_lower(t, "image") {
            Format::Image
        } else if equals_lower(t, "html") {
            Format::Html
        } else if equals_lower(t, "data") || equals_lower(t, "csv") {
            Format::Data
        } else if equals_lower(t, "markdown") {
            Format::Markdown
        } else if equals_lower(t, "code") {
            Format::Code
        } else {
            Format::Text
        }
    }
}

} // verus!
