//! Why a chunk showed up in the results; the UI draws this label.

use vstd::prelude::*;

use crate::text::{equals_lower, lower, trim, trimmed};

verus! {

#[derive(Clone, Copy, Debug, PartialEq, Eq, Structural)]
pub enum MatchedBy {
    Keyword,
    Semantic,
    Both,
}

impl MatchedBy {
    pub open spec fn label(self) -> Seq<char> {
        match self {
            MatchedBy::Keyword => "keyword"@,
            MatchedBy::Semantic => "semantic"@,
            MatchedBy::Both => "both"@,
        }
    }

    pub fn as_str(self) -> (r: &'static str)
        ensures
            r@ == self.label(),
    {
        match self {
            MatchedBy::Keyword => "keyword",
            MatchedBy::Semantic => "semantic",
            MatchedBy::Both => "both",
        }
    }

    /// From the wire string; unknown labels fall back to [`MatchedBy::Keyword`], the branch
    /// that needs no embedder.
    pub fn parse(value: &str) -> (r: MatchedBy)
        ensures
            r == (if lower(trimmed(value@)) == "semantic"@ {
                MatchedBy::Semantic
            } else if lower(trimmed(value@)) == "both"@ {
                MatchedBy::Both
            } else {
                MatchedBy::Keyword
            }),
    {
        let t = trim(value);
        if equals_lower(t, "semantic") {
            MatchedBy::Semantic
        } else if equals_lower(t, "both") {
            MatchedBy::Both
        } else {
            MatchedBy::Keyword
        }
    }
}

} // verus!
