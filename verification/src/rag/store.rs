//! The rows the document store hands out: a document with its chunk tally, one chunk with
//! what a citation needs, and the store's totals.

use vstd::prelude::*;

use crate::rag::extract::Format;

verus! {

/// A `documents` row as the store sees it.
#[derive(Clone, Debug)]
pub struct DocumentRow {
    pub id: String,
    pub path: String,
    pub origin: String,
    pub title: String,
    pub format: Format,
    pub bytes: u64,
    pub added_at: i64,
    pub error: Option<String>,
    pub chunks: u32,
    /// Every chunk of the document has a vector.
    pub embedded: bool,
}

/// A `chunks` row, enough to build a citation.
#[derive(Clone, Debug)]
pub struct ChunkRow {
    pub id: i64,
    pub document_id: String,
    pub title: String,
    pub path: String,
    pub ord: u32,
    pub heading: Option<String>,
    pub body: String,
}

/// Totals, for the library's health report.
#[derive(Clone, Copy, Debug, PartialEq, Eq, Structural)]
pub struct Counts {
    pub documents: u32,
    pub chunks: u32,
    pub embedded_chunks: u32,
}

impl Default for Counts {
    fn default() -> (r: Counts)
        ensures
            r == (Counts { documents: 0, chunks: 0, embedded_chunks: 0 }),
    {
        Counts { documents: 0, chunks: 0, embedded_chunks: 0 }
    }
}

/// What the store did when it opened its file.
#[derive(Clone, Copy, Debug, PartialEq, Eq, Structural)]
pub enum Opened {
    /// A new file, or an old one still on the right schema.
    Ready,
    /// The schema was old and has just been rebuilt; the stored copies must be read again.
    Rebuilt,
}

/// `char::is_alphanumeric`: the Unicode `Alphabetic` or `Numeric` property.
pub uninterp spec fn alphanumeric(c: char) -> bool;

/// Calls `char::is_alphanumeric`. The result is taken as `alphanumeric` of the character; an
/// ASCII character has the property exactly when it is a letter or a digit, as the Unicode
/// tables say.
#[verifier::external_body]
fn is_alphanumeric(c: char) -> (r: bool)
    ensures
        r == alphanumeric(c),
        ('a' <= c <= 'z' || 'A' <= c <= 'Z' || '0' <= c <= '9') ==> r,
        (c as u32) < 128 && !('a' <= c <= 'z' || 'A' <= c <= 'Z' || '0' <= c <= '9') ==> !r,
{
    c.is_alphanumeric()
}

/// A character a search word is made of.
pub open spec fn word_char(c: char) -> bool {
    alphanumeric(c) || c == '_'
}

/// The words of a query: its maximal runs of word characters, in order.
pub open spec fn words(s: Seq<char>) -> Seq<Seq<char>>
    decreases s.len(),
{
    if s.len() == 0 {
        Seq::empty()
    } else {
        let t = words(s.drop_last());
        let c = s.last();
        if !word_char(c) {
            t
        } else if s.len() >= 2 && word_char(s[s.len() - 2]) {
            t.update(t.len() - 1, t.last().push(c))
        } else {
            t.push(seq![c])
        }
    }
}

proof fn lemma_words_end(s: Seq<char>)
    requires
        s.len() > 0,
        word_char(s.last()),
    ensures
        words(s).len() > 0,
    decreases s.len(),
{
    if s.len() >= 2 && word_char(s[s.len() - 2]) {
        lemma_words_end(s.drop_last());
        assert(s.drop_last().last() == s[s.len() - 2]);
    }
}

/// Each word in double quotes, joined by `sep`.
pub open spec fn quoted_join(words: Seq<Seq<char>>, sep: Seq<char>) -> Seq<char>
    decreases words.len(),
{
    if words.len() == 0 {
        Seq::empty()
    } else if words.len() == 1 {
        "\""@ + words[0] + "\""@
    } else {
        quoted_join(words.drop_last(), sep) + sep + "\""@ + words.last() + "\""@
    }
}

/// The two full-text expressions of a query: every word required, and any word enough; none
/// when the query has no word.
pub open spec fn fts_of(query: Seq<char>) -> Option<(Seq<char>, Seq<char>)> {
    let w = words(query);
    if w.len() == 0 {
        None
    } else {
        Some((quoted_join(w, " AND "@), quoted_join(w, " OR "@)))
    }
}

fn split_words(query: &str) -> (r: Vec<String>)
    ensures
        crate::sandbox::policy::views(r@) == words(query@),
{
    let n = query.unicode_len();
    let mut out: Vec<String> = Vec::new();
    let mut i: usize = 0;
    proof {
        assert(crate::sandbox::policy::views(out@) =~= words(query@.take(0)));
    }
    while i < n
        invariant
            n == query@.len(),
            i <= n,
            crate::sandbox::policy::views(out@) == words(query@.take(i as int)),
        decreases n - i,
    {
        let c = query.get_char(i);
        let ghost pre = query@.take(i as int);
        let ghost next = query@.take(i + 1);
        proof {
            assert(next.drop_last() =~= pre);
            assert(next.last() == c);
        }
        let word = is_alphanumeric(c) || c == '_';
        if word {
            let joins = i > 0 && {
                let p = query.get_char(i - 1);
                is_alphanumeric(p) || p == '_'
            };
            let piece = query.substring_char(i, i + 1);
            proof {
                assert(piece@ =~= seq![c]);
            }
            if joins {
                proof {
                    assert(next[next.len() - 2] == query@[i - 1]);
                    assert(pre.last() == query@[i - 1]);
                    lemma_words_end(pre);
                }
                let ghost before = out@;
                let mut last = out.pop().unwrap();
                let ghost rest = out@;
                last.append(piece);
                proof {
                    assert(rest == before.drop_last());
                    assert(last@ == before.last()@ + seq![c]);
                    assert(crate::sandbox::policy::views(rest) =~= crate::sandbox::policy::views(before).drop_last());
                    assert(crate::sandbox::policy::views(before).last() == before.last()@);
                    assert(before.last()@ + seq![c] =~= before.last()@.push(c));
                }
                out.push(last);
                proof {
                    crate::sandbox::policy::lemma_views_push(rest, last);
                    assert(crate::sandbox::policy::views(out@) =~= words(pre).update(
                        words(pre).len() - 1,
                        words(pre).last().push(c),
                    ));
                }
            } else {
                let ghost before = out@;
                out.push(String::from_str(piece));
                proof {
                    crate::sandbox::policy::lemma_views_push(before, out@.last());
                    if i > 0 {
                        assert(next[next.len() - 2] == query@[i - 1]);
                    }
                }
            }
        }
        i = i + 1;
    }
    proof {
        assert(query@.take(n as int) =~= query@);
    }
    out
}

fn join_quoted(words: &Vec<String>, sep: &str) -> (r: String)
    ensures
        r@ == quoted_join(crate::sandbox::policy::views(words@), sep@),
{
    let ghost all = crate::sandbox::policy::views(words@);
    let mut out = String::new();
    let mut i: usize = 0;
    while i < words.len()
        invariant
            all == crate::sandbox::policy::views(words@),
            i <= words@.len(),
            out@ == quoted_join(all.take(i as int), sep@),
        decreases words.len() - i,
    {
        proof {
            assert(all.take(i + 1).drop_last() =~= all.take(i as int));
            assert(all.take(i + 1).last() == words@[i as int]@);
        }
        if i > 0 {
            out = out.concat(sep);
        }
        out = out.concat("\"").concat(words[i].as_str()).concat("\"");
        proof {
            if i == 0 {
                assert(all.take(1)[0] == words@[0]@);
            }
        }
        i = i + 1;
    }
    proof {
        assert(all.take(words@.len() as int) =~= all);
    }
    out
}

/// The full-text expressions for a query: its words quoted, all required and any enough.
pub fn fts_expressions(query: &str) -> (r: Option<(String, String)>)
    ensures
        match fts_of(query@) {
            None => r is None,
            Some((all, any)) => r matches Some((a, b)) && a@ == all && b@ == any,
        },
{
    let words = split_words(query);
    if words.len() == 0 {
        return None;
    }
    Some((join_quoted(&words, " AND "), join_quoted(&words, " OR ")))
}

} // verus!
