//! Cutting a document into chunks.
//!
//! Every boundary is computed on character positions and only turned into a byte offset at
//! the very end, so a chunk can never start or end inside a multi-byte character. Chunks are
//! contiguous slices of the text, they cover every non-whitespace character, and each one
//! after the first starts before the previous one ends (the overlap) or right at a unit.
//! The cut is chosen by preference: heading, paragraph, sentence, then a hard cut.

use vstd::prelude::*;
use vstd::utf8::*;

use crate::text::{
    byte_offsets, byte_pos, chars_of, is_whitespace, is_ws, lemma_byte_pos_mono,
    lemma_byte_pos_strict,
};

verus! {

/// Chunking options, in characters rather than bytes.
#[derive(Clone, Copy, Debug)]
pub struct ChunkOpts {
    /// Desired chunk size.
    pub target: usize,
    /// How many trailing characters of one chunk are repeated at the head of the next.
    pub overlap: usize,
}

impl ChunkOpts {
    /// A target of at least one, and an overlap strictly below the target.
    pub fn new(target: usize, overlap: usize) -> (o: ChunkOpts)
        ensures
            o.target == if target == 0 { 1 } else { target },
            o.overlap == if overlap < o.target { overlap } else { (o.target - 1) as usize },
    {
        let target = if target == 0 {
            1
        } else {
            target
        };
        let cap = target - 1;
        ChunkOpts { target, overlap: if overlap < cap + 1 { overlap } else { cap } }
    }

}

impl Default for ChunkOpts {
    /// About 1000 characters with an overlap of about 150.
    fn default() -> (o: ChunkOpts)
        ensures
            o.target == 1000,
            o.overlap == 150,
    {
        ChunkOpts { target: 1000, overlap: 150 }
    }
}

/// One chunk: `text` is exactly the bytes `start..end` of the source.
#[derive(Clone, Debug, PartialEq, Eq)]
pub struct Chunk {
    pub ord: u32,
    pub text: String,
    /// Byte offsets into the source, always on character boundaries.
    pub start: usize,
    pub end: usize,
    /// The section heading in force where the chunk's own content begins.
    pub heading: Option<String>,
}

/// How strong the boundary a unit starts at is.
#[derive(Clone, Copy, Debug, PartialEq, Eq)]
pub enum Level {
    Heading,
    Paragraph,
    Sentence,
    Hard,
}

/// A run of characters `start..end`, with the heading title range in force.
#[derive(Clone, Copy, Debug)]
pub struct Span {
    pub start: usize,
    pub end: usize,
    pub level: Level,
    pub heading: Option<(usize, usize)>,
}

/// Position `k` lies in `sp`.
pub open spec fn in_span(sp: Span, k: int) -> bool {
    sp.start <= k < sp.end
}

pub open spec fn in_pair(p: (usize, usize), k: int) -> bool {
    p.0 <= k < p.1
}

/// Spans are non-empty, inside `lo..hi`, strictly ordered, and name heading ranges inside `s`.
pub open spec fn spans_wf(s: Seq<char>, v: Seq<Span>, lo: int, hi: int) -> bool {
    &&& forall|i: int| 0 <= i < v.len() ==> lo <= #[trigger] v[i].start < v[i].end <= hi
    &&& forall|i: int, j: int| 0 <= i < j < v.len() ==> #[trigger] v[i].end <= #[trigger] v[j].start
    &&& forall|i: int|
        0 <= i < v.len() ==> (#[trigger] v[i].heading matches Some(h) ==> h.0 <= h.1 <= s.len())
}

/// Every non-whitespace character of `lo..hi` lies in some span.
pub open spec fn spans_cover(s: Seq<char>, v: Seq<Span>, lo: int, hi: int) -> bool {
    forall|k: int|
        lo <= k < hi && !is_ws(#[trigger] s[k]) ==> exists|i: int|
            0 <= i < v.len() && #[trigger] in_span(v[i], k)
}

pub open spec fn pairs_wf(v: Seq<(usize, usize)>, lo: int, hi: int) -> bool {
    &&& forall|i: int| 0 <= i < v.len() ==> lo <= #[trigger] v[i].0 < v[i].1 <= hi
    &&& forall|i: int, j: int| 0 <= i < j < v.len() ==> #[trigger] v[i].1 <= #[trigger] v[j].0
}

pub open spec fn pairs_cover(s: Seq<char>, v: Seq<(usize, usize)>, lo: int, hi: int) -> bool {
    forall|k: int|
        lo <= k < hi && !is_ws(#[trigger] s[k]) ==> exists|i: int|
            0 <= i < v.len() && #[trigger] in_pair(v[i], k)
}

/// `lo..hi` holds whitespace only.
pub open spec fn all_ws(s: Seq<char>, lo: int, hi: int) -> bool {
    forall|k: int| lo <= k < hi ==> is_ws(#[trigger] s[k])
}

/// `a..b` with whitespace trimmed off both ends, or `None` when nothing else is inside.
pub open spec fn trimmed_of(s: Seq<char>, a: int, b: int) -> Option<(usize, usize)> {
    let x = first_non_ws_from(s, a, b);
    if x >= b {
        None
    } else {
        Some((x as usize, trim_end(s, a, b) as usize))
    }
}

/// `acc` with the trimmed `a..b` added, if anything is left of it.
pub open spec fn push_trim(acc: Seq<(usize, usize)>, s: Seq<char>, a: int, b: int) -> Seq<(usize, usize)> {
    match trimmed_of(s, a, b) {
        Some(r) => acc.push(r),
        None => acc,
    }
}

/// Whitespace trimmed off both ends of `a..b`, or `None` when nothing else is inside.
fn trimmed_range(s: &Vec<char>, a: usize, b: usize) -> (r: Option<(usize, usize)>)
    requires
        a <= b <= s.len(),
    ensures
        match r {
            Some((x, y)) => {
                &&& a <= x < y <= b
                &&& all_ws(s@, a as int, x as int)
                &&& all_ws(s@, y as int, b as int)
                &&& !is_ws(s@[x as int])
                &&& !is_ws(s@[y - 1])
            },
            None => all_ws(s@, a as int, b as int),
        },
        r == trimmed_of(s@, a as int, b as int),
{
    let mut x = a;
    while x < b && is_whitespace(s[x])
        invariant
            a <= x <= b <= s.len(),
            all_ws(s@, a as int, x as int),
        decreases b - x,
    {
        x = x + 1;
    }
    if x == b {
        proof {
            lemma_first_non_ws(s@, a as int, b as int, b as int);
        }
        return None;
    }
    proof {
        lemma_first_non_ws(s@, a as int, x as int, b as int);
    }
    let mut y = b;
    while y > x + 1 && is_whitespace(s[y - 1])
        invariant
            a <= x < y <= b <= s.len(),
            !is_ws(s@[x as int]),
            all_ws(s@, y as int, b as int),
        decreases y,
    {
        y = y - 1;
    }
    proof {
        lemma_trim_end(s@, a as int, y as int, b as int);
    }
    Some((x, y))
}

/// How many `#` open `st..en`.
pub open spec fn hash_count(s: Seq<char>, st: int, en: int) -> int
    decreases en - st,
{
    if st < en && s[st] == '#' {
        1 + hash_count(s, st + 1, en)
    } else {
        0
    }
}

/// `## Title` gives the range of `Title`; a space after the hashes is required, so a
/// `#hashtag` inside ordinary prose does not rename the rest of the document.
fn markdown_heading(s: &Vec<char>, st: usize, en: usize) -> (r: Option<(usize, usize)>)
    requires
        st < en <= s.len(),
    ensures
        r matches Some(t) ==> st < t.0 < t.1 <= en,
        ({
            let h = hash_count(s@, st as int, en as int);
            match r {
                Some((x, y)) => {
                    &&& 1 <= h <= 6
                    &&& st + h < en
                    &&& s@[st + h] == ' '
                    &&& st + h <= x < y <= en
                    &&& all_ws(s@, st + h, x as int)
                    &&& all_ws(s@, y as int, en as int)
                    &&& !is_ws(s@[x as int])
                    &&& !is_ws(s@[y - 1])
                },
                None => h == 0 || h > 6 || st + h >= en || s@[st + h] != ' ' || all_ws(
                    s@,
                    st + h,
                    en as int,
                ),
            }
        }),
{
    let mut h: usize = 0;
    while st + h < en && s[st + h] == '#'
        invariant
            st + h <= en <= s.len(),
            hash_count(s@, st as int, en as int) == h + hash_count(s@, st + h, en as int),
        decreases en - (st + h),
    {
        h = h + 1;
    }
    if h == 0 || h > 6 {
        return None;
    }
    if st + h >= en || s[st + h] != ' ' {
        return None;
    }
    trimmed_range(s, st + h, en)
}

proof fn lemma_push_span(s: Seq<char>, v: Seq<Span>, sp: Span, lo: int, hi: int, hi2: int)
    requires
        spans_wf(s, v, lo, hi),
        hi <= hi2,
        lo <= sp.start < sp.end <= hi2,
        sp.heading matches Some(h) ==> h.0 <= h.1 <= s.len(),
        forall|i: int| 0 <= i < v.len() ==> #[trigger] v[i].end <= sp.start,
    ensures
        spans_wf(s, v.push(sp), lo, hi2),
{
    let w = v.push(sp);
    assert forall|i: int, j: int| 0 <= i < j < w.len() implies #[trigger] w[i].end <= #[trigger] w[j].start by {
        if j == v.len() {
            assert(w[i] == v[i]);
        } else {
            assert(w[i] == v[i] && w[j] == v[j]);
        }
    }
    assert forall|i: int| 0 <= i < w.len() implies lo <= #[trigger] w[i].start < w[i].end <= hi2 by {
        if i < v.len() {
            assert(w[i] == v[i]);
        }
    }
    assert forall|i: int| 0 <= i < w.len() implies (#[trigger] w[i].heading matches Some(h) ==> h.0 <= h.1 <= s.len()) by {
        if i < v.len() {
            assert(w[i] == v[i]);
        }
    }
}

proof fn lemma_spans_end_le(s: Seq<char>, v: Seq<Span>, lo: int, hi: int)
    requires
        spans_wf(s, v, lo, hi),
    ensures
        forall|i: int| 0 <= i < v.len() ==> #[trigger] v[i].end <= hi,
{
    assert forall|i: int| 0 <= i < v.len() implies #[trigger] v[i].end <= hi by {
        assert(lo <= v[i].start < v[i].end <= hi);
    }
}

proof fn lemma_widen_spans(s: Seq<char>, v: Seq<Span>, lo: int, hi: int, hi2: int)
    requires
        spans_wf(s, v, lo, hi),
        hi <= hi2,
    ensures
        spans_wf(s, v, lo, hi2),
{
}

/// Just past the newline that ends the line running through `i`, or the end of the text.
pub open spec fn line_end(s: Seq<char>, i: int) -> int
    decreases s.len() - i,
{
    if i >= s.len() {
        s.len() as int
    } else if s[i] == '\n' {
        i + 1
    } else {
        line_end(s, i + 1)
    }
}

/// The end of `lo..hi` once trailing whitespace is dropped.
pub open spec fn trim_end(s: Seq<char>, lo: int, hi: int) -> int
    decreases hi - lo,
{
    if hi <= lo {
        lo
    } else if !is_ws(s[hi - 1]) {
        hi
    } else {
        trim_end(s, lo, hi - 1)
    }
}

/// The title range of the line `ls..le` when it is a markdown heading: up to six `#`, a space,
/// and a title that is not blank, all trimmed.
pub open spec fn line_title(s: Seq<char>, ls: int, le: int) -> Option<(int, int)> {
    let a = first_non_ws_from(s, ls, le);
    if a >= le {
        None
    } else {
        let b = trim_end(s, ls, le);
        let h = hash_count(s, a, b);
        if 1 <= h <= 6 && a + h < b && s[a + h] == ' ' && first_non_ws_from(s, a + h, b) < b {
            Some((first_non_ws_from(s, a + h, b), trim_end(s, a + h, b)))
        } else {
            None
        }
    }
}

proof fn lemma_hash_count(s: Seq<char>, st: int, en: int, h: int)
    requires
        0 <= st,
        0 <= h,
        st + h <= en <= s.len(),
        forall|k: int| st <= k < st + h ==> #[trigger] s[k] == '#',
        st + h < en ==> s[st + h] != '#',
    ensures
        hash_count(s, st, en) == h,
    decreases h,
{
    if h > 0 {
        lemma_hash_count(s, st + 1, en, h - 1);
    }
}

/// A markdown heading is one to six `#` marks and a space before a title that is not blank:
/// on a line `ls..le` holding, after any indent, `h` marks, a space, and text ending in a
/// non-blank at `le`, the title runs from the text's first non-blank to `le` when `h` is at
/// most six, and the line is no heading when `h` is seven or more. Marks not followed by a
/// space (`#hashtag`) make no heading either.
pub proof fn law_heading_line(s: Seq<char>, ls: int, a: int, h: int, le: int)
    requires
        0 <= ls <= a,
        a + h < le <= s.len(),
        1 <= h,
        forall|k: int| ls <= k < a ==> is_ws(#[trigger] s[k]),
        forall|k: int| a <= k < a + h ==> #[trigger] s[k] == '#',
        s[a + h] != '#',
        !is_ws(s[le - 1]),
    ensures
        h <= 6 && s[a + h] == ' ' && le - 1 > a + h ==> line_title(s, ls, le) == Some(
            (first_non_ws_from(s, a + h, le), le),
        ),
        h > 6 ==> line_title(s, ls, le) is None,
        s[a + h] != ' ' ==> line_title(s, ls, le) is None,
{
    lemma_first_non_ws(s, ls, a, le);
    assert(trim_end(s, ls, le) == le);
    lemma_hash_count(s, a, le, h);
    assert(trim_end(s, a + h, le) == le);
    lemma_first_non_ws_bounds(s, a + h, le);
    if first_non_ws_from(s, a + h, le) == le {
        assert(is_ws(s[le - 1]));
    }
}

/// The title of the last heading line among the lines from `ls` that start at or before
/// `pos`, or `cur` when there is none.
pub open spec fn heading_upto(s: Seq<char>, ls: int, pos: int, cur: Option<(int, int)>) -> Option<(int, int)>
    decreases s.len() - ls,
{
    if ls < 0 || ls >= s.len() || ls > pos {
        cur
    } else {
        let le = line_end(s, ls);
        if le <= ls || le > s.len() {
            cur
        } else {
            heading_upto(s, le, pos, match line_title(s, ls, le) {
                Some(t) => Some(t),
                None => cur,
            })
        }
    }
}

/// The heading in force at `pos`: the title of the nearest markdown heading line at or above it.
pub open spec fn heading_in_force(s: Seq<char>, pos: int) -> Option<(int, int)> {
    heading_upto(s, 0, pos, None)
}

/// A heading range as integers.
pub open spec fn heading_view(h: Option<(usize, usize)>) -> Option<(int, int)> {
    match h {
        Some((a, b)) => Some((a as int, b as int)),
        None => None,
    }
}

/// Every position of the span sits under the span's heading.
pub open spec fn span_headed(s: Seq<char>, sp: Span) -> bool {
    forall|pos: int| sp.start <= pos < sp.end ==> #[trigger] heading_in_force(s, pos) == heading_view(sp.heading)
}

proof fn lemma_line_end_step(s: Seq<char>, i: int)
    requires
        0 <= i < s.len(),
    ensures
        line_end(s, i) > i,
        line_end(s, i) <= s.len(),
    decreases s.len() - i,
{
    if s[i] != '\n' {
        lemma_line_end_step_le(s, i + 1);
    }
}

proof fn lemma_line_end_step_le(s: Seq<char>, i: int)
    requires
        0 <= i,
    ensures
        i <= s.len() ==> i <= line_end(s, i) <= s.len(),
    decreases s.len() - i,
{
    if i < s.len() && s[i] != '\n' {
        lemma_line_end_step_le(s, i + 1);
    }
}

/// With whitespace only in `lo..x` and a non-blank at `x`, the first non-blank is `x`.
proof fn lemma_first_non_ws(s: Seq<char>, lo: int, x: int, hi: int)
    requires
        lo <= x <= hi,
        all_ws(s, lo, x),
        x < hi ==> !is_ws(s[x]),
    ensures
        first_non_ws_from(s, lo, hi) == x,
    decreases x - lo,
{
    if lo < x {
        lemma_first_non_ws(s, lo + 1, x, hi);
    }
}

/// With whitespace only in `y..hi` and a non-blank before `y`, trimming the end gives `y`.
proof fn lemma_trim_end(s: Seq<char>, lo: int, y: int, hi: int)
    requires
        lo <= y <= hi,
        all_ws(s, y, hi),
        y > lo ==> !is_ws(s[y - 1]),
    ensures
        trim_end(s, lo, hi) == y,
    decreases hi - y,
{
    if y < hi {
        lemma_trim_end(s, lo, y, hi - 1);
    }
}

/// Where the cut into blocks stands after some lines: the blocks closed so far, the heading in
/// force, and the paragraph still open.
pub struct BlockState {
    pub out: Seq<Span>,
    pub heading: Option<(usize, usize)>,
    pub open: Option<Span>,
}

/// The closed blocks with the open paragraph closed too.
pub open spec fn close_open(out: Seq<Span>, open: Option<Span>) -> Seq<Span> {
    match open {
        Some(b) => out.push(b),
        None => out,
    }
}

/// One line `ls..le` taken into the cut: a blank line closes the open paragraph; a markdown
/// heading closes it, becomes a block of its own and the heading in force; any other line
/// extends the open paragraph, or opens one under the heading in force.
pub open spec fn block_line(s: Seq<char>, ls: int, le: int, st: BlockState) -> BlockState {
    let a = first_non_ws_from(s, ls, le);
    if a >= le {
        BlockState { out: close_open(st.out, st.open), heading: st.heading, open: None }
    } else {
        let b = trim_end(s, ls, le);
        match line_title(s, ls, le) {
            Some(t) => {
                let h = Some((t.0 as usize, t.1 as usize));
                BlockState {
                    out: close_open(st.out, st.open).push(Span { start: a as usize, end: b as usize, level: Level::Heading, heading: h }),
                    heading: h,
                    open: None,
                }
            },
            None => BlockState {
                out: st.out,
                heading: st.heading,
                open: Some(match st.open {
                    Some(o) => Span { start: o.start, end: b as usize, level: o.level, heading: o.heading },
                    None => Span { start: a as usize, end: b as usize, level: Level::Paragraph, heading: st.heading },
                }),
            },
        }
    }
}

/// The blocks of the lines from `ls` on, after the cut so far `st`.
pub open spec fn blocks_from(s: Seq<char>, ls: int, st: BlockState) -> Seq<Span>
    decreases s.len() - ls,
{
    if ls < 0 || ls >= s.len() {
        close_open(st.out, st.open)
    } else {
        let le = line_end(s, ls);
        if le <= ls || le > s.len() {
            close_open(st.out, st.open)
        } else {
            blocks_from(s, le, block_line(s, ls, le, st))
        }
    }
}

/// The blocks of a text: each markdown heading line, and each run of consecutive non-blank
/// lines, trimmed.
pub open spec fn blocks_of(s: Seq<char>) -> Seq<Span> {
    blocks_from(s, 0, BlockState { out: Seq::empty(), heading: None, open: None })
}

/// Blocks: a markdown heading line, or a run of consecutive non-blank lines.
fn blocks(s: &Vec<char>) -> (out: Vec<Span>)
    ensures
        spans_wf(s@, out@, 0, s.len() as int),
        spans_cover(s@, out@, 0, s.len() as int),
        forall|q: int| 0 <= q < out@.len() ==> span_headed(s@, #[trigger] out@[q]),
        out@ == blocks_of(s@),
{
    let len = s.len();
    let mut out: Vec<Span> = Vec::new();
    let mut heading: Option<(usize, usize)> = None;
    let mut open: Option<Span> = None;
    let mut ls: usize = 0;
    let ghost mut last_ls: int = 0;
    while ls < len
        invariant
            len == s.len(),
            ls <= len,
            0 <= last_ls <= ls,
            forall|pos: int| pos >= ls ==> #[trigger] heading_in_force(s@, pos) == heading_upto(s@, ls as int, pos, heading_view(heading)),
            forall|pos: int| last_ls <= pos < ls ==> #[trigger] heading_in_force(s@, pos) == heading_view(heading),
            open matches Some(b) ==> b.heading == heading && b.end >= last_ls && span_headed(s@, b),
            forall|q: int| 0 <= q < out@.len() ==> span_headed(s@, #[trigger] out@[q]),
            blocks_from(s@, ls as int, BlockState { out: out@, heading, open }) == blocks_of(s@),
            spans_wf(s@, out@, 0, ls as int),
            heading matches Some(h) ==> h.0 <= h.1 <= len,
            open matches Some(b) ==> {
                &&& b.start < b.end <= ls
                &&& (b.heading matches Some(h) ==> h.0 <= h.1 <= len)
                &&& forall|i: int| 0 <= i < out.len() ==> #[trigger] out@[i].end <= b.start
            },
            forall|k: int|
                0 <= k < ls && !is_ws(#[trigger] s@[k]) ==> (exists|i: int|
                    0 <= i < out.len() && #[trigger] in_span(out@[i], k)) || (open matches Some(
                    b,
                ) && in_span(b, k)),
        decreases len - ls,
    {
        let mut le = ls;
        while le < len && s[le] != '\n'
            invariant
                ls <= le <= len,
                len == s.len(),
                line_end(s@, ls as int) == line_end(s@, le as int),
            decreases len - le,
        {
            le = le + 1;
        }
        if le < len {
            le = le + 1;
        }
        let ghost cur = heading_view(heading);
        let ghost title = line_title(s@, ls as int, le as int);
        let ghost next_state = block_line(s@, ls as int, le as int, BlockState { out: out@, heading, open });
        let ghost cur2 = match title {
            Some(x) => Some(x),
            None => cur,
        };
        proof {
            lemma_line_end_step(s@, ls as int);
            assert(le == line_end(s@, ls as int));
            assert forall|pos: int| pos >= ls implies #[trigger] heading_upto(s@, ls as int, pos, cur) == heading_upto(s@, le as int, pos, cur2) by {
            }
            assert forall|pos: int| pos >= ls implies #[trigger] heading_in_force(s@, pos) == heading_upto(s@, le as int, pos, cur2) by {
                assert(heading_upto(s@, ls as int, pos, cur) == heading_upto(s@, le as int, pos, cur2));
            }
            assert forall|pos: int| ls <= pos < le implies #[trigger] heading_in_force(s@, pos) == cur2 by {
                assert(heading_upto(s@, ls as int, pos, cur) == heading_upto(s@, le as int, pos, cur2));
            }
        }
        let ghost old_out = out@;
        let ghost old_open = open;
        match trimmed_range(s, ls, le) {
            None => {
                proof {
                    lemma_first_non_ws(s@, ls as int, le as int, le as int);
                    assert(title is None);
                }
                if let Some(b) = open {
                    proof {
                        lemma_push_span(s@, out@, b, 0, ls as int, le as int);
                    }
                    out.push(b);
                    open = None;
                    assert forall|k: int|
                        0 <= k < le && !is_ws(#[trigger] s@[k]) implies (exists|i: int|
                        0 <= i < out.len() && #[trigger] in_span(out@[i], k)) by {
                        if k < ls {
                            if in_span(b, k) {
                                assert(in_span(out@[out.len() - 1], k));
                            } else {
                                let i = choose|i: int| 0 <= i < old_out.len() && #[trigger] in_span(old_out[i], k);
                                assert(in_span(out@[i], k));
                            }
                        }
                    }
                } else {
                    proof {
                        lemma_widen_spans(s@, out@, 0, ls as int, le as int);
                    }
                    assert forall|k: int|
                        0 <= k < le && !is_ws(#[trigger] s@[k]) implies (exists|i: int|
                        0 <= i < out.len() && #[trigger] in_span(out@[i], k)) by {
                        if k < ls {
                        }
                    }
                }
            },
            Some((st, en)) => {
                proof {
                    lemma_first_non_ws(s@, ls as int, st as int, le as int);
                    lemma_trim_end(s@, ls as int, en as int, le as int);
                }
                let hd = markdown_heading(s, st, en);
                proof {
                    let h = hash_count(s@, st as int, en as int);
                    match hd {
                        Some((x, y)) => {
                            lemma_first_non_ws(s@, st + h, x as int, en as int);
                            lemma_trim_end(s@, st + h, y as int, en as int);
                            assert(title == Some((x as int, y as int)));
                        },
                        None => {
                            if h >= 1 && h <= 6 && st + h < en && s@[st + h] == ' ' {
                                lemma_first_non_ws(s@, st + h, en as int, en as int);
                            }
                            assert(title is None);
                        },
                    }
                }
                match hd {
                    Some(title) => {
                        if let Some(b) = open {
                            proof {
                                lemma_push_span(s@, out@, b, 0, ls as int, ls as int);
                            }
                            out.push(b);
                            open = None;
                        }
                        let ghost mid = out@;
                        proof {
                            lemma_spans_end_le(s@, out@, 0, ls as int);
                            lemma_push_span(s@, out@, Span { start: st, end: en, level: Level::Heading, heading: Some(title) }, 0, ls as int, le as int);
                        }
                        heading = Some(title);
                        out.push(Span { start: st, end: en, level: Level::Heading, heading });
                        assert forall|k: int|
                            0 <= k < le && !is_ws(#[trigger] s@[k]) implies (exists|i: int|
                            0 <= i < out.len() && #[trigger] in_span(out@[i], k)) by {
                            if k < ls {
                                if old_open matches Some(b) && in_span(b, k) {
                                    assert(in_span(out@[mid.len() - 1], k));
                                } else {
                                    let i = choose|i: int|
                                        0 <= i < old_out.len() && #[trigger] in_span(old_out[i], k);
                                    assert(in_span(out@[i], k));
                                }
                            } else {
                                assert(in_span(out@[out.len() - 1], k));
                            }
                        }
                    },
                    None => {
                        match open {
                            Some(b) => {
                                open = Some(
                                    Span { start: b.start, end: en, level: b.level, heading: b.heading },
                                );
                            },
                            None => {
                                proof {
                                    lemma_spans_end_le(s@, out@, 0, ls as int);
                                }
                                open = Some(
                                    Span { start: st, end: en, level: Level::Paragraph, heading },
                                );
                            },
                        }
                        let nb = open.unwrap();
                        proof {
                            lemma_widen_spans(s@, out@, 0, ls as int, le as int);
                        }
                        assert forall|k: int|
                            0 <= k < le && !is_ws(#[trigger] s@[k]) implies (exists|i: int|
                            0 <= i < out.len() && #[trigger] in_span(out@[i], k)) || in_span(
                            nb,
                            k,
                        ) by {
                            if k < ls {
                                if old_open matches Some(b) && in_span(b, k) {
                                    assert(in_span(nb, k));
                                }
                            }
                        }
                    },
                }
            },
        }
        proof {
            last_ls = ls as int;
            assert(BlockState { out: out@, heading, open } == next_state);
        }
        ls = le;
    }
    if let Some(b) = open {
        let ghost old_out = out@;
        proof {
            lemma_push_span(s@, out@, b, 0, ls as int, len as int);
        }
        out.push(b);
        assert forall|k: int|
            0 <= k < len && !is_ws(#[trigger] s@[k]) implies exists|i: int|
                0 <= i < out.len() && #[trigger] in_span(out@[i], k) by {
            if in_span(b, k) {
                assert(in_span(out@[out.len() - 1], k));
            } else {
                let i = choose|i: int| 0 <= i < old_out.len() && #[trigger] in_span(old_out[i], k);
                assert(in_span(out@[i], k));
            }
        }
    }
    out
}

proof fn lemma_push_pair(v: Seq<(usize, usize)>, p: (usize, usize), lo: int, hi: int, hi2: int)
    requires
        pairs_wf(v, lo, hi),
        lo <= hi <= p.0,
        p.0 < p.1 <= hi2,
    ensures
        pairs_wf(v.push(p), lo, hi2),
        forall|i: int| 0 <= i < v.len() ==> #[trigger] v.push(p)[i] == v[i],
{
    let w = v.push(p);
    assert forall|i: int| 0 <= i < v.len() implies #[trigger] v[i].1 <= hi by {
        assert(lo <= v[i].0 < v[i].1 <= hi);
    }
    assert forall|i: int, j: int| 0 <= i < j < w.len() implies #[trigger] w[i].1 <= #[trigger] w[j].0 by {
        if j == v.len() {
            assert(w[i] == v[i]);
        } else {
            assert(w[i] == v[i] && w[j] == v[j]);
        }
    }
    assert forall|i: int| 0 <= i < w.len() implies lo <= #[trigger] w[i].0 < w[i].1 <= hi2 by {
        if i < v.len() {
            assert(w[i] == v[i]);
        }
    }
}

/// Pushes the trimmed part of `a..b` (if any) and keeps the invariants of a left-to-right cut.
fn push_trimmed(s: &Vec<char>, out: &mut Vec<(usize, usize)>, lo: usize, a: usize, b: usize)
    requires
        lo <= a <= b <= s.len(),
        pairs_wf(old(out)@, lo as int, a as int),
        pairs_cover(s@, old(out)@, lo as int, a as int),
    ensures
        pairs_wf(final(out)@, lo as int, b as int),
        pairs_cover(s@, final(out)@, lo as int, b as int),
        old(out)@.len() <= final(out)@.len(),
        forall|i: int| 0 <= i < old(out)@.len() ==> #[trigger] final(out)@[i] == old(out)@[i],
        forall|i: int| old(out)@.len() <= i < final(out)@.len() ==> a <= #[trigger] final(out)@[i].0 && final(out)@[i].1 <= b,
        final(out)@ == push_trim(old(out)@, s@, a as int, b as int),
{
    let ghost before = out@;
    match trimmed_range(s, a, b) {
        Some(range) => {
            proof {
                lemma_push_pair(out@, range, lo as int, a as int, b as int);
            }
            out.push(range);
            assert forall|k: int|
                lo <= k < b && !is_ws(#[trigger] s@[k]) implies exists|i: int|
                    0 <= i < out.len() && #[trigger] in_pair(out@[i], k) by {
                if k < a {
                    let i = choose|i: int| 0 <= i < before.len() && #[trigger] in_pair(before[i], k);
                    assert(in_pair(out@[i], k));
                } else {
                    assert(in_pair(out@[out.len() - 1], k));
                }
            }
        },
        None => {
            assert forall|k: int|
                lo <= k < b && !is_ws(#[trigger] s@[k]) implies exists|i: int|
                    0 <= i < out.len() && #[trigger] in_pair(out@[i], k) by {
                if k >= a {
                    assert(is_ws(s@[k]));
                }
            }
            assert forall|i: int| 0 <= i < out.len() implies lo <= #[trigger] out@[i].0 < out@[i].1 <= b by {
                assert(lo <= out@[i].0 < out@[i].1 <= a);
            }
        },
    }
}

/// A sentence mark: `.` `!` `?` `…` `;`.
pub open spec fn sentence_mark(c: char) -> bool {
    c == '.' || c == '!' || c == '?' || c == '\u{2026}' || c == ';'
}

/// Does a sentence end just after position `p` of `..end`: a mark followed by whitespace.
pub open spec fn ends_sentence(s: Seq<char>, p: int, end: int) -> bool {
    sentence_mark(s[p]) && p + 1 < end && is_ws(s[p + 1])
}

/// The sentences of `open..end`, scanning on from `p`, added to `acc`: each cut sits just
/// after a mark followed by whitespace, and each piece is trimmed.
pub open spec fn sentences_from(s: Seq<char>, p: int, end: int, open: int, acc: Seq<(usize, usize)>) -> Seq<(usize, usize)>
    decreases end - p,
{
    if p >= end {
        push_trim(acc, s, open, end)
    } else if ends_sentence(s, p, end) {
        sentences_from(s, p + 1, end, p + 1, push_trim(acc, s, open, p + 1))
    } else {
        sentences_from(s, p + 1, end, open, acc)
    }
}

/// The sentences of `start..end`.
pub open spec fn sentence_pieces(s: Seq<char>, start: int, end: int) -> Seq<(usize, usize)> {
    sentences_from(s, start, end, start, Seq::empty())
}

/// Sentences of a block: a terminator followed by whitespace ends one, so `3.14` and
/// `example.com` stay whole.
fn sentences(s: &Vec<char>, start: usize, end: usize) -> (out: Vec<(usize, usize)>)
    requires
        start <= end <= s.len(),
    ensures
        pairs_wf(out@, start as int, end as int),
        pairs_cover(s@, out@, start as int, end as int),
        out@ == sentence_pieces(s@, start as int, end as int),
{
    let mut out: Vec<(usize, usize)> = Vec::new();
    let mut open = start;
    let mut p = start;
    while p < end
        invariant
            start <= open <= p <= end <= s.len(),
            pairs_wf(out@, start as int, open as int),
            pairs_cover(s@, out@, start as int, open as int),
            sentences_from(s@, p as int, end as int, open as int, out@) == sentence_pieces(s@, start as int, end as int),
        decreases end - p,
    {
        let ch = s[p];
        if (ch == '.' || ch == '!' || ch == '?' || ch == '\u{2026}' || ch == ';') && p + 1 < end
            && is_whitespace(s[p + 1]) {
            let cut = p + 1;
            push_trimmed(s, &mut out, start, open, cut);
            open = cut;
        }
        p = p + 1;
    }
    push_trimmed(s, &mut out, start, open, end);
    out
}

proof fn lemma_trim_end_bounds(s: Seq<char>, lo: int, hi: int, k: int)
    requires
        lo <= k < hi,
        !is_ws(s[k]),
    ensures
        k < trim_end(s, lo, hi) <= hi,
        !is_ws(s[hi - 1]) ==> trim_end(s, lo, hi) == hi,
    decreases hi - lo,
{
    if is_ws(s[hi - 1]) {
        lemma_trim_end_bounds(s, lo, hi - 1, k);
    }
}

/// `c` closes a sentence: `.`, `!`, `?`, `…` or `;`.
pub open spec fn closes_sentence(c: char) -> bool {
    ||| c == '.'
    ||| c == '!'
    ||| c == '?'
    ||| c == '\u{2026}'
    ||| c == ';'
}

/// The pieces cut so far from `start..open` are the sentences of a block: in order, inside the
/// block, each ending just after a closing mark that whitespace follows, with no such mark
/// inside.
spec fn sentence_acc(s: Seq<char>, start: int, open: int, end: int, acc: Seq<(usize, usize)>) -> bool {
    &&& forall|i: int| 0 <= i < acc.len() ==> start <= (#[trigger] acc[i]).0 < acc[i].1 <= open
    &&& forall|i: int| 0 <= i < acc.len() ==> closes_sentence(s[(#[trigger] acc[i]).1 - 1]) && acc[i].1 < end
        && is_ws(s[acc[i].1 as int])
    &&& forall|i: int, q: int|
        0 <= i < acc.len() && (#[trigger] acc[i]).0 <= q && q + 1 < acc[i].1 ==> !(closes_sentence(#[trigger] s[q])
            && is_ws(s[q + 1]))
}

/// What a cut into sentences must satisfy (see `law_sentence_cuts`).
spec fn sentences_ok(s: Seq<char>, start: int, end: int, r: Seq<(usize, usize)>) -> bool {
    &&& forall|i: int| 0 <= i < r.len() ==> start <= (#[trigger] r[i]).0 < r[i].1 <= end
    &&& forall|i: int| 0 <= i < r.len() - 1 ==> closes_sentence(s[(#[trigger] r[i]).1 - 1])
        && is_ws(s[r[i].1 as int])
    &&& forall|i: int, q: int|
        0 <= i < r.len() && (#[trigger] r[i]).0 <= q && q + 1 < r[i].1 ==> !(closes_sentence(#[trigger] s[q])
            && is_ws(s[q + 1]))
}

proof fn lemma_sentences_from(s: Seq<char>, start: int, p: int, end: int, open: int, acc: Seq<(usize, usize)>)
    requires
        0 <= start <= open <= p <= end <= s.len(),
        end <= usize::MAX,
        sentence_acc(s, start, open, end, acc),
        forall|q: int| open <= q < p ==> !#[trigger] ends_sentence(s, q, end),
    ensures
        sentences_ok(s, start, end, sentences_from(s, p, end, open, acc)),
    decreases end - p,
{
    if p >= end {
        let r = push_trim(acc, s, open, end);
        assert(sentences_from(s, p, end, open, acc) == r);
        let x = first_non_ws_from(s, open, end);
        if x < end {
            lemma_first_non_ws_bounds(s, open, end);
            lemma_trim_end_bounds(s, open, end, x);
            let y = trim_end(s, open, end);
            assert(r == acc.push((x as usize, y as usize)));
            assert forall|i: int, q: int|
                0 <= i < r.len() && (#[trigger] r[i]).0 <= q && q + 1 < r[i].1 implies !(closes_sentence(#[trigger] s[q])
                    && is_ws(s[q + 1])) by {
                if i == acc.len() {
                    assert(!ends_sentence(s, q, end));
                } else {
                    assert(r[i] == acc[i]);
                }
            }
            assert forall|i: int| 0 <= i < r.len() implies start <= (#[trigger] r[i]).0 < r[i].1 <= end by {
                if i < acc.len() {
                    assert(r[i] == acc[i]);
                }
            }
            assert forall|i: int| 0 <= i < r.len() - 1 implies closes_sentence(s[(#[trigger] r[i]).1 - 1])
                && is_ws(s[r[i].1 as int]) by {
                assert(r[i] == acc[i]);
            }
            assert(sentences_ok(s, start, end, r));
        } else {
            assert(r == acc);
            assert(sentences_ok(s, start, end, r));
        }
    } else if ends_sentence(s, p, end) {
        let acc2 = push_trim(acc, s, open, p + 1);
        assert(!is_ws(s[p]));
        lemma_trim_end_bounds(s, open, p + 1, p);
        lemma_first_non_ws_bounds(s, open, p + 1);
        let x = first_non_ws_from(s, open, p + 1);
        assert(x <= p);
        assert(acc2 == acc.push((x as usize, (p + 1) as usize)));
        assert forall|i: int, q: int|
            0 <= i < acc2.len() && (#[trigger] acc2[i]).0 <= q && q + 1 < acc2[i].1 implies !(closes_sentence(#[trigger] s[q])
                && is_ws(s[q + 1])) by {
            if i == acc.len() {
                assert(!ends_sentence(s, q, end));
            } else {
                assert(acc2[i] == acc[i]);
            }
        }
        assert(sentence_acc(s, start, p + 1, end, acc2));
        lemma_sentences_from(s, start, p + 1, end, p + 1, acc2);
    } else {
        lemma_sentences_from(s, start, p + 1, end, open, acc);
    }
}

/// How a block is cut into sentences: the pieces lie inside the block in order; every piece but
/// the last ends just after a `.`, `!`, `?`, `…` or `;` that whitespace follows; and no piece
/// holds such a mark followed by whitespace inside it, so `3.14` and `example.com` stay whole.
pub proof fn law_sentence_cuts(s: Seq<char>, start: int, end: int)
    requires
        0 <= start <= end <= s.len(),
        end <= usize::MAX,
    ensures
        ({
            let r = sentence_pieces(s, start, end);
            &&& forall|i: int| 0 <= i < r.len() ==> start <= (#[trigger] r[i]).0 < r[i].1 <= end
            &&& forall|i: int| 0 <= i < r.len() - 1 ==> closes_sentence(s[(#[trigger] r[i]).1 - 1])
                && is_ws(s[r[i].1 as int])
            &&& forall|i: int, q: int|
                0 <= i < r.len() && (#[trigger] r[i]).0 <= q && q + 1 < r[i].1 ==> !(closes_sentence(#[trigger] s[q])
                    && is_ws(s[q + 1]))
        }),
{
    lemma_sentences_from(s, start, start, end, start, Seq::empty());
}

/// Three quarters of `target`, rounded down, without overflowing.
fn three_quarters(target: usize) -> (r: usize)
    ensures
        r == target * 3 / 4,
{
    let q = target / 4;
    let m = target % 4;
    proof {
        assert(target == 4 * q + m);
        assert(target * 3 / 4 == 3 * q + m * 3 / 4) by (nonlinear_arith)
            requires
                target == 4 * q + m,
                0 <= m < 4,
        ;
    }
    q * 3 + m * 3 / 4
}

/// The last whitespace in `lo..=hi`, if any.
pub open spec fn last_ws(s: Seq<char>, lo: int, hi: int) -> Option<int>
    decreases hi - lo + 1,
{
    if hi < lo {
        None
    } else if is_ws(s[hi]) {
        Some(hi)
    } else {
        last_ws(s, lo, hi - 1)
    }
}

proof fn lemma_last_ws_range(s: Seq<char>, lo: int, hi: int)
    ensures
        last_ws(s, lo, hi) matches Some(x) ==> lo <= x <= hi,
    decreases hi - lo + 1,
{
    if hi >= lo && !is_ws(s[hi]) {
        lemma_last_ws_range(s, lo, hi - 1);
    }
}

/// Where a hard cut from `open` falls: the end when the rest fits the target, else the last
/// whitespace in the last quarter of the target's reach, else exactly `target` on; a cut that
/// would not move forward goes to the end.
pub open spec fn hard_cut(s: Seq<char>, open: int, end: int, target: int) -> int {
    let cut = if end - open <= target {
        end
    } else {
        match last_ws(s, open + target * 3 / 4, open + target) {
            Some(x) => x,
            None => open + target,
        }
    };
    if cut <= open {
        end
    } else {
        cut
    }
}

proof fn lemma_last_ws(s: Seq<char>, lo: int, hi: int)
    requires
        0 <= lo,
        hi < s.len(),
    ensures
        match last_ws(s, lo, hi) {
            Some(x) => lo <= x <= hi && is_ws(s[x]) && forall|k: int| x < k <= hi ==> !is_ws(#[trigger] s[k]),
            None => forall|k: int| lo <= k <= hi ==> !is_ws(#[trigger] s[k]),
        },
    decreases hi - lo + 1,
{
    if hi >= lo && !is_ws(s[hi]) {
        lemma_last_ws(s, lo, hi - 1);
    }
}

/// Where a piece too long for the target is cut: within the target's reach, at the last
/// whitespace of its last quarter, or right at the target when that quarter has none; a
/// rest that fits the target is not cut at all.
pub proof fn law_hard_cut(s: Seq<char>, open: int, end: int, target: int)
    requires
        0 <= open < end <= s.len(),
        2 <= target,
    ensures
        end - open <= target ==> hard_cut(s, open, end, target) == end,
        end - open > target ==> {
            let c = hard_cut(s, open, end, target);
            let q = open + target * 3 / 4;
            &&& open < c <= open + target
            &&& (q <= c && is_ws(s[c]) && forall|k: int| c < k <= open + target ==> !is_ws(#[trigger] s[k]))
                || (c == open + target && forall|k: int| q <= k <= open + target ==> !is_ws(#[trigger] s[k]))
        },
{
    if end - open > target {
        lemma_last_ws(s, open + target * 3 / 4, open + target);
        assert(target * 3 / 4 >= 1);
    }
}

/// The hard pieces of `open..end`, added to `acc`, each trimmed.
pub open spec fn hard_from(s: Seq<char>, open: int, end: int, target: int, acc: Seq<(usize, usize)>) -> Seq<(usize, usize)>
    decreases end - open,
{
    if open >= end {
        acc
    } else {
        let cut = hard_cut(s, open, end, target);
        if cut <= open || cut > end {
            acc
        } else {
            hard_from(s, cut, end, target, push_trim(acc, s, open, cut))
        }
    }
}

/// The hard pieces of `start..end`.
pub open spec fn hard_pieces(s: Seq<char>, start: int, end: int, target: int) -> Seq<(usize, usize)> {
    hard_from(s, start, end, target, Seq::empty())
}

/// A hard cut every `target` characters, sliding back to a space found in the last quarter.
fn hard_split(s: &Vec<char>, start: usize, end: usize, target: usize) -> (out: Vec<(usize, usize)>)
    requires
        start <= end <= s.len(),
    ensures
        pairs_wf(out@, start as int, end as int),
        pairs_cover(s@, out@, start as int, end as int),
        target >= 2 ==> forall|i: int| 0 <= i < out@.len() ==> #[trigger] out@[i].1 - out@[i].0 <= target,
        out@ == hard_pieces(s@, start as int, end as int, target as int),
{
    let t34 = three_quarters(target);
    let mut out: Vec<(usize, usize)> = Vec::new();
    let mut open = start;
    while open < end
        invariant
            start <= open <= end <= s.len(),
            pairs_wf(out@, start as int, open as int),
            pairs_cover(s@, out@, start as int, open as int),
            t34 == target * 3 / 4,
            target >= 2 ==> forall|i: int| 0 <= i < out@.len() ==> #[trigger] out@[i].1 - out@[i].0 <= target,
            hard_from(s@, open as int, end as int, target as int, out@) == hard_pieces(s@, start as int, end as int, target as int),
        decreases end - open,
    {
        let mut cut = end;
        let mut last_space: Option<usize> = None;
        let mut count: usize = 0;
        let mut found = false;
        while !found && count < end - open
            invariant
                start <= open < end <= s.len(),
                open <= cut <= end,
                last_space matches Some(x) ==> open + t34 <= x <= open + count && x < end,
                count <= end - open,
                !found ==> cut == end && count <= target,
                found ==> count == target && cut <= open + target,
                found && target >= 2 ==> cut > open,
                t34 == target * 3 / 4,
                !found ==> last_space == (match last_ws(s@, open + t34, open + count - 1) {
                    Some(x) => Some(x as usize),
                    None => None::<usize>,
                }),
                found ==> cut == (match last_ws(s@, open + t34, open + target) {
                    Some(x) => x,
                    None => open + target,
                }),
                !found ==> count < end - open || cut == end,
                found ==> target < end - open,
            decreases end - open - count + (if found { 0int } else { 1int }),
        {
            let ghost before = last_space;
            if is_whitespace(s[open + count]) && count >= t34 {
                last_space = Some(open + count);
            }
            proof {
                let lo = open + t34;
                let hi = open + count;
                lemma_last_ws_range(s@, lo, hi);
                lemma_last_ws_range(s@, lo, hi - 1);
                assert(last_space == (match last_ws(s@, lo, hi) {
                    Some(x) => Some(x as usize),
                    None => None::<usize>,
                }));
            }
            if count == target {
                cut = match last_space {
                    Some(x) => x,
                    None => open + count,
                };
                found = true;
            } else {
                count = count + 1;
            }
        }
        proof {
            if target >= 2 {
                assert(target * 3 / 4 >= 1) by (nonlinear_arith)
                    requires
                        target >= 2,
                ;
            }
        }
        proof {
            if !found {
                assert(count >= end - open);
                assert(end - open <= target);
            } else {
                assert(end - open > target);
            }
            assert(cut as int == (if end - open <= target {
                end as int
            } else {
                match last_ws(s@, open + target * 3 / 4, open + target) {
                    Some(x) => x,
                    None => open + target,
                }
            }));
        }
        if cut <= open {
            cut = end;
        }
        proof {
            assert(cut as int == hard_cut(s@, open as int, end as int, target as int));
            if target >= 2 {
                assert(cut - open <= target);
            }
        }
        let ghost before = out@;
        push_trimmed(s, &mut out, start, open, cut);
        proof {
            if target >= 2 {
                assert forall|i: int| 0 <= i < out@.len() implies #[trigger] out@[i].1 - out@[i].0 <= target by {
                    if i < before.len() {
                        assert(out@[i] == before[i]);
                    }
                }
            }
        }
        open = cut;
    }
    out
}

pub open spec fn span_covered(v: Seq<Span>, k: int) -> bool {
    exists|i: int| 0 <= i < v.len() && #[trigger] in_span(v[i], k)
}

proof fn lemma_span_covered_push(v: Seq<Span>, x: Span, k: int)
    requires
        span_covered(v, k),
    ensures
        span_covered(v.push(x), k),
{
    let i = choose|i: int| 0 <= i < v.len() && #[trigger] in_span(v[i], k);
    assert(v.push(x)[i] == v[i]);
    assert(in_span(v.push(x)[i], k));
}

/// A hard piece as a unit under heading `h`.
pub open spec fn hard_unit(h: Option<(usize, usize)>) -> spec_fn((usize, usize)) -> Span {
    |c: (usize, usize)| Span { start: c.0, end: c.1, level: Level::Hard, heading: h }
}

/// `acc` with the units of one sentence piece: the sentence itself when it fits the target,
/// else its hard pieces.
pub open spec fn piece_into(s: Seq<char>, p: (usize, usize), target: usize, h: Option<(usize, usize)>, acc: Seq<Span>) -> Seq<Span> {
    if p.1 - p.0 <= target {
        acc.push(Span { start: p.0, end: p.1, level: Level::Sentence, heading: h })
    } else {
        acc + hard_pieces(s, p.0 as int, p.1 as int, target as int).map_values(hard_unit(h))
    }
}

/// `acc` with the units of the sentence pieces from `i` on.
pub open spec fn pieces_into(s: Seq<char>, ps: Seq<(usize, usize)>, i: int, target: usize, h: Option<(usize, usize)>, acc: Seq<Span>) -> Seq<Span>
    decreases ps.len() - i,
{
    if i < 0 || i >= ps.len() {
        acc
    } else {
        pieces_into(s, ps, i + 1, target, h, piece_into(s, ps[i], target, h, acc))
    }
}

/// `acc` with the units of one block: the block itself when it fits the target, else the
/// units of its sentences.
pub open spec fn block_into(s: Seq<char>, blk: Span, target: usize, acc: Seq<Span>) -> Seq<Span> {
    if blk.end - blk.start <= target {
        acc.push(blk)
    } else {
        pieces_into(s, sentence_pieces(s, blk.start as int, blk.end as int), 0, target, blk.heading, acc)
    }
}

/// `acc` with the units of the blocks from `b` on.
pub open spec fn units_from(s: Seq<char>, bl: Seq<Span>, b: int, target: usize, acc: Seq<Span>) -> Seq<Span>
    decreases bl.len() - b,
{
    if b < 0 || b >= bl.len() {
        acc
    } else {
        units_from(s, bl, b + 1, target, block_into(s, bl[b], target, acc))
    }
}

/// The units of a text: its blocks; a block longer than the target falls back to its
/// sentences, and a sentence longer than the target to hard pieces.
pub open spec fn units_of(s: Seq<char>, target: usize) -> Seq<Span> {
    units_from(s, blocks_of(s), 0, target, Seq::empty())
}

/// Units: the pieces the packer never splits. A block that fits is one unit; a longer one
/// falls back to sentences, and a sentence longer than a chunk to hard cuts.
fn split_units(s: &Vec<char>, blocks: &Vec<Span>, target: usize) -> (out: Vec<Span>)
    requires
        spans_wf(s@, blocks@, 0, s.len() as int),
        spans_cover(s@, blocks@, 0, s.len() as int),
        forall|q: int| 0 <= q < blocks@.len() ==> span_headed(s@, #[trigger] blocks@[q]),
    ensures
        forall|q: int| 0 <= q < out@.len() ==> span_headed(s@, #[trigger] out@[q]),
        spans_wf(s@, out@, 0, s.len() as int),
        spans_cover(s@, out@, 0, s.len() as int),
        target >= 2 ==> forall|q: int| 0 <= q < out@.len() ==> #[trigger] out@[q].end - out@[q].start <= target,
        out@ == units_from(s@, blocks@, 0, target, Seq::empty()),
{
    let len = s.len();
    let mut out: Vec<Span> = Vec::new();
    let mut b: usize = 0;
    let mut bound: usize = 0;
    while b < blocks.len()
        invariant
            len == s.len(),
            spans_wf(s@, blocks@, 0, len as int),
            b <= blocks.len(),
            bound <= len,
            b < blocks.len() ==> bound <= blocks@[b as int].start,
            spans_wf(s@, out@, 0, bound as int),
            forall|q: int| 0 <= q < blocks@.len() ==> span_headed(s@, #[trigger] blocks@[q]),
            forall|q: int| 0 <= q < out@.len() ==> span_headed(s@, #[trigger] out@[q]),
            target >= 2 ==> forall|q: int| 0 <= q < out@.len() ==> #[trigger] out@[q].end - out@[q].start <= target,
            forall|k: int|
                0 <= k < len && !is_ws(#[trigger] s@[k]) && (exists|j: int|
                    0 <= j < b && #[trigger] in_span(blocks@[j], k)) ==> span_covered(out@, k),
            units_from(s@, blocks@, b as int, target, out@) == units_from(s@, blocks@, 0, target, Seq::empty()),
        decreases blocks.len() - b,
    {
        let block = blocks[b];
        proof {
            lemma_widen_spans(s@, out@, 0, bound as int, block.start as int);
            lemma_spans_end_le(s@, out@, 0, block.start as int);
        }
        let ghost before = out@;
        if block.end - block.start <= target {
            proof {
                lemma_push_span(s@, out@, block, 0, block.start as int, block.end as int);
            }
            out.push(block);
            assert forall|k: int|
                0 <= k < len && !is_ws(#[trigger] s@[k]) && (exists|j: int|
                    0 <= j < b + 1 && #[trigger] in_span(blocks@[j], k)) implies span_covered(out@, k) by {
                if in_span(block, k) {
                    assert(in_span(out@[out.len() - 1], k));
                } else {
                    let j = choose|j: int| 0 <= j < b + 1 && #[trigger] in_span(blocks@[j], k);
                    assert(j < b);
                    lemma_span_covered_push(before, block, k);
                }
            }
        } else {
            let pieces = sentences(s, block.start, block.end);
            let mut i: usize = 0;
            let mut cur: usize = block.start;
            while i < pieces.len()
                invariant
                    len == s.len(),
                    block.start < block.end <= len,
                    block.heading matches Some(h) ==> h.0 <= h.1 <= len,
                    pairs_wf(pieces@, block.start as int, block.end as int),
                    i <= pieces.len(),
                    block.start <= cur <= block.end,
                    i < pieces.len() ==> cur <= pieces@[i as int].0,
                    spans_wf(s@, out@, 0, cur as int),
                    span_headed(s@, block),
                    b < blocks@.len(),
                    block == blocks@[b as int],
                    block.end - block.start > target,
                    pieces@ == sentence_pieces(s@, block.start as int, block.end as int),
                    units_from(s@, blocks@, b + 1, target, pieces_into(s@, pieces@, i as int, target, block.heading, out@))
                        == units_from(s@, blocks@, 0, target, Seq::empty()),
                    forall|q: int| 0 <= q < out@.len() ==> span_headed(s@, #[trigger] out@[q]),
                    target >= 2 ==> forall|q: int| 0 <= q < out@.len() ==> #[trigger] out@[q].end - out@[q].start <= target,
                    forall|k: int| 0 <= k < len && span_covered(before, k) ==> span_covered(out@, k),
                    forall|k: int|
                        0 <= k < len && !is_ws(#[trigger] s@[k]) && (exists|j: int|
                            0 <= j < i && #[trigger] in_pair(pieces@[j], k)) ==> span_covered(out@, k),
                decreases pieces.len() - i,
            {
                let (a, z) = pieces[i];
                proof {
                    lemma_widen_spans(s@, out@, 0, cur as int, a as int);
                    lemma_spans_end_le(s@, out@, 0, a as int);
                    assert(a < z);
                    if i + 1 < pieces.len() {
                        assert(pieces@[i as int].1 <= pieces@[i + 1].0);
                    }
                }
                let ghost mid = out@;
                if z - a <= target {
                    let sp = Span { start: a, end: z, level: Level::Sentence, heading: block.heading };
                    proof {
                        lemma_push_span(s@, out@, sp, 0, a as int, z as int);
                    }
                    out.push(sp);
                    assert forall|k: int| 0 <= k < len && span_covered(before, k) implies span_covered(out@, k) by {
                        lemma_span_covered_push(mid, sp, k);
                    }
                    assert forall|k: int|
                        0 <= k < len && !is_ws(#[trigger] s@[k]) && (exists|j: int|
                            0 <= j < i + 1 && #[trigger] in_pair(pieces@[j], k)) implies span_covered(out@, k) by {
                        if in_pair(pieces@[i as int], k) {
                            assert(in_span(out@[out.len() - 1], k));
                        } else {
                            lemma_span_covered_push(mid, sp, k);
                        }
                    }
                } else {
                    let cuts = hard_split(s, a, z, target);
                    assert(z - a > target);
                    let mut c: usize = 0;
                    let mut at: usize = a;
                    while c < cuts.len()
                        invariant
                            len == s.len(),
                            a < z <= len,
                            block.heading matches Some(h) ==> h.0 <= h.1 <= len,
                            pairs_wf(cuts@, a as int, z as int),
                            c <= cuts.len(),
                            a <= at <= z,
                            c < cuts.len() ==> at <= cuts@[c as int].0,
                            spans_wf(s@, out@, 0, at as int),
                            span_headed(s@, block),
                            i < pieces@.len(),
                            pieces@[i as int] == (a, z),
                            z - a > target,
                            cuts@ == hard_pieces(s@, a as int, z as int, target as int),
                            out@ == mid + cuts@.take(c as int).map_values(hard_unit(block.heading)),
                            block.start <= a,
                            z <= block.end,
                            forall|q: int| 0 <= q < out@.len() ==> span_headed(s@, #[trigger] out@[q]),
                            target >= 2 ==> forall|q: int| 0 <= q < out@.len() ==> #[trigger] out@[q].end - out@[q].start <= target,
                            target >= 2 ==> forall|q: int| 0 <= q < cuts@.len() ==> #[trigger] cuts@[q].1 - cuts@[q].0 <= target,
                            forall|k: int| 0 <= k < len && span_covered(mid, k) ==> span_covered(out@, k),
                            forall|k: int|
                                0 <= k < len && !is_ws(#[trigger] s@[k]) && (exists|j: int|
                                    0 <= j < c && #[trigger] in_pair(cuts@[j], k)) ==> span_covered(out@, k),
                        decreases cuts.len() - c,
                    {
                        let (x, y) = cuts[c];
                        proof {
                            lemma_widen_spans(s@, out@, 0, at as int, x as int);
                            lemma_spans_end_le(s@, out@, 0, x as int);
                            if c + 1 < cuts.len() {
                                assert(cuts@[c as int].1 <= cuts@[c + 1].0);
                            }
                        }
                        let ghost inner = out@;
                        let sp = Span { start: x, end: y, level: Level::Hard, heading: block.heading };
                        proof {
                            lemma_push_span(s@, out@, sp, 0, x as int, y as int);
                        }
                        out.push(sp);
                        assert forall|k: int| 0 <= k < len && span_covered(mid, k) implies span_covered(out@, k) by {
                            lemma_span_covered_push(inner, sp, k);
                        }
                        assert forall|k: int|
                            0 <= k < len && !is_ws(#[trigger] s@[k]) && (exists|j: int|
                                0 <= j < c + 1 && #[trigger] in_pair(cuts@[j], k)) implies span_covered(out@, k) by {
                            if in_pair(cuts@[c as int], k) {
                                assert(in_span(out@[out.len() - 1], k));
                            } else {
                                lemma_span_covered_push(inner, sp, k);
                            }
                        }
                        at = y;
                        c = c + 1;
                    }
                    assert forall|k: int|
                        0 <= k < len && !is_ws(#[trigger] s@[k]) && (exists|j: int|
                            0 <= j < i + 1 && #[trigger] in_pair(pieces@[j], k)) implies span_covered(out@, k) by {
                        if !in_pair(pieces@[i as int], k) {
                        } else {
                            assert(a <= k < z);
                        }
                    }
                    proof {
                        lemma_widen_spans(s@, out@, 0, at as int, z as int);
                        assert(cuts@.take(cuts.len() as int) =~= cuts@);
                    }
                }
                proof {
                    assert(out@ == piece_into(s@, pieces@[i as int], target, block.heading, mid));
                }
                cur = z;
                i = i + 1;
            }
            assert forall|k: int|
                0 <= k < len && !is_ws(#[trigger] s@[k]) && (exists|j: int|
                    0 <= j < b + 1 && #[trigger] in_span(blocks@[j], k)) implies span_covered(out@, k) by {
                if in_span(block, k) {
                    assert(block.start <= k < block.end);
                } else {
                    let j = choose|j: int| 0 <= j < b + 1 && #[trigger] in_span(blocks@[j], k);
                    assert(j < b);
                }
            }
            proof {
                lemma_widen_spans(s@, out@, 0, cur as int, block.end as int);
            }
        }
        proof {
            if b + 1 < blocks.len() {
                assert(blocks@[b as int].end <= blocks@[b + 1].start);
            }
        }
        bound = block.end;
        b = b + 1;
    }
    proof {
        lemma_widen_spans(s@, out@, 0, bound as int, len as int);
    }
    assert forall|k: int|
        0 <= k < len && !is_ws(#[trigger] s@[k]) implies exists|i: int|
            0 <= i < out.len() && #[trigger] in_span(out@[i], k) by {
        assert(exists|j: int| 0 <= j < blocks.len() && #[trigger] in_span(blocks@[j], k));
        assert(span_covered(out@, k));
    }
    out
}

/// Characters in units `a..b`, the measure the packer fills chunks by.
pub open spec fn unit_chars(u: Seq<Span>, a: int, b: int) -> int
    decreases b - a,
{
    if a >= b {
        0
    } else {
        unit_chars(u, a, b - 1) + (u[b - 1].end - u[b - 1].start)
    }
}

/// Where the chunk after `prev` takes up its overlap, if it does.
pub open spec fn overlap_after(s: Seq<char>, prev: Piece, overlap: usize) -> Option<int> {
    overlap_at(s, prev.start as int, prev.end as int, overlap as int)
}

/// The characters chunk `i` inherits from the chunk before it.
pub open spec fn carry_chars(s: Seq<char>, p: Seq<Piece>, i: int, overlap: usize) -> int {
    if i == 0 {
        0
    } else {
        match overlap_after(s, p[i - 1], overlap) {
            Some(at) => p[i - 1].end - at,
            None => 0,
        }
    }
}

/// Where chunk `i` starts when its first unit starts at `head`: at the inherited overlap when
/// that comes first.
pub open spec fn start_at(s: Seq<char>, p: Seq<Piece>, i: int, overlap: usize, head: int) -> int {
    if i == 0 {
        head
    } else {
        match overlap_after(s, p[i - 1], overlap) {
            Some(at) => if at < head {
                at
            } else {
                head
            },
            None => head,
        }
    }
}

/// The first unit after group `i`: the next group's first, or `n` after the last group.
pub open spec fn next_first(f: Seq<int>, i: int, n: int) -> int {
    if i + 1 < f.len() {
        f[i + 1]
    } else {
        n
    }
}

/// Unit `j` joins the open chunk `i`: it fits the target, and is not a heading arriving once
/// the chunk holds a third of the target.
pub open spec fn stays(s: Seq<char>, u: Seq<Span>, opts: ChunkOpts, p: Seq<Piece>, f: Seq<int>, i: int, j: int) -> bool {
    let w = carry_chars(s, p, i, opts.overlap) + unit_chars(u, f[i], j);
    &&& w + (u[j].end - u[j].start) <= opts.target
    &&& !(u[j].level == Level::Heading && w >= opts.target / 3)
}

/// Chunk `i` was closed by unit `j`: it would not fit, or it is a heading arriving once the
/// chunk holds a third of the target.
pub open spec fn closes(s: Seq<char>, u: Seq<Span>, opts: ChunkOpts, p: Seq<Piece>, f: Seq<int>, i: int, j: int) -> bool {
    let w = carry_chars(s, p, i, opts.overlap) + unit_chars(u, f[i], j);
    ||| w + (u[j].end - u[j].start) > opts.target
    ||| (u[j].level == Level::Heading && w >= opts.target / 3)
}

/// Chunk `i` as packed from units `f[i]..next`: it starts at the inherited overlap or its
/// first unit, ends with its last unit, and carries its first unit's heading.
pub open spec fn piece_of(s: Seq<char>, u: Seq<Span>, opts: ChunkOpts, p: Seq<Piece>, f: Seq<int>, i: int, next: int) -> bool {
    &&& 0 <= f[i] < next <= u.len()
    &&& p[i].start == start_at(s, p, i, opts.overlap, u[f[i]].start as int)
    &&& p[i].end == u[next - 1].end
    &&& p[i].heading == u[f[i]].heading
    &&& forall|j: int| f[i] < j < next ==> #[trigger] stays(s, u, opts, p, f, i, j)
}

/// `p` is what packing the units `u` gives, with `f[i]` the first unit of chunk `i`: units join
/// the open chunk while they fit and no heading opens a new section; each chunk after the
/// first re-opens the tail of the one before.
pub open spec fn packed(s: Seq<char>, u: Seq<Span>, opts: ChunkOpts, p: Seq<Piece>, f: Seq<int>) -> bool {
    &&& f.len() == p.len()
    &&& (u.len() == 0 <==> p.len() == 0)
    &&& p.len() > 0 ==> f[0] == 0
    &&& forall|i: int| 0 <= i < p.len() ==> #[trigger] piece_of(s, u, opts, p, f, i, next_first(f, i, u.len() as int))
    &&& forall|i: int| 0 <= i < p.len() - 1 ==> #[trigger] closes(s, u, opts, p, f, i, f[i + 1])
}

/// Every chunk after the first opens either at its own first unit or, earlier, where the chunk
/// before it hands over its overlap; never later than either. With the overlap law, a chunk
/// that re-opens the tail of the one before starts on a whole word.
pub proof fn law_chunk_opens_at_unit_or_overlap(s: Seq<char>, u: Seq<Span>, opts: ChunkOpts, p: Seq<Piece>, f: Seq<int>, i: int)
    requires
        packed(s, u, opts, p, f),
        0 < i < p.len(),
    ensures
        p[i].start <= u[f[i]].start,
        overlap_after(s, p[i - 1], opts.overlap) matches Some(n) ==> p[i].start <= n,
        p[i].start == u[f[i]].start || (p[i].start < u[f[i]].start && overlap_after(s, p[i - 1], opts.overlap)
            == Some(p[i].start as int)),
{
    assert(piece_of(s, u, opts, p, f, i, next_first(f, i, u.len() as int)));
}

/// The first whitespace at or after `i` and before `end`, else `end`.
pub open spec fn first_ws_from(s: Seq<char>, i: int, end: int) -> int
    decreases end - i,
{
    if i >= end {
        end
    } else if is_ws(s[i]) {
        i
    } else {
        first_ws_from(s, i + 1, end)
    }
}

/// The first non-whitespace at or after `i` and before `end`, else `end`.
pub open spec fn first_non_ws_from(s: Seq<char>, i: int, end: int) -> int
    decreases end - i,
{
    if i >= end {
        end
    } else if !is_ws(s[i]) {
        i
    } else {
        first_non_ws_from(s, i + 1, end)
    }
}

/// Where the chunk after `start..end` starts: `overlap` characters back from the end, then on
/// past the next run of whitespace to the next word; a tail without whitespace is cut where it
/// is. Nothing when there is no overlap, the chunk is not longer than it, or the tail after
/// the first whitespace is all whitespace.
pub open spec fn overlap_at(s: Seq<char>, start: int, end: int, overlap: int) -> Option<int> {
    if overlap == 0 || end <= start || end - start <= overlap {
        None
    } else {
        let at = end - overlap;
        let cut = first_ws_from(s, at, end);
        let next = if cut < end {
            first_non_ws_from(s, cut, end)
        } else {
            at
        };
        if start < next < end {
            Some(next)
        } else {
            None
        }
    }
}

/// Position `k` opens a word: a non-blank right after a blank.
pub open spec fn word_start(s: Seq<char>, k: int) -> bool {
    0 < k < s.len() && is_ws(s[k - 1]) && !is_ws(s[k])
}

proof fn lemma_first_ws_bounds(s: Seq<char>, i: int, end: int)
    requires
        0 <= i <= end <= s.len(),
    ensures
        i <= first_ws_from(s, i, end) <= end,
        forall|k: int| i <= k < first_ws_from(s, i, end) ==> !is_ws(#[trigger] s[k]),
        first_ws_from(s, i, end) < end ==> is_ws(s[first_ws_from(s, i, end)]),
    decreases end - i,
{
    if i < end && !is_ws(s[i]) {
        lemma_first_ws_bounds(s, i + 1, end);
    }
}

proof fn lemma_first_non_ws_bounds(s: Seq<char>, i: int, end: int)
    requires
        0 <= i <= end <= s.len(),
    ensures
        i <= first_non_ws_from(s, i, end) <= end,
        forall|k: int| i <= k < first_non_ws_from(s, i, end) ==> is_ws(#[trigger] s[k]),
        first_non_ws_from(s, i, end) < end ==> !is_ws(s[first_non_ws_from(s, i, end)]),
    decreases end - i,
{
    if i < end && is_ws(s[i]) {
        lemma_first_non_ws_bounds(s, i + 1, end);
    }
}

/// The chunk after `start..end` never opens with half a word. With no overlap, or a chunk no
/// longer than the overlap, nothing is carried. Otherwise the carry backs off `overlap`
/// characters from the end; when the tail from there holds a blank, the next chunk opens at
/// the first word that starts after the back-off point (and there is no carry when no word
/// starts there); a tail without any blank is one long word, cut at the back-off point.
pub proof fn law_overlap_opens_at_a_word(s: Seq<char>, start: int, end: int, overlap: int)
    requires
        0 <= start,
        end <= s.len(),
        0 <= overlap,
    ensures
        overlap == 0 || end - start <= overlap ==> overlap_at(s, start, end, overlap) is None,
        overlap > 0 && end - start > overlap && (forall|k: int| end - overlap <= k < end ==> !is_ws(#[trigger] s[k]))
            ==> overlap_at(s, start, end, overlap) == Some(end - overlap),
        overlap > 0 && end - start > overlap && (exists|k: int| end - overlap <= k < end && is_ws(#[trigger] s[k]))
            ==> match overlap_at(s, start, end, overlap) {
                Some(n) => {
                    &&& end - overlap < n < end
                    &&& word_start(s, n)
                    &&& forall|j: int| end - overlap < j < n ==> !#[trigger] word_start(s, j)
                },
                None => forall|j: int| end - overlap < j < end ==> !#[trigger] word_start(s, j),
            },
{
    if overlap > 0 && end - start > overlap {
        let at = end - overlap;
        lemma_first_ws_bounds(s, at, end);
        let cut = first_ws_from(s, at, end);
        if cut < end {
            lemma_first_non_ws_bounds(s, cut, end);
            let next = first_non_ws_from(s, cut, end);
            assert forall|j: int| at < j < next implies !#[trigger] word_start(s, j) by {
                if j < cut {
                    assert(!is_ws(s[j - 1]));
                } else {
                    assert(is_ws(s[j]));
                }
            }
            if next < end {
                assert(is_ws(s[next - 1]));
            }
        } else {
            assert forall|k: int| end - overlap <= k < end implies !is_ws(#[trigger] s[k]) by {}
        }
    }
}

/// Where the next chunk starts so that it repeats the tail of `start..end`: `overlap`
/// characters back from the end, then forward to the start of the next word.
fn overlap_start(s: &Vec<char>, start: usize, end: usize, overlap: usize) -> (r: Option<usize>)
    requires
        end <= s.len(),
    ensures
        r matches Some(at) ==> start < at < end,
        match r {
            Some(at) => overlap_at(s@, start as int, end as int, overlap as int) == Some(at as int),
            None => overlap_at(s@, start as int, end as int, overlap as int) is None,
        },
{
    if overlap == 0 || end <= start {
        return None;
    }
    let total = end - start;
    if total <= overlap {
        return None;
    }
    let at = start + (total - overlap);
    let mut cut = at;
    while cut < end && !is_whitespace(s[cut])
        invariant
            at <= cut <= end <= s.len(),
            first_ws_from(s@, at as int, end as int) == first_ws_from(s@, cut as int, end as int),
        decreases end - cut,
    {
        cut = cut + 1;
    }
    let next = if cut < end {
        let mut q = cut;
        while q < end && is_whitespace(s[q])
            invariant
                cut <= q <= end <= s.len(),
                first_non_ws_from(s@, cut as int, end as int) == first_non_ws_from(
                    s@,
                    q as int,
                    end as int,
                ),
            decreases end - q,
        {
            q = q + 1;
        }
        q
    } else {
        at
    };
    if next > start && next < end {
        Some(next)
    } else {
        None
    }
}

/// A chunk as a character range, before it is given bytes and text.
#[derive(Clone, Copy, Debug)]
pub struct Piece {
    pub start: usize,
    pub end: usize,
    pub heading: Option<(usize, usize)>,
}

pub open spec fn in_piece(p: Piece, k: int) -> bool {
    p.start <= k < p.end
}

pub open spec fn pieces_wf(s: Seq<char>, v: Seq<Piece>) -> bool {
    &&& forall|i: int| 0 <= i < v.len() ==> #[trigger] v[i].start < v[i].end <= s.len()
    &&& forall|i: int|
        0 <= i < v.len() ==> (#[trigger] v[i].heading matches Some(h) ==> h.0 <= h.1 <= s.len())
    &&& forall|i: int, j: int|
        0 <= i < j < v.len() ==> #[trigger] v[i].start < #[trigger] v[j].start && v[i].end < v[j].end
}

pub open spec fn piece_covered(v: Seq<Piece>, k: int) -> bool {
    exists|i: int| 0 <= i < v.len() && #[trigger] in_piece(v[i], k)
}

proof fn lemma_push_piece(s: Seq<char>, v: Seq<Piece>, p: Piece)
    requires
        pieces_wf(s, v),
        p.start < p.end <= s.len(),
        p.heading matches Some(h) ==> h.0 <= h.1 <= s.len(),
        v.len() > 0 ==> v.last().start < p.start && v.last().end < p.end,
    ensures
        pieces_wf(s, v.push(p)),
        forall|k: int| piece_covered(v, k) ==> piece_covered(v.push(p), k),
{
    let w = v.push(p);
    assert forall|i: int, j: int| 0 <= i < j < w.len() implies #[trigger] w[i].start < #[trigger] w[j].start
        && w[i].end < w[j].end by {
        if j == v.len() {
            let l = v.len() - 1;
            assert(w[i] == v[i]);
            assert(w[j] == p);
            assert(v.last() == v[l]);
            if i < l {
                assert(v[i].start < v[l].start && v[i].end < v[l].end);
            }
            assert(w[i].start < w[j].start);
            assert(w[i].end < w[j].end);
        } else {
            assert(w[i] == v[i] && w[j] == v[j]);
            assert(v[i].start < v[j].start && v[i].end < v[j].end);
        }
    }
    assert forall|i: int| 0 <= i < w.len() implies #[trigger] w[i].start < w[i].end <= s.len() by {
        if i < v.len() {
            assert(w[i] == v[i]);
        } else {
            assert(w[i] == p);
        }
    }
    assert forall|i: int| 0 <= i < w.len() implies (#[trigger] w[i].heading matches Some(h) ==> h.0
        <= h.1 <= s.len()) by {
        if i < v.len() {
            assert(w[i] == v[i]);
        } else {
            assert(w[i] == p);
        }
    }
    assert forall|k: int| piece_covered(v, k) implies piece_covered(w, k) by {
        let i = choose|i: int| 0 <= i < v.len() && #[trigger] in_piece(v[i], k);
        assert(w[i] == v[i]);
        assert(in_piece(w[i], k));
    }
}

/// Packing units into chunks: close the open chunk when the next unit would overflow the
/// target, or when a heading arrives and the open chunk is at least a third full.
fn pack(s: &Vec<char>, units: &Vec<Span>, opts: ChunkOpts) -> (out: Vec<Piece>)
    requires
        spans_wf(s@, units@, 0, s.len() as int),
        spans_cover(s@, units@, 0, s.len() as int),
    ensures
        pieces_wf(s@, out@),
        forall|k: int| 0 <= k < s.len() && !is_ws(#[trigger] s@[k]) ==> piece_covered(out@, k),
        exists|f: Seq<int>| packed(s@, units@, opts, out@, f),
{
    let n = units.len();
    let len = s.len();
    let mut out: Vec<Piece> = Vec::new();
    let mut first: usize = 0;
    let mut carry: Option<usize> = None;
    let mut chars: usize = 0;
    let min_fill = opts.target / 3;
    let mut index: usize = 0;
    let ghost mut fs: Seq<int> = Seq::empty();
    while index < n
        invariant
            n == units.len(),
            len == s.len(),
            min_fill == opts.target / 3,
            spans_wf(s@, units@, 0, len as int),
            first <= index <= n,
            index > 0 ==> first < index,
            chars <= (if index == 0 { 0 } else { units@[index - 1].end as int }),
            pieces_wf(s@, out@),
            out.len() > 0 ==> first > 0 && out@.last().end == units@[first - 1].end,
            carry matches Some(at) ==> out.len() > 0 && out@.last().start < at < out@.last().end,
            forall|k: int|
                0 <= k < len && !is_ws(#[trigger] s@[k]) && (exists|j: int|
                    0 <= j < first && #[trigger] in_span(units@[j], k)) ==> piece_covered(out@, k),
            fs.len() == out.len(),
            out.len() == 0 ==> first == 0 && carry is None,
            out.len() > 0 ==> fs[0] == 0,
            out.len() > 0 ==> match carry {
                Some(at) => overlap_after(s@, out@.last(), opts.overlap) == Some(at as int),
                None => overlap_after(s@, out@.last(), opts.overlap) is None,
            },
            forall|i: int| 0 <= i < out.len() ==> #[trigger] piece_of(s@, units@, opts, out@, fs, i, next_first(fs, i, first as int)),
            forall|i: int| 0 <= i < out.len() ==> #[trigger] closes(s@, units@, opts, out@, fs, i, next_first(fs, i, first as int)),
            forall|j: int| first < j < index ==> #[trigger] stays(s@, units@, opts, out@, fs.push(first as int), out.len() as int, j),
            chars == carry_chars(s@, out@, out.len() as int, opts.overlap) + unit_chars(units@, first as int, index as int),
        decreases n - index,
    {
        let unit = units[index];
        proof {
            assert(spans_wf(s@, units@, 0, len as int));
            assert(index < units@.len());
            let ii = index as int;
            assert(0 <= units@[ii].start);
            assert(units@[ii].start < units@[ii].end);
            assert(units@[ii].end <= len);
            if index > 0 {
                assert(units@[index - 1].end <= units@[index as int].start);
            }
        }
        let unit_len = unit.end - unit.start;
        let too_full = chars + unit_len > opts.target;
        let new_section = match unit.level {
            Level::Heading => chars >= min_fill,
            _ => false,
        };
        if first < index && (too_full || new_section) {
            let head = units[first];
            let last = units[index - 1];
            proof {
                assert(0 <= units@[first as int].start < units@[first as int].end <= len);
                assert(0 <= units@[index - 1].start < units@[index - 1].end <= len);
                if first < index - 1 {
                    assert(head.end <= last.start);
                }
                if out.len() > 0 {
                    if first > 0 && first - 1 < first {
                        assert(units@[first - 1].end <= units@[first as int].start);
                    }
                }
            }
            let start = match carry {
                Some(at) => if at < head.start {
                    at
                } else {
                    head.start
                },
                None => head.start,
            };
            let done = Piece { start, end: last.end, heading: head.heading };
            let ghost before = out@;
            let ghost fs0 = fs;
            let ghost g = out.len() as int;
            proof {
                lemma_push_piece(s@, out@, done);
                assert(start == start_at(s@, before, g, opts.overlap, head.start as int));
                assert(closes(s@, units@, opts, before, fs0.push(first as int), g, index as int));
            }
            out.push(done);
            proof {
                fs = fs0.push(first as int);
                lemma_pack_extend(s@, units@, opts, before, fs0, done, first as int, index as int);
            }
            assert forall|k: int|
                0 <= k < len && !is_ws(#[trigger] s@[k]) && (exists|j: int|
                    0 <= j < index && #[trigger] in_span(units@[j], k)) implies piece_covered(out@, k) by {
                let j = choose|j: int| 0 <= j < index && #[trigger] in_span(units@[j], k);
                if j < first {
                    assert(piece_covered(before, k));
                } else {
                    if j < index - 1 {
                        assert(units@[j].end <= units@[index - 1].start);
                    }
                    if first < j {
                        assert(units@[first as int].end <= units@[j].start);
                    }
                    assert(in_piece(out@[out.len() - 1], k));
                }
            }
            carry = overlap_start(s, done.start, done.end, opts.overlap);
            chars = match carry {
                Some(at) => done.end - at,
                None => 0,
            };
            first = index;
            proof {
                assert(out@.last() == done);
                assert(chars == carry_chars(s@, out@, out.len() as int, opts.overlap) + unit_chars(units@, first as int, index as int));
            }
        } else {
            proof {
                if first < index {
                    assert(stays(s@, units@, opts, out@, fs.push(first as int), out.len() as int, index as int));
                }
            }
        }
        chars = chars + unit_len;
        index = index + 1;
        proof {
            assert(unit_chars(units@, first as int, index as int) == unit_chars(units@, first as int, index - 1) + (units@[index - 1].end - units@[index - 1].start));
        }
    }
    if first < n {
        let head = units[first];
        let last = units[n - 1];
        proof {
            assert(0 <= units@[first as int].start < units@[first as int].end <= len);
            assert(0 <= units@[n - 1].start < units@[n - 1].end <= len);
            if first < n - 1 {
                assert(head.end <= last.start);
            }
            if out.len() > 0 {
                assert(units@[first - 1].end <= units@[first as int].start);
            }
        }
        let start = match carry {
            Some(at) => if at < head.start {
                at
            } else {
                head.start
            },
            None => head.start,
        };
        let done = Piece { start, end: last.end, heading: head.heading };
        let ghost before = out@;
        let ghost fs0 = fs;
        let ghost g = out.len() as int;
        proof {
            lemma_push_piece(s@, out@, done);
            assert(start == start_at(s@, before, g, opts.overlap, head.start as int));
        }
        out.push(done);
        proof {
            fs = fs0.push(first as int);
            lemma_pack_finish(s@, units@, opts, before, fs0, done, first as int);
        }
        assert forall|k: int|
            0 <= k < len && !is_ws(#[trigger] s@[k]) && (exists|j: int|
                0 <= j < n && #[trigger] in_span(units@[j], k)) implies piece_covered(out@, k) by {
            let j = choose|j: int| 0 <= j < n && #[trigger] in_span(units@[j], k);
            if j < first {
                assert(piece_covered(before, k));
            } else {
                if j < n - 1 {
                    assert(units@[j].end <= units@[n - 1].start);
                }
                if first < j {
                    assert(units@[first as int].end <= units@[j].start);
                }
                assert(in_piece(out@[out.len() - 1], k));
            }
        }
    }
    proof {
        assert(packed(s@, units@, opts, out@, fs));
    }
    out
}

/// The prefix of a packing is unchanged when a closed chunk is pushed: every clause about the
/// earlier chunks reads only the chunks before them.
proof fn lemma_pack_prefix(s: Seq<char>, u: Seq<Span>, opts: ChunkOpts, p: Seq<Piece>, q: Piece, f: Seq<int>, f2: Seq<int>, i: int, j: int)
    requires
        0 <= i <= p.len(),
        f2.len() > i,
        f.len() > i,
        f2[i] == f[i],
    ensures
        carry_chars(s, p.push(q), i, opts.overlap) == carry_chars(s, p, i, opts.overlap),
        stays(s, u, opts, p.push(q), f2, i, j) == stays(s, u, opts, p, f, i, j),
        closes(s, u, opts, p.push(q), f2, i, j) == closes(s, u, opts, p, f, i, j),
{
    if i > 0 {
        assert(p.push(q)[i - 1] == p[i - 1]);
    }
}

/// Closing the open chunk `g` (its first unit `first`) when unit `index` arrives keeps every
/// clause of the packing so far, and adds the closed chunk's own.
proof fn lemma_pack_extend(s: Seq<char>, u: Seq<Span>, opts: ChunkOpts, p: Seq<Piece>, f: Seq<int>, q: Piece, first: int, index: int)
    requires
        f.len() == p.len(),
        0 <= first < index <= u.len(),
        p.len() > 0 ==> f[0] == 0,
        p.len() == 0 ==> first == 0,
        forall|i: int| 0 <= i < p.len() ==> #[trigger] piece_of(s, u, opts, p, f, i, next_first(f, i, first)),
        forall|i: int| 0 <= i < p.len() ==> #[trigger] closes(s, u, opts, p, f, i, next_first(f, i, first)),
        forall|j: int| first < j < index ==> #[trigger] stays(s, u, opts, p, f.push(first), p.len() as int, j),
        closes(s, u, opts, p, f.push(first), p.len() as int, index),
        q.start == start_at(s, p, p.len() as int, opts.overlap, u[first].start as int),
        q.end == u[index - 1].end,
        q.heading == u[first].heading,
    ensures
        ({
            let p2 = p.push(q);
            let f2 = f.push(first);
            &&& f2.len() == p2.len()
            &&& f2[0] == 0
            &&& forall|i: int| 0 <= i < p2.len() ==> #[trigger] piece_of(s, u, opts, p2, f2, i, next_first(f2, i, index))
            &&& forall|i: int| 0 <= i < p2.len() ==> #[trigger] closes(s, u, opts, p2, f2, i, next_first(f2, i, index))
        }),
{
    let p2 = p.push(q);
    let f2 = f.push(first);
    let g = p.len() as int;
    assert forall|i: int| 0 <= i < p2.len() implies #[trigger] piece_of(s, u, opts, p2, f2, i, next_first(f2, i, index)) by {
        if i < g {
            assert(f2[i] == f[i]);
            assert(p2[i] == p[i]);
            assert(next_first(f2, i, index) == next_first(f, i, first));
            assert(piece_of(s, u, opts, p, f, i, next_first(f, i, first)));
            lemma_pack_prefix(s, u, opts, p, q, f, f2, i, 0);
            if i > 0 {
                assert(p2[i - 1] == p[i - 1]);
            }
            assert forall|j: int| f2[i] < j < next_first(f2, i, index) implies #[trigger] stays(s, u, opts, p2, f2, i, j) by {
                lemma_pack_prefix(s, u, opts, p, q, f, f2, i, j);
            }
        } else {
            assert(f2[g] == first);
            assert(next_first(f2, g, index) == index);
            if g > 0 {
                assert(p2[g - 1] == p[g - 1]);
            }
            assert forall|j: int| f2[g] < j < index implies #[trigger] stays(s, u, opts, p2, f2, g, j) by {
                lemma_pack_prefix(s, u, opts, p, q, f.push(first), f2, g, j);
            }
        }
    }
    assert forall|i: int| 0 <= i < p2.len() implies #[trigger] closes(s, u, opts, p2, f2, i, next_first(f2, i, index)) by {
        if i < g {
            assert(f2[i] == f[i]);
            assert(next_first(f2, i, index) == next_first(f, i, first));
            lemma_pack_prefix(s, u, opts, p, q, f, f2, i, next_first(f, i, first));
        } else {
            assert(next_first(f2, g, index) == index);
            lemma_pack_prefix(s, u, opts, p, q, f.push(first), f2, g, index);
        }
    }
}

/// The last chunk, closed by the end of the units, completes the packing.
proof fn lemma_pack_finish(s: Seq<char>, u: Seq<Span>, opts: ChunkOpts, p: Seq<Piece>, f: Seq<int>, q: Piece, first: int)
    requires
        f.len() == p.len(),
        0 <= first < u.len(),
        p.len() > 0 ==> f[0] == 0,
        p.len() == 0 ==> first == 0,
        forall|i: int| 0 <= i < p.len() ==> #[trigger] piece_of(s, u, opts, p, f, i, next_first(f, i, first)),
        forall|i: int| 0 <= i < p.len() ==> #[trigger] closes(s, u, opts, p, f, i, next_first(f, i, first)),
        forall|j: int| first < j < u.len() ==> #[trigger] stays(s, u, opts, p, f.push(first), p.len() as int, j),
        q.start == start_at(s, p, p.len() as int, opts.overlap, u[first].start as int),
        q.end == u[u.len() - 1].end,
        q.heading == u[first].heading,
    ensures
        packed(s, u, opts, p.push(q), f.push(first)),
{
    let p2 = p.push(q);
    let f2 = f.push(first);
    let g = p.len() as int;
    let n = u.len() as int;
    assert forall|i: int| 0 <= i < p2.len() implies #[trigger] piece_of(s, u, opts, p2, f2, i, next_first(f2, i, n)) by {
        if i < g {
            assert(f2[i] == f[i]);
            assert(p2[i] == p[i]);
            assert(next_first(f2, i, n) == next_first(f, i, first));
            assert(piece_of(s, u, opts, p, f, i, next_first(f, i, first)));
            lemma_pack_prefix(s, u, opts, p, q, f, f2, i, 0);
            if i > 0 {
                assert(p2[i - 1] == p[i - 1]);
            }
            assert forall|j: int| f2[i] < j < next_first(f2, i, n) implies #[trigger] stays(s, u, opts, p2, f2, i, j) by {
                lemma_pack_prefix(s, u, opts, p, q, f, f2, i, j);
            }
        } else {
            assert(f2[g] == first);
            if g > 0 {
                assert(p2[g - 1] == p[g - 1]);
            }
            assert forall|j: int| f2[g] < j < n implies #[trigger] stays(s, u, opts, p2, f2, g, j) by {
                lemma_pack_prefix(s, u, opts, p, q, f.push(first), f2, g, j);
            }
        }
    }
    assert forall|i: int| 0 <= i < p2.len() - 1 implies #[trigger] closes(s, u, opts, p2, f2, i, f2[i + 1]) by {
        assert(f2[i] == f[i]);
        assert(next_first(f, i, first) == f2[i + 1]);
        lemma_pack_prefix(s, u, opts, p, q, f, f2, i, f2[i + 1]);
    }
}

/// `c` is the slice of `s` between two character positions, with its byte offsets.
pub open spec fn is_slice_of(s: Seq<char>, c: Chunk) -> bool {
    exists|cs: int, ce: int|
        #![trigger byte_pos(s, cs), byte_pos(s, ce)]
        0 <= cs < ce <= s.len() && byte_pos(s, cs) == c.start && byte_pos(s, ce) == c.end
            && c.text@ == s.subrange(cs, ce)
}

/// The heading, when present, is a run of characters of the text.
pub open spec fn heading_from(s: Seq<char>, c: Chunk) -> bool {
    c.heading matches Some(h) ==> exists|a: int, b: int|
        #![trigger s.subrange(a, b)]
        0 <= a <= b <= s.len() && h@ == s.subrange(a, b)
}

/// Units as the packer takes them: ordered, non-overlapping, covering every non-whitespace
/// character, none longer than the target (for any target of two characters or more), and
/// each carrying the heading in force where it stands.
pub open spec fn units_ok(s: Seq<char>, u: Seq<Span>, target: usize) -> bool {
    &&& spans_wf(s, u, 0, s.len() as int)
    &&& spans_cover(s, u, 0, s.len() as int)
    &&& target >= 2 ==> forall|i: int| 0 <= i < u.len() ==> #[trigger] u[i].end - u[i].start <= target
    &&& forall|i: int| 0 <= i < u.len() ==> span_headed(s, #[trigger] u[i])
}

/// Chunk `c` is the character range of piece `p` in bytes, with its text and heading title.
pub open spec fn chunk_of_piece(s: Seq<char>, c: Chunk, p: Piece) -> bool {
    &&& c.start == byte_pos(s, p.start as int)
    &&& c.end == byte_pos(s, p.end as int)
    &&& c.text@ == s.subrange(p.start as int, p.end as int)
    &&& match p.heading {
        Some((a, b)) => c.heading matches Some(h) && h@ == s.subrange(a as int, b as int),
        None => c.heading is None,
    }
}

/// Split `text` into overlapping chunks.
///
/// Every chunk is a non-empty slice `text[start..end]` whose offsets are character boundaries,
/// ordinals count from zero, chunks start and end strictly later than the one before, and
/// every non-whitespace character of the text lies inside at least one chunk. The chunks are
/// the packing of the text's units (`units_of`: blocks at blank lines and headings, then
/// sentences, then hard cuts): a chunk of more than one unit holds at most `target`
/// characters of units and inherited overlap, each chunk after the first starts at the overlap
/// re-opened from the one before when that comes before its first unit, and its heading is the
/// nearest markdown heading at or above its first unit.
pub fn chunk(text: &str, opts: ChunkOpts) -> (out: Vec<Chunk>)
    requires
        encode_utf8(text@).len() <= usize::MAX,
    ensures
        forall|i: int| 0 <= i < out.len() ==> #[trigger] out[i].ord == #[verifier::truncate] (i as u32),
        forall|i: int| 0 <= i < out.len() ==> is_slice_of(text@, #[trigger] out[i]),
        forall|i: int| 0 <= i < out.len() ==> heading_from(text@, #[trigger] out[i]),
        forall|i: int, j: int|
            0 <= i < j < out.len() ==> #[trigger] out[i].start < #[trigger] out[j].start
                && out[i].end < out[j].end,
        forall|k: int|
            0 <= k < text@.len() && !is_ws(#[trigger] text@[k]) ==> exists|i: int|
                0 <= i < out.len() && out[i].start <= byte_pos(text@, k) < #[trigger] out[i].end,
        units_ok(text@, units_of(text@, opts.target), opts.target),
        exists|p: Seq<Piece>, f: Seq<int>|
            #[trigger] packed(text@, units_of(text@, opts.target), opts, p, f) && p.len() == out.len()
                && forall|i: int| 0 <= i < out.len() ==> chunk_of_piece(text@, #[trigger] out[i], p[i]),
{
    let s = chars_of(text);
    let bl = blocks(&s);
    let un = split_units(&s, &bl, opts.target);
    let pieces = pack(&s, &un, opts);
    let offsets = byte_offsets(text, &s);
    let mut out: Vec<Chunk> = Vec::new();
    let mut i: usize = 0;
    while i < pieces.len()
        invariant
            s@ == text@,
            offsets.len() == s.len() + 1,
            forall|k: int| 0 <= k <= s.len() ==> #[trigger] offsets[k] == byte_pos(s@, k),
            pieces_wf(s@, pieces@),
            i <= pieces.len(),
            out.len() == i,
            forall|j: int| 0 <= j < i ==> #[trigger] out[j].ord == #[verifier::truncate] (j as u32),
            forall|j: int| 0 <= j < i ==> #[trigger] out[j].start == byte_pos(s@, pieces@[j].start as int),
            forall|j: int| 0 <= j < i ==> #[trigger] out[j].end == byte_pos(s@, pieces@[j].end as int),
            forall|j: int| 0 <= j < i ==> is_slice_of(text@, #[trigger] out[j]),
            forall|j: int| 0 <= j < i ==> heading_from(text@, #[trigger] out[j]),
            forall|j: int| 0 <= j < i ==> chunk_of_piece(text@, #[trigger] out[j], pieces@[j]),
        decreases pieces.len() - i,
    {
        let p = pieces[i];
        proof {
            let ii = i as int;
            assert(pieces_wf(s@, pieces@));
            assert(ii < pieces@.len());
            assert(pieces@[ii].start < pieces@[ii].end);
            assert(pieces@[ii].end <= s.len());
            assert(pieces@[ii].heading matches Some(h) ==> h.0 <= h.1 <= s.len());
        }
        let body = String::from_str(text.substring_char(p.start, p.end));
        let heading = match p.heading {
            Some((a, b)) => Some(String::from_str(text.substring_char(a, b))),
            None => None,
        };
        let c = Chunk {
            ord: #[verifier::truncate] (i as u32),
            text: body,
            start: offsets[p.start],
            end: offsets[p.end],
            heading,
        };
        proof {
            assert(byte_pos(text@, p.start as int) == c.start);
            assert(byte_pos(text@, p.end as int) == c.end);
            assert(is_slice_of(text@, c));
            if let Some((a, b)) = p.heading {
                assert(c.heading.unwrap()@ == text@.subrange(a as int, b as int));
            }
            assert(heading_from(text@, c));
            assert(chunk_of_piece(text@, c, pieces@[i as int]));
        }
        out.push(c);
        i = i + 1;
    }
    proof {
        assert forall|a: int, b: int| 0 <= a < b < out.len() implies #[trigger] out[a].start
            < #[trigger] out[b].start && out[a].end < out[b].end by {
            assert(pieces@[a].start < pieces@[b].start && pieces@[a].end < pieces@[b].end);
            assert(pieces@[b].end <= s.len());
            lemma_byte_pos_strict(s@, pieces@[a].start as int, pieces@[b].start as int);
            lemma_byte_pos_strict(s@, pieces@[a].end as int, pieces@[b].end as int);
        }
        assert forall|k: int| 0 <= k < text@.len() && !is_ws(#[trigger] text@[k]) implies exists|j: int|
            0 <= j < out.len() && out[j].start <= byte_pos(text@, k) < #[trigger] out[j].end by {
            assert(s@[k] == text@[k]);
            assert(piece_covered(pieces@, k));
            let j = choose|j: int| 0 <= j < pieces.len() && #[trigger] in_piece(pieces@[j], k);
            assert(pieces@[j].start < pieces@[j].end <= s.len());
            lemma_byte_pos_mono(s@, pieces@[j].start as int, k);
            lemma_byte_pos_strict(s@, k, pieces@[j].end as int);
            assert(out[j].start <= byte_pos(text@, k) < out[j].end);
        }
        let f = choose|f: Seq<int>| packed(s@, un@, opts, pieces@, f);
        assert(un@ == units_of(text@, opts.target));
        assert(units_ok(text@, un@, opts.target));
        assert(packed(text@, un@, opts, pieces@, f));
    }
    out
}

} // verus!
