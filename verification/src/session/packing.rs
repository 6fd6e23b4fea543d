//! How a batch of envelopes is laid out in stored rows. Consecutive stream chunks of one step
//! share a row: their payloads stay separate (token boundaries are data) and their timestamps
//! are kept as differences. Everything else is one row per event. Which rows a batch becomes,
//! what a packed row holds, and how it opens again are decided here; the row encoding is the
//! store's.

use vstd::prelude::*;

use crate::session::error::SessionError;
use crate::session::event::{AssistantChunk, SessionEvent, SessionEventEnvelope};
use crate::text::{decimal, decimal_text};

verus! {

/// The stored type of a row holding several chunks.
pub const PACKED_KIND: &'static str = "assistant-chunks";

/// A chunk packs only when it carries nothing but its payload: flags and citations belong to
/// one event, and a packed row has no room for them.
pub open spec fn packable(e: SessionEventEnvelope) -> bool {
    e.surface_op is None && e.source_event_seqs is None && e.ignorable is None
}

/// The chunk an envelope carries, if it carries one.
pub open spec fn chunk_of(e: SessionEventEnvelope) -> Option<AssistantChunk> {
    match e.event {
        SessionEvent::AssistantChunk(c) => Some(c),
        _ => None,
    }
}

/// Can the envelope start a packed run.
pub open spec fn heads_run(e: SessionEventEnvelope) -> bool {
    packable(e) && chunk_of(e) is Some
}

/// Does envelope `j` continue the run headed at `start`: a packable chunk of the same turn and
/// step, whose `seq` follows the previous one.
pub open spec fn continues(events: Seq<SessionEventEnvelope>, start: int, j: int) -> bool {
    &&& 0 <= start < j < events.len()
    &&& heads_run(events[j])
    &&& chunk_of(events[j])->0.turn == chunk_of(events[start])->0.turn
    &&& chunk_of(events[j])->0.step == chunk_of(events[start])->0.step
    &&& events[j].seq == events[j - 1].seq + 1
}

/// How many envelopes from `j` on continue the run headed at `start`, without a break.
pub open spec fn run_tail(events: Seq<SessionEventEnvelope>, start: int, j: int) -> nat
    decreases events.len() - j,
{
    if 0 <= j < events.len() && continues(events, start, j) {
        1 + run_tail(events, start, j + 1)
    } else {
        0
    }
}

/// The length of the chunk run headed at `start`; zero when `start` heads none.
pub open spec fn run_len(events: Seq<SessionEventEnvelope>, start: int) -> nat {
    if 0 <= start < events.len() && heads_run(events[start]) {
        1 + run_tail(events, start, start + 1)
    } else {
        0
    }
}

proof fn lemma_run_tail_bound(events: Seq<SessionEventEnvelope>, start: int, j: int)
    requires
        0 <= j,
    ensures
        run_tail(events, start, j) <= if j <= events.len() { events.len() - j } else { 0 },
        forall|k: int| j <= k < j + run_tail(events, start, j) ==> #[trigger] continues(events, start, k),
    decreases events.len() - j,
{
    if 0 <= j < events.len() && continues(events, start, j) {
        lemma_run_tail_bound(events, start, j + 1);
    }
}

/// A run never reaches past the end, and every member after the head continues it.
pub proof fn lemma_run_len(events: Seq<SessionEventEnvelope>, start: int)
    ensures
        run_len(events, start) <= if 0 <= start <= events.len() { events.len() - start } else { 0 },
        run_len(events, start) > 0 ==> 0 <= start < events.len() && heads_run(events[start]),
        forall|k: int| start < k < start + run_len(events, start) ==> #[trigger] continues(events, start, k),
{
    if 0 <= start < events.len() && heads_run(events[start]) {
        lemma_run_tail_bound(events, start, start + 1);
    }
}

/// One stored row of a batch: a single envelope, or a run of chunks by start and length.
#[derive(Clone, Copy, Debug, PartialEq, Eq, Structural)]
pub enum RowPlan {
    Plain(usize),
    Packed(usize, usize),
}

/// The rows of the envelopes from `i` on: a run of two or more chunks becomes one packed row,
/// anything else a row of its own.
pub open spec fn plan_from(events: Seq<SessionEventEnvelope>, i: int) -> Seq<RowPlan>
    decreases events.len() - i,
{
    if i < 0 || i >= events.len() {
        Seq::empty()
    } else {
        let r = run_len(events, i);
        if r >= 2 {
            proof {
                lemma_run_len(events, i);
            }
            seq![RowPlan::Packed(i as usize, r as usize)] + plan_from(events, i + r)
        } else {
            seq![RowPlan::Plain(i as usize)] + plan_from(events, i + 1)
        }
    }
}

/// The rows a batch becomes.
pub open spec fn plan(events: Seq<SessionEventEnvelope>) -> Seq<RowPlan> {
    plan_from(events, 0)
}

/// The length of the chunk run that starts at `start`.
pub fn chunk_run(events: &[SessionEventEnvelope], start: usize) -> (r: usize)
    requires
        start < events@.len(),
    ensures
        r == run_len(events@, start as int),
{
    let head = match &events[start].event {
        SessionEvent::AssistantChunk(c) => c,
        _ => return 0,
    };
    if !(events[start].surface_op.is_none() && events[start].source_event_seqs.is_none()
        && events[start].ignorable.is_none()) {
        return 0;
    }
    proof {
        lemma_run_tail_bound(events@, start as int, start + 1);
    }
    let mut run: usize = 1;
    while start + run < events.len()
        invariant
            start < events@.len(),
            1 <= run <= events@.len() - start,
            heads_run(events@[start as int]),
            chunk_of(events@[start as int]) == Some(*head),
            run_tail(events@, start as int, start + 1) == (run - 1) + run_tail(events@, start as int, start + run),
        ensures
            run_tail(events@, start as int, start + run) == 0,
            run_tail(events@, start as int, start + 1) == run - 1,
        decreases events.len() - start - run,
    {
        let j = start + run;
        let next = &events[j];
        let joins = match &next.event {
            SessionEvent::AssistantChunk(c) => {
                let prev = events[j - 1].seq;
                next.surface_op.is_none() && next.source_event_seqs.is_none() && next.ignorable.is_none()
                    && c.turn == head.turn && c.step == head.step && next.seq > prev && next.seq - prev == 1
            },
            _ => false,
        };
        if !joins {
            assert(!continues(events@, start as int, j as int));
            assert(run_tail(events@, start as int, j as int) == 0);
            break;
        }
        assert(continues(events@, start as int, j as int));
        assert(run_tail(events@, start as int, j as int) == 1 + run_tail(events@, start as int, j + 1));
        run = run + 1;
    }
    run
}

/// The rows a batch becomes, in order.
pub fn pack_plan(events: &[SessionEventEnvelope]) -> (r: Vec<RowPlan>)
    ensures
        r@ == plan(events@),
{
    let mut rows: Vec<RowPlan> = Vec::new();
    let mut i: usize = 0;
    while i < events.len()
        invariant
            i <= events@.len(),
            rows@ + plan_from(events@, i as int) == plan(events@),
        decreases events.len() - i,
    {
        let run = chunk_run(events, i);
        proof {
            lemma_run_len(events@, i as int);
        }
        let ghost before = rows@;
        if run >= 2 {
            rows.push(RowPlan::Packed(i, run));
            proof {
                assert(rows@ + plan_from(events@, i + run) =~= before + plan_from(events@, i as int));
            }
            i = i + run;
        } else {
            rows.push(RowPlan::Plain(i));
            proof {
                assert(rows@ + plan_from(events@, i + 1) =~= before + plan_from(events@, i as int));
            }
            i = i + 1;
        }
    }
    proof {
        assert(rows@ + plan_from(events@, i as int) =~= rows@);
    }
    rows
}

/// The positions a row holds, in order.
pub open spec fn row_positions(row: RowPlan) -> Seq<int> {
    match row {
        RowPlan::Plain(i) => seq![i as int],
        RowPlan::Packed(s, n) => Seq::new(n as nat, |k: int| s + k),
    }
}

/// The positions the rows hold, row after row.
pub open spec fn positions(rows: Seq<RowPlan>) -> Seq<int>
    decreases rows.len(),
{
    if rows.len() == 0 {
        Seq::empty()
    } else {
        row_positions(rows[0]) + positions(rows.drop_first())
    }
}

proof fn lemma_positions_from(events: Seq<SessionEventEnvelope>, i: int)
    requires
        0 <= i <= events.len(),
        events.len() <= usize::MAX,
    ensures
        positions(plan_from(events, i)) == Seq::new((events.len() - i) as nat, |k: int| i + k),
    decreases events.len() - i,
{
    let want = Seq::new((events.len() - i) as nat, |k: int| i + k);
    if i < events.len() {
        let r = run_len(events, i);
        lemma_run_len(events, i);
        let p = plan_from(events, i);
        let step: int = if r >= 2 { r as int } else { 1 };
        let rest = plan_from(events, i + step);
        lemma_positions_from(events, i + step);
        let row = if r >= 2 { RowPlan::Packed(i as usize, r as usize) } else { RowPlan::Plain(i as usize) };
        assert(p == seq![row] + rest);
        assert(p[0] == row);
        assert(p.drop_first() =~= rest);
        assert(positions(p) == row_positions(row) + positions(rest));
        assert(row_positions(row) =~= Seq::new(step as nat, |k: int| i + k));
        assert(positions(p) =~= want);
    } else {
        assert(positions(plan_from(events, i)) =~= want);
    }
}

proof fn lemma_packed_rows_from(events: Seq<SessionEventEnvelope>, i: int)
    requires
        0 <= i <= events.len(),
        events.len() <= usize::MAX,
    ensures
        forall|q: int| 0 <= q < plan_from(events, i).len() ==> (#[trigger] plan_from(events, i)[q] matches RowPlan::Packed(s, n)
            ==> n >= 2 && n == run_len(events, s as int)),
    decreases events.len() - i,
{
    if i < events.len() {
        let r = run_len(events, i);
        lemma_run_len(events, i);
        let p = plan_from(events, i);
        if r >= 2 {
            lemma_packed_rows_from(events, i + r);
            assert forall|q: int| 0 <= q < p.len() implies (#[trigger] p[q] matches RowPlan::Packed(s, n) ==> n >= 2 && n
                == run_len(events, s as int)) by {
                if q > 0 {
                    assert(p[q] == plan_from(events, i + r)[q - 1]);
                }
            }
        } else {
            lemma_packed_rows_from(events, i + 1);
            assert forall|q: int| 0 <= q < p.len() implies (#[trigger] p[q] matches RowPlan::Packed(s, n) ==> n >= 2 && n
                == run_len(events, s as int)) by {
                if q > 0 {
                    assert(p[q] == plan_from(events, i + 1)[q - 1]);
                }
            }
        }
    }
}

/// Every envelope of a batch is stored in exactly one row, in order; and a packed row holds a
/// whole run of two or more packable chunks of one step with consecutive `seq`s.
pub proof fn law_every_event_in_one_row(events: Seq<SessionEventEnvelope>)
    requires
        events.len() <= usize::MAX,
    ensures
        positions(plan(events)) == Seq::new(events.len(), |k: int| k),
        forall|q: int| 0 <= q < plan(events).len() ==> (#[trigger] plan(events)[q] matches RowPlan::Packed(s, n)
            ==> n >= 2 && heads_run(events[s as int]) && s + n <= events.len()
                && forall|k: int| s < k < s + n ==> #[trigger] continues(events, s as int, k)),
{
    lemma_positions_from(events, 0);
    assert(Seq::new((events.len() - 0) as nat, |k: int| 0 + k) =~= Seq::new(events.len(), |k: int| k));
    lemma_packed_rows_from(events, 0);
    assert forall|q: int| 0 <= q < plan(events).len() implies (#[trigger] plan(events)[q] matches RowPlan::Packed(s, n)
        ==> n >= 2 && heads_run(events[s as int]) && s + n <= events.len()
            && forall|k: int| s < k < s + n ==> #[trigger] continues(events, s as int, k)) by {
        if let RowPlan::Packed(s, n) = plan(events)[q] {
            assert(n >= 2 && n == run_len(events, s as int));
            lemma_run_len(events, s as int);
        }
    }
}

/// Where a batch first fails to continue a log of `stored` events: its first envelope must
/// carry `seq` `stored`, and each later one the `seq` after its predecessor's. The expected and
/// found `seq`s of the first break, or `None`.
pub open spec fn first_gap(stored: u64, events: Seq<SessionEventEnvelope>) -> Option<(u64, u64)>
    decreases events.len(),
{
    if events.len() == 0 {
        None
    } else {
        match first_gap(stored, events.drop_last()) {
            Some(gap) => Some(gap),
            None => {
                let expected: int = if events.len() == 1 { stored as int } else { events[events.len() - 2].seq + 1 };
                if events.last().seq == expected {
                    None
                } else {
                    Some((expected as u64, events.last().seq))
                }
            },
        }
    }
}

/// The last guard of a gapless log at the store: a batch must continue exactly where the stored
/// events stop, and have no gap inside.
pub fn check_batch(stored: u64, events: &[SessionEventEnvelope]) -> (r: Result<(), SessionError>)
    requires
        forall|k: int| 0 <= k < events@.len() - 1 ==> #[trigger] events@[k].seq < u64::MAX,
    ensures
        match first_gap(stored, events@) {
            None => r is Ok,
            Some((expected, found)) => r == Err::<(), SessionError>(SessionError::SeqGap { expected, found }),
        },
{
    let mut k: usize = 0;
    while k < events.len()
        invariant
            k <= events@.len(),
            forall|j: int| 0 <= j < events@.len() - 1 ==> #[trigger] events@[j].seq < u64::MAX,
            first_gap(stored, events@.take(k as int)) is None,
        decreases events.len() - k,
    {
        let expected = if k == 0 {
            stored
        } else {
            assert(events@[k - 1].seq < u64::MAX);
            events[k - 1].seq + 1
        };
        proof {
            let t = events@.take(k + 1);
            assert(t.drop_last() =~= events@.take(k as int));
            if k > 0 {
                assert(t[t.len() - 2] == events@[k - 1]);
            }
        }
        if events[k].seq != expected {
            proof {
                lemma_first_gap_prefix(stored, events@, k + 1);
            }
            return Err(SessionError::SeqGap { expected, found: events[k].seq });
        }
        k = k + 1;
    }
    proof {
        assert(events@.take(events@.len() as int) =~= events@);
    }
    Ok(())
}

/// A break in a prefix is the first break of the whole batch.
proof fn lemma_first_gap_prefix(stored: u64, events: Seq<SessionEventEnvelope>, n: int)
    requires
        0 <= n <= events.len(),
        first_gap(stored, events.take(n)) is Some,
    ensures
        first_gap(stored, events) == first_gap(stored, events.take(n)),
    decreases events.len() - n,
{
    if n < events.len() {
        assert(events.take(n + 1).drop_last() =~= events.take(n));
        lemma_first_gap_prefix(stored, events, n + 1);
    } else {
        assert(events.take(n) =~= events);
    }
}

/// What a packed row holds: the step of its chunks, the payloads in order, and the time from
/// each chunk to the next.
pub struct PackedChunks {
    pub turn: u64,
    pub step: u64,
    pub dt: Vec<i64>,
    pub chunks: Vec<serde_json::Value>,
}

/// The time differences of consecutive envelopes fit an `i64`.
pub open spec fn gaps_fit(run: Seq<SessionEventEnvelope>) -> bool {
    forall|k: int| 0 < k < run.len() ==> i64::MIN <= #[trigger] run[k].time - run[k - 1].time <= i64::MAX
}

pub open spec fn all_chunks(run: Seq<SessionEventEnvelope>) -> bool {
    forall|k: int| 0 <= k < run.len() ==> #[trigger] chunk_of(run[k]) is Some
}

pub const MISPACKED_TEXT: &'static str = "gói nhầm loại sự kiện";

/// A packed row for a run of chunks; the step is the run's own, taken from its last chunk.
pub fn packed_chunks(run: &[SessionEventEnvelope]) -> (r: Result<PackedChunks, SessionError>)
    requires
        run@.len() > 0,
        gaps_fit(run@),
    ensures
        r is Ok <==> all_chunks(run@),
        r is Err ==> (r matches Err(SessionError::Unavailable(m)) && m@ == MISPACKED_TEXT@),
        r matches Ok(p) ==> {
            &&& p.turn == chunk_of(run@.last())->0.turn
            &&& p.step == chunk_of(run@.last())->0.step
            &&& p.chunks@.len() == run@.len()
            &&& forall|k: int| 0 <= k < run@.len() ==> #[trigger] p.chunks@[k] == chunk_of(run@[k])->0.chunk
            &&& p.dt@.len() == run@.len() - 1
            &&& forall|k: int| 0 <= k < run@.len() - 1 ==> #[trigger] p.dt@[k] == run@[k + 1].time - run@[k].time
        },
{
    let mut chunks: Vec<serde_json::Value> = Vec::new();
    let mut dt: Vec<i64> = Vec::new();
    let mut turn: u64 = 0;
    let mut step: u64 = 0;
    let mut index: usize = 0;
    while index < run.len()
        invariant
            index <= run@.len(),
            gaps_fit(run@),
            all_chunks(run@.take(index as int)),
            chunks@.len() == index,
            forall|k: int| 0 <= k < index ==> #[trigger] chunks@[k] == chunk_of(run@[k])->0.chunk,
            dt@.len() == if index == 0 { 0 } else { index - 1 },
            forall|k: int| 0 <= k < index - 1 ==> #[trigger] dt@[k] == run@[k + 1].time - run@[k].time,
            index > 0 ==> turn == chunk_of(run@[index - 1])->0.turn && step == chunk_of(run@[index - 1])->0.step,
        decreases run.len() - index,
    {
        let envelope = &run[index];
        let chunk = match &envelope.event {
            SessionEvent::AssistantChunk(c) => c,
            _ => {
                proof {
                    assert(chunk_of(run@[index as int]) is None);
                    assert(!all_chunks(run@));
                }
                return Err(SessionError::Unavailable(String::from_str(MISPACKED_TEXT)));
            },
        };
        turn = chunk.turn;
        step = chunk.step;
        chunks.push(chunk.chunk.clone());
        if index > 0 {
            assert(i64::MIN <= run@[index as int].time - run@[index - 1].time <= i64::MAX);
            dt.push(envelope.time - run[index - 1].time);
        }
        proof {
            assert(run@.take(index + 1) =~= run@.take(index as int).push(run@[index as int]));
        }
        index = index + 1;
    }
    proof {
        assert(run@.take(run@.len() as int) =~= run@);
    }
    Ok(PackedChunks { turn, step, dt, chunks })
}

/// The timestamp of chunk `k` of a packed row: the row's time plus the first `k` differences.
pub open spec fn time_at(time0: i64, dt: Seq<i64>, k: int) -> int
    decreases k,
{
    if k <= 0 {
        time0 as int
    } else {
        time_at(time0, dt, k - 1) + dt[k - 1]
    }
}

/// Does a packed row have one difference fewer than it has chunks (or no chunks at all).
pub open spec fn shape_fits(packed: PackedChunks) -> bool {
    packed.chunks@.len() == 0 || packed.dt@.len() + 1 == packed.chunks@.len()
}

pub open spec fn shape_refusal(seq0: u64, chunks: nat, dt: nat) -> Seq<char> {
    "hàng gói tại seq "@ + decimal_text(seq0 as nat) + " có "@ + decimal_text(chunks) + " mảnh nhưng "@
        + decimal_text(dt) + " khoảng thời gian"@
}

/// The envelope chunk `k` of a packed row opens to.
pub open spec fn unpacked_at(seq0: u64, time0: i64, packed: PackedChunks, k: int) -> SessionEventEnvelope {
    SessionEventEnvelope {
        seq: (seq0 + k) as u64,
        time: time_at(time0, packed.dt@, k) as i64,
        event: SessionEvent::AssistantChunk(
            AssistantChunk { turn: packed.turn, step: packed.step, chunk: packed.chunks@[k] },
        ),
        ignorable: None,
        source_event_seqs: None,
        surface_op: None,
    }
}

/// Open a packed row stored at `seq0` and `time0`. Its shape is checked before anything is
/// rebuilt: a broken row must be loud, since its product is `seq`s the rest of the system
/// trusts to be gapless.
pub fn unpack(seq0: u64, time0: i64, packed: PackedChunks) -> (r: Result<Vec<SessionEventEnvelope>, SessionError>)
    requires
        packed.chunks@.len() > 0 ==> seq0 + packed.chunks@.len() - 1 <= u64::MAX,
        shape_fits(packed) ==> forall|k: int| 0 <= k < packed.chunks@.len() ==> i64::MIN <= #[trigger] time_at(time0, packed.dt@, k) <= i64::MAX,
    ensures
        !shape_fits(packed) ==> (r matches Err(SessionError::Unavailable(m)) && m@ == shape_refusal(
            seq0,
            packed.chunks@.len(),
            packed.dt@.len(),
        )),
        shape_fits(packed) ==> (r matches Ok(v) && v@.len() == packed.chunks@.len() && forall|k: int|
            0 <= k < v@.len() ==> #[trigger] v@[k] == unpacked_at(seq0, time0, packed, k)),
{
    let n = packed.chunks.len();
    if n > 0 && packed.dt.len() != n - 1 {
        let m = String::from_str("hàng gói tại seq ").concat(decimal(seq0).as_str()).concat(" có ").concat(
            decimal(n as u64).as_str(),
        ).concat(" mảnh nhưng ").concat(decimal(packed.dt.len() as u64).as_str()).concat(" khoảng thời gian");
        return Err(SessionError::Unavailable(m));
    }
    let ghost whole = packed;
    let PackedChunks { turn, step, dt, chunks } = packed;
    let mut out: Vec<SessionEventEnvelope> = Vec::new();
    let mut time = time0;
    let mut index: usize = 0;
    while index < n
        invariant
            n == chunks@.len(),
            whole.chunks@ == chunks@,
            whole.dt@ == dt@,
            whole.turn == turn,
            whole.step == step,
            shape_fits(whole),
            n > 0 ==> seq0 + n - 1 <= u64::MAX,
            forall|k: int| 0 <= k < n ==> i64::MIN <= #[trigger] time_at(time0, dt@, k) <= i64::MAX,
            index <= n,
            index > 0 ==> time == time_at(time0, dt@, index - 1),
            index == 0 ==> time == time0,
            out@.len() == index,
            forall|k: int| 0 <= k < index ==> #[trigger] out@[k] == unpacked_at(seq0, time0, whole, k),
        decreases n - index,
    {
        if index > 0 {
            assert(time_at(time0, dt@, index as int) == time_at(time0, dt@, index - 1) + dt@[index - 1]);
            assert(i64::MIN <= time_at(time0, dt@, index as int) <= i64::MAX);
            time = time + dt[index - 1];
        }
        let envelope = SessionEventEnvelope {
            seq: seq0 + index as u64,
            time,
            event: SessionEvent::AssistantChunk(AssistantChunk { turn, step, chunk: chunks[index].clone() }),
            ignorable: None,
            source_event_seqs: None,
            surface_op: None,
        };
        out.push(envelope);
        index = index + 1;
    }
    Ok(out)
}

/// The packed row a run of chunks makes.
pub open spec fn packed_view(run: Seq<SessionEventEnvelope>, p: PackedChunks) -> bool {
    &&& p.turn == chunk_of(run.last())->0.turn
    &&& p.step == chunk_of(run.last())->0.step
    &&& p.chunks@.len() == run.len()
    &&& forall|k: int| 0 <= k < run.len() ==> #[trigger] p.chunks@[k] == chunk_of(run[k])->0.chunk
    &&& p.dt@.len() == run.len() - 1
    &&& forall|k: int| 0 <= k < run.len() - 1 ==> #[trigger] p.dt@[k] == run[k + 1].time - run[k].time
}

proof fn lemma_time_at(run: Seq<SessionEventEnvelope>, p: PackedChunks, k: int)
    requires
        0 <= k < run.len(),
        packed_view(run, p),
    ensures
        time_at(run[0].time, p.dt@, k) == run[k].time,
    decreases k,
{
    if k > 0 {
        lemma_time_at(run, p, k - 1);
        assert(p.dt@[k - 1] == run[k].time - run[k - 1].time);
    }
}

/// A packed row opens to exactly the run it was made from: every `seq`, every timestamp and
/// every payload, provided the run is one the plan packs (packable chunks of one step with
/// consecutive `seq`s).
pub proof fn law_packed_row_round_trip(run: Seq<SessionEventEnvelope>, p: PackedChunks)
    requires
        run.len() > 0,
        heads_run(run[0]),
        forall|k: int| 0 < k < run.len() ==> #[trigger] continues(run, 0, k),
        packed_view(run, p),
    ensures
        shape_fits(p),
        forall|k: int| 0 <= k < run.len() ==> i64::MIN <= #[trigger] time_at(run[0].time, p.dt@, k) <= i64::MAX,
        forall|k: int| 0 <= k < run.len() ==> #[trigger] unpacked_at(run[0].seq, run[0].time, p, k) == run[k],
{
    assert forall|k: int| 0 <= k < run.len() implies i64::MIN <= #[trigger] time_at(run[0].time, p.dt@, k) <= i64::MAX by {
        lemma_time_at(run, p, k);
    }
    assert forall|k: int| 0 <= k < run.len() implies #[trigger] unpacked_at(run[0].seq, run[0].time, p, k) == run[k] by {
        lemma_time_at(run, p, k);
        lemma_seq_steps(run, k);
        let last = run.len() - 1;
        if last > 0 {
            assert(continues(run, 0, last));
        }
        if k > 0 {
            assert(continues(run, 0, k));
        }
        let c = chunk_of(run[k])->0;
        assert(c.turn == p.turn && c.step == p.step);
        assert(run[k].event == SessionEvent::AssistantChunk(c));
    }
}

/// What one stored row of a batch reads back as: a plain row its envelope, a packed row the
/// envelopes `unpack` rebuilds from its first `seq` and time.
pub open spec fn opened_row(events: Seq<SessionEventEnvelope>, row: RowPlan, p: PackedChunks) -> Seq<SessionEventEnvelope> {
    match row {
        RowPlan::Plain(i) => seq![events[i as int]],
        RowPlan::Packed(s, n) => Seq::new(n as nat, |k: int| unpacked_at(events[s as int].seq, events[s as int].time, p, k)),
    }
}

/// The stored rows read back in key order, row after row; `packs[q]` is what row `q` holds
/// when it is packed.
pub open spec fn opened(events: Seq<SessionEventEnvelope>, rows: Seq<RowPlan>, packs: Seq<PackedChunks>) -> Seq<SessionEventEnvelope>
    decreases rows.len(),
{
    if rows.len() == 0 || packs.len() == 0 {
        Seq::empty()
    } else {
        opened_row(events, rows[0], packs[0]) + opened(events, rows.drop_first(), packs.drop_first())
    }
}

/// Each packed row of the plan holds the packing of its run.
pub open spec fn packs_of(events: Seq<SessionEventEnvelope>, rows: Seq<RowPlan>, packs: Seq<PackedChunks>) -> bool {
    &&& packs.len() == rows.len()
    &&& forall|q: int| 0 <= q < rows.len() ==> (#[trigger] rows[q] matches RowPlan::Packed(s, n)
        ==> packed_view(events.subrange(s as int, s + n), packs[q]))
}

proof fn lemma_packed_head(events: Seq<SessionEventEnvelope>, i: int, p: PackedChunks)
    requires
        0 <= i < events.len(),
        events.len() <= usize::MAX,
        run_len(events, i) >= 2,
        packed_view(events.subrange(i, i + run_len(events, i)), p),
    ensures
        i + run_len(events, i) <= events.len(),
        opened_row(events, RowPlan::Packed(i as usize, run_len(events, i) as usize), p) == events.subrange(i, i + run_len(events, i)),
        shape_fits(p),
{
    let r = run_len(events, i);
    lemma_run_len(events, i);
    let run = events.subrange(i, i + r);
    assert forall|k: int| 0 < k < run.len() implies #[trigger] continues(run, 0, k) by {
        assert(continues(events, i, i + k));
        assert(run[k] == events[i + k]);
        assert(run[k - 1] == events[i + k - 1]);
        assert(run[0] == events[i]);
    }
    law_packed_row_round_trip(run, p);
    assert(opened_row(events, RowPlan::Packed(i as usize, r as usize), p) =~= run);
}

#[verifier::rlimit(30)]
proof fn lemma_opened_from(events: Seq<SessionEventEnvelope>, i: int, packs: Seq<PackedChunks>)
    requires
        0 <= i <= events.len(),
        events.len() <= usize::MAX,
        packs_of(events, plan_from(events, i), packs),
    ensures
        opened(events, plan_from(events, i), packs) == events.subrange(i, events.len() as int),
        forall|q: int| 0 <= q < plan_from(events, i).len() ==> (#[trigger] plan_from(events, i)[q] matches RowPlan::Packed(_, _)
            ==> shape_fits(packs[q])),
    decreases events.len() - i,
{
    let rows = plan_from(events, i);
    if i < events.len() {
        let r = run_len(events, i);
        lemma_run_len(events, i);
        let step: int = if r >= 2 { r as int } else { 1 };
        let rest = plan_from(events, i + step);
        let row = if r >= 2 { RowPlan::Packed(i as usize, r as usize) } else { RowPlan::Plain(i as usize) };
        assert(rows == seq![row] + rest);
        assert(rows[0] == row);
        assert(rows.drop_first() =~= rest);
        let tail = packs.drop_first();
        assert(packs_of(events, rest, tail)) by {
            assert forall|q: int| 0 <= q < rest.len() implies (#[trigger] rest[q] matches RowPlan::Packed(s, n)
                ==> packed_view(events.subrange(s as int, s + n), tail[q])) by {
                assert(rows[q + 1] == rest[q]);
            }
        }
        lemma_opened_from(events, i + step, tail);
        let head = opened_row(events, row, packs[0]);
        assert(head == events.subrange(i, i + step)) by {
            if r >= 2 {
                lemma_packed_head(events, i, packs[0]);
            } else {
                assert(head =~= events.subrange(i, i + 1));
            }
        }
        assert(opened(events, rows, packs) == head + opened(events, rest, tail));
        assert(opened(events, rows, packs) =~= events.subrange(i, events.len() as int));
        assert forall|q: int| 0 <= q < rows.len() implies (#[trigger] rows[q] matches RowPlan::Packed(_, _)
            ==> shape_fits(packs[q])) by {
            if q > 0 {
                assert(rows[q] == rest[q - 1]);
                assert(packs[q] == tail[q - 1]);
            } else if r >= 2 {
                lemma_packed_head(events, i, packs[0]);
            }
        }
    } else {
        assert(opened(events, rows, packs) =~= events.subrange(i, events.len() as int));
    }
}

/// Storing a batch and reading its rows back in key order gives the batch again: every
/// envelope, with its `seq`, time and payload, although runs of chunks of one step share a
/// row. The single-row encoding is the store's and taken to read back what it wrote.
pub proof fn law_batch_round_trip(events: Seq<SessionEventEnvelope>, packs: Seq<PackedChunks>)
    requires
        events.len() <= usize::MAX,
        packs_of(events, plan(events), packs),
    ensures
        opened(events, plan(events), packs) == events,
        forall|q: int| 0 <= q < plan(events).len() ==> (#[trigger] plan(events)[q] matches RowPlan::Packed(_, _)
            ==> shape_fits(packs[q])),
{
    lemma_opened_from(events, 0, packs);
    assert(events.subrange(0, events.len() as int) =~= events);
}

proof fn lemma_seq_steps(run: Seq<SessionEventEnvelope>, k: int)
    requires
        0 <= k < run.len(),
        forall|j: int| 0 < j < run.len() ==> #[trigger] continues(run, 0, j),
    ensures
        run[k].seq == run[0].seq + k,
    decreases k,
{
    if k > 0 {
        lemma_seq_steps(run, k - 1);
        assert(continues(run, 0, k));
    }
}

} // verus!
