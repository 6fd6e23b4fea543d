//! The decisions an open session makes around its store: when to write, where a fork may cut,
//! and which turn a crash left open.

use vstd::prelude::*;

use crate::clock::now_ms;
use crate::session::error::SessionError;
use crate::session::event::{
    SessionEvent, SessionEventEnvelope, TurnEnd, TurnEndReason, is_surface_event,
};
use crate::session::log::{
    SessionLog, law_log_replays, lemma_surface_prefix, open_turn, replayable, surface_of,
};
use crate::session::message::{ContentBlock, Message, same_message};
use crate::session::store::{NewSession, SessionHeader};
use crate::text::{blank, is_blank, trim, trimmed};

verus! {

/// How many stream chunks may wait in memory before a forced write.
pub const PENDING_LIMIT: usize = 100;

/// Write now, or keep batching: only raw stream chunks wait, and never more than the limit.
pub fn should_flush(event: &SessionEvent, pending: usize) -> (r: bool)
    ensures
        r == (!(*event is AssistantChunk) || pending >= PENDING_LIMIT),
{
    let dense = match event {
        SessionEvent::AssistantChunk(_) => true,
        _ => false,
    };
    !dense || pending >= PENDING_LIMIT
}

/// The turn a crash left open at the end of the log, which reopening closes with `interrupted`.
pub fn turn_to_close(log: &SessionLog) -> (r: Option<u64>)
    ensures
        log.events_seq().len() == 0 ==> r is None,
        log.events_seq().len() > 0 ==> r == open_turn(log.events_seq(), log.events_seq().len() - 1),
{
    if log.is_empty() {
        return None;
    }
    let last = log.next_seq() - 1;
    log.open_turn_at(last)
}

/// Where a fork may cut: the boundary (inclusive), defaulting to the last event. Never rounded:
/// an empty source, a boundary past the end or one inside an open turn is refused.
pub fn fork_boundary(log: &SessionLog, boundary: Option<u64>) -> (r: Result<u64, SessionError>)
    ensures
        log.events_seq().len() == 0 ==> (r matches Err(SessionError::InvalidBoundary { boundary: b, .. })
            && b == (match boundary {
            Some(x) => x,
            None => 0,
        })),
        log.events_seq().len() > 0 ==> ({
            let last = log.events_seq().len() - 1;
            let b = match boundary {
                Some(x) => x as int,
                None => last,
            };
            if b > last {
                r matches Err(SessionError::InvalidBoundary { boundary: x, .. }) && x == b
            } else {
                match open_turn(log.events_seq(), b) {
                    Some(turn) => r matches Err(SessionError::OpenTurn { boundary: x, turn: t })
                        && x == b && t == turn,
                    None => r == Ok::<u64, SessionError>(b as u64),
                }
            }
        }),
{
    if log.is_empty() {
        let b = match boundary {
            Some(x) => x,
            None => 0,
        };
        return Err(SessionError::InvalidBoundary {
            boundary: b,
            reason: "phiên nguồn chưa có sự kiện nào",
        });
    }
    let last = log.next_seq() - 1;
    let b = match boundary {
        Some(x) => x,
        None => last,
    };
    if b > last {
        return Err(SessionError::InvalidBoundary {
            boundary: b,
            reason: "vượt quá sự kiện cuối của phiên nguồn",
        });
    }
    match log.open_turn_at(b) {
        Some(turn) => Err(SessionError::OpenTurn { boundary: b, turn }),
        None => Ok(b),
    }
}

/// The envelopes a fork inherits: every event up to and including the boundary, unchanged.
pub open spec fn fork_seed(log: SessionLog, boundary: u64) -> Seq<SessionEventEnvelope> {
    log.events_seq().take(boundary + 1)
}

/// The envelopes a fork inherits: every event up to and including the boundary.
pub fn fork_seed_events(log: &SessionLog, boundary: u64) -> (r: &[SessionEventEnvelope])
    requires
        boundary < log.events_seq().len(),
    ensures
        r@ == fork_seed(*log, boundary),
{
    let events = log.events();
    let n: usize = events.len();
    let cut: usize = boundary as usize + 1;
    assert(cut <= n);
    let (seed, _) = events.split_at(cut);
    seed
}

/// A fork's seed replays: a closed prefix of a well-formed log is itself a log replay accepts,
/// continuing at `boundary + 1`, so the child replays exactly what the parent had sent.
pub proof fn law_fork_seed_replays(log: &SessionLog, boundary: u64)
    requires
        log.wf(),
        boundary < log.events_seq().len(),
    ensures
        replayable(fork_seed(*log, boundary)),
        fork_seed(*log, boundary).len() == boundary + 1,
        forall|i: int| 0 <= i <= boundary ==> #[trigger] fork_seed(*log, boundary)[i] == log.events_seq()[i],
{
    let evs = log.events_seq();
    let n = evs.len() as int;
    let k = boundary + 1;
    law_log_replays(log);
    let seed = evs.take(k);
    assert forall|i: int| 0 <= i < seed.len() implies #[trigger] seed[i].seq == i by {
        assert(seed[i] == evs[i]);
    }
    if surface_of(seed) is None {
        lemma_surface_prefix(evs, k, n);
        assert(evs.take(n) =~= evs);
    }
}

/// The creation request for a fork: the parent's directory, origin, depth and preset, the parent
/// as lineage, and the inherited prefix as the durable seed length.
pub fn fork_request(parent: &SessionHeader, source: &str, boundary: u64) -> (r: NewSession)
    requires
        boundary < u64::MAX,
    ensures
        r.id is None,
        r.cwd == parent.cwd,
        r.parent_session matches Some(p) && p@ == source@,
        r.seed_length == Some((boundary + 1) as u64),
        r.origin == parent.origin,
        r.delegation_depth == parent.delegation_depth,
        r.agent_preset == parent.agent_preset,
{
    NewSession {
        id: None,
        cwd: match &parent.cwd {
            Some(c) => Some(c.clone()),
            None => None,
        },
        parent_session: Some(String::from_str(source)),
        seed_length: Some(boundary + 1),
        origin: parent.origin,
        delegation_depth: parent.delegation_depth,
        agent_preset: match &parent.agent_preset {
            Some(a) => Some(a.clone()),
            None => None,
        },
    }
}

/// Why an event could not be stamped: the clock gives no time after 1970.
pub const CLOCK_UNREADABLE: &'static str = "đồng hồ hệ thống không cho một thời điểm sau năm 1970";

/// The refusal when the clock cannot stamp an event.
pub open spec fn is_clock_refusal(e: SessionError) -> bool {
    e matches SessionError::Unavailable(m) && m@ == CLOCK_UNREADABLE@
}

/// An append refused because the clock cannot stamp it.
pub open spec fn clock_refused(r: Result<(u64, bool), SessionError>) -> bool {
    r matches Err(e) && is_clock_refusal(e)
}

/// An open session: its header, its log, and how many of the log's newest events the store does
/// not hold yet. Writing is the caller's; the session says when a write is due and what to write.
pub struct Session {
    header: SessionHeader,
    log: SessionLog,
    /// How many of the newest events are not yet on disk.
    pending: usize,
}

impl Session {
    pub closed spec fn header_view(&self) -> SessionHeader {
        self.header
    }

    pub closed spec fn log_view(&self) -> SessionLog {
        self.log
    }

    /// The events not yet on disk, oldest first.
    pub closed spec fn pending_view(&self) -> Seq<SessionEventEnvelope> {
        self.log.events_seq().skip(self.log.events_seq().len() - self.pending)
    }

    /// The log is well formed and the pending events are among its events.
    pub closed spec fn wf(&self) -> bool {
        &&& self.log.wf()
        &&& self.pending <= self.log.events_seq().len()
    }

    /// A session over a log that is already stored: nothing pending.
    pub fn new(header: SessionHeader, log: SessionLog) -> (s: Session)
        requires
            log.wf(),
        ensures
            s.wf(),
            s.header_view() == header,
            s.log_view() == log,
            s.pending_view().len() == 0,
    {
        Session { header, log, pending: 0 }
    }

    pub fn header(&self) -> (r: &SessionHeader)
        ensures
            *r == self.header_view(),
    {
        &self.header
    }

    pub fn id(&self) -> (r: &str)
        ensures
            r@ == self.header_view().id@,
    {
        self.header.id.as_str()
    }

    pub fn log(&self) -> (r: &SessionLog)
        ensures
            *r == self.log_view(),
    {
        &self.log
    }

    /// The history the model sees, projected from the log.
    pub fn derive_messages(&self) -> (r: Vec<Message>)
        requires
            self.wf(),
        ensures
            r@.len() == crate::session::log::projection(self.log_view().events_seq(), self.log_view().surface_nodes()).len(),
            forall|i: int| 0 <= i < r@.len() ==> same_message(#[trigger] r@[i],
                crate::session::log::projection(self.log_view().events_seq(), self.log_view().surface_nodes())[i]),
    {
        self.log.derive_messages()
    }

    /// Stage the event just appended: it joins the pending events, and a write is due unless it
    /// is a stream chunk (`dense`) and fewer than the limit are waiting.
    fn stage(&mut self, dense: bool) -> (due: bool)
        requires
            old(self).log.wf(),
            old(self).pending < old(self).log.events_seq().len(),
        ensures
            final(self).wf(),
            final(self).log == old(self).log,
            final(self).header == old(self).header,
            final(self).pending == old(self).pending + 1,
            due == (!dense || old(self).pending + 1 >= PENDING_LIMIT),
    {
        let total: usize = self.log.events().len();
        assert(self.pending < total);
        self.pending = self.pending + 1;
        !dense || self.pending >= PENDING_LIMIT
    }

    /// Append a log-only event at `time`; a write is due unless it is a stream chunk that may wait.
    pub fn append_at(&mut self, event: SessionEvent, time: i64) -> (r: Result<(u64, bool), SessionError>)
        requires
            old(self).wf(),
            old(self).log_view().events_seq().len() < usize::MAX,
        ensures
            final(self).wf(),
            final(self).header_view() == old(self).header_view(),
            r is Ok <==> !is_surface_event(event),
            r matches Ok((seq, due)) ==> seq == old(self).log_view().events_seq().len()
                && final(self).log_view().events_seq().drop_last() == old(self).log_view().events_seq()
                && final(self).log_view().events_seq().last().event == event
                && final(self).log_view().events_seq().last().time == time
                && final(self).log_view().surface_nodes() == old(self).log_view().surface_nodes()
                && final(self).pending_view() == old(self).pending_view().push(final(self).log_view().events_seq().last())
                && due == (!(event is AssistantChunk) || old(self).pending_view().len() + 1 >= PENDING_LIMIT),
            r is Err ==> final(self).log_view().events_seq() == old(self).log_view().events_seq()
                && final(self).pending_view() == old(self).pending_view(),
    {
        let ghost before = self.log.events_seq();
        let dense = matches!(event, SessionEvent::AssistantChunk(_));
        match self.log.append(event, time) {
            Ok(seq) => {
                proof {
                    assert(self.log.events_seq().drop_last() =~= before);
                }
                let due = self.stage(dense);
                proof {
                    lemma_pending_grows(before, self.log.events_seq(), (self.pending - 1) as int);
                }
                Ok((seq, due))
            },
            Err(e) => Err(e),
        }
    }

    /// Append a surface event at the end of history, at `time`.
    pub fn append_surface_at(&mut self, event: SessionEvent, time: i64) -> (r: Result<(u64, bool), SessionError>)
        requires
            old(self).wf(),
            old(self).log_view().events_seq().len() < usize::MAX,
        ensures
            final(self).wf(),
            final(self).header_view() == old(self).header_view(),
            r is Ok <==> is_surface_event(event),
            r matches Ok((seq, due)) ==> seq == old(self).log_view().events_seq().len()
                && final(self).log_view().events_seq().drop_last() == old(self).log_view().events_seq()
                && final(self).log_view().events_seq().last().event == event
                && final(self).log_view().events_seq().last().time == time
                && final(self).log_view().surface_nodes() == old(self).log_view().surface_nodes().push(seq)
                && final(self).pending_view() == old(self).pending_view().push(final(self).log_view().events_seq().last())
                && due == (!(event is AssistantChunk) || old(self).pending_view().len() + 1 >= PENDING_LIMIT),
            r is Err ==> final(self).log_view().events_seq() == old(self).log_view().events_seq()
                && final(self).pending_view() == old(self).pending_view(),
    {
        let ghost before = self.log.events_seq();
        let dense = matches!(event, SessionEvent::AssistantChunk(_));
        match self.log.append_surface(event, time) {
            Ok(seq) => {
                proof {
                    assert(self.log.events_seq().drop_last() =~= before);
                }
                let due = self.stage(dense);
                proof {
                    lemma_pending_grows(before, self.log.events_seq(), (self.pending - 1) as int);
                }
                Ok((seq, due))
            },
            Err(e) => Err(e),
        }
    }

    /// Append a surface event at `time` shadowing nodes `start..end`; nothing is deleted, only hidden.
    pub fn append_replacing_at(&mut self, event: SessionEvent, start: usize, end: usize, time: i64) -> (r: Result<(u64, bool), SessionError>)
        requires
            old(self).wf(),
            old(self).log_view().events_seq().len() < usize::MAX,
        ensures
            final(self).wf(),
            final(self).header_view() == old(self).header_view(),
            r is Ok <==> (is_surface_event(event) && start <= end <= old(self).log_view().surface_nodes().len()),
            r matches Ok((seq, due)) ==> seq == old(self).log_view().events_seq().len()
                && final(self).log_view().events_seq().drop_last() == old(self).log_view().events_seq()
                && final(self).log_view().events_seq().last().event == event
                && final(self).log_view().events_seq().last().time == time
                && final(self).log_view().surface_nodes() == old(self).log_view().surface_nodes().subrange(0, start as int)
                    + seq![seq] + old(self).log_view().surface_nodes().subrange(end as int, old(self).log_view().surface_nodes().len() as int)
                && final(self).pending_view() == old(self).pending_view().push(final(self).log_view().events_seq().last())
                && due == (!(event is AssistantChunk) || old(self).pending_view().len() + 1 >= PENDING_LIMIT),
            r is Err ==> final(self).log_view().events_seq() == old(self).log_view().events_seq()
                && final(self).pending_view() == old(self).pending_view(),
    {
        let ghost before = self.log.events_seq();
        let dense = matches!(event, SessionEvent::AssistantChunk(_));
        match self.log.append_replacing(event, start, end, time) {
            Ok(seq) => {
                proof {
                    let evs = self.log.events_seq();
                    assert(evs.drop_last() =~= before) by {
                        assert(evs.take(before.len() as int) == before);
                    }
                }
                let due = self.stage(dense);
                proof {
                    lemma_pending_grows(before, self.log.events_seq(), (self.pending - 1) as int);
                }
                Ok((seq, due))
            },
            Err(e) => Err(e),
        }
    }

    /// Append a log-only event stamped with the current time.
    pub fn append(&mut self, event: SessionEvent) -> (r: Result<(u64, bool), SessionError>)
        requires
            old(self).wf(),
            old(self).log_view().events_seq().len() < usize::MAX,
        ensures
            final(self).wf(),
            final(self).header_view() == old(self).header_view(),
            r is Ok ==> !is_surface_event(event),
            !is_surface_event(event) ==> (r is Ok || clock_refused(r)),
            is_surface_event(event) ==> r is Err,
            r matches Ok((seq, due)) ==> seq == old(self).log_view().events_seq().len()
                && final(self).log_view().events_seq().drop_last() == old(self).log_view().events_seq()
                && final(self).log_view().events_seq().last().event == event
                && final(self).log_view().surface_nodes() == old(self).log_view().surface_nodes()
                && final(self).pending_view() == old(self).pending_view().push(final(self).log_view().events_seq().last())
                && due == (!(event is AssistantChunk) || old(self).pending_view().len() + 1 >= PENDING_LIMIT),
            r is Err ==> final(self).log_view().events_seq() == old(self).log_view().events_seq()
                && final(self).pending_view() == old(self).pending_view(),
    {
        match now_ms() {
            Some(time) => self.append_at(event, time),
            None => Err(SessionError::Unavailable(String::from_str(CLOCK_UNREADABLE))),
        }
    }

    /// Append a surface event at the end of history, stamped with the current time.
    pub fn append_surface(&mut self, event: SessionEvent) -> (r: Result<(u64, bool), SessionError>)
        requires
            old(self).wf(),
            old(self).log_view().events_seq().len() < usize::MAX,
        ensures
            final(self).wf(),
            final(self).header_view() == old(self).header_view(),
            r is Ok ==> is_surface_event(event),
            is_surface_event(event) ==> (r is Ok || clock_refused(r)),
            !(is_surface_event(event)) ==> r is Err,
            r matches Ok((seq, due)) ==> seq == old(self).log_view().events_seq().len()
                && final(self).log_view().events_seq().drop_last() == old(self).log_view().events_seq()
                && final(self).log_view().events_seq().last().event == event
                && final(self).log_view().surface_nodes() == old(self).log_view().surface_nodes().push(seq)
                && final(self).pending_view() == old(self).pending_view().push(final(self).log_view().events_seq().last())
                && due == (!(event is AssistantChunk) || old(self).pending_view().len() + 1 >= PENDING_LIMIT),
            r is Err ==> final(self).log_view().events_seq() == old(self).log_view().events_seq()
                && final(self).pending_view() == old(self).pending_view(),
    {
        match now_ms() {
            Some(time) => self.append_surface_at(event, time),
            None => Err(SessionError::Unavailable(String::from_str(CLOCK_UNREADABLE))),
        }
    }

    /// Append a surface event shadowing nodes `start..end`, stamped with the current time.
    pub fn append_replacing(&mut self, event: SessionEvent, start: usize, end: usize) -> (r: Result<(u64, bool), SessionError>)
        requires
            old(self).wf(),
            old(self).log_view().events_seq().len() < usize::MAX,
        ensures
            final(self).wf(),
            final(self).header_view() == old(self).header_view(),
            r is Ok ==> (is_surface_event(event) && start <= end <= old(self).log_view().surface_nodes().len()),
            (is_surface_event(event) && start <= end <= old(self).log_view().surface_nodes().len()) ==> (r is Ok || clock_refused(r)),
            !((is_surface_event(event) && start <= end <= old(self).log_view().surface_nodes().len())) ==> r is Err,
            r matches Ok((seq, due)) ==> seq == old(self).log_view().events_seq().len()
                && final(self).log_view().events_seq().drop_last() == old(self).log_view().events_seq()
                && final(self).log_view().events_seq().last().event == event
                && final(self).log_view().surface_nodes() == old(self).log_view().surface_nodes().subrange(0, start as int)
                    + seq![seq] + old(self).log_view().surface_nodes().subrange(end as int, old(self).log_view().surface_nodes().len() as int)
                && final(self).pending_view() == old(self).pending_view().push(final(self).log_view().events_seq().last())
                && due == (!(event is AssistantChunk) || old(self).pending_view().len() + 1 >= PENDING_LIMIT),
            r is Err ==> final(self).log_view().events_seq() == old(self).log_view().events_seq()
                && final(self).pending_view() == old(self).pending_view(),
    {
        match now_ms() {
            Some(time) => self.append_replacing_at(event, start, end, time),
            None => Err(SessionError::Unavailable(String::from_str(CLOCK_UNREADABLE))),
        }
    }

    /// Close a turn a crash left open by appending `turn/end` with `interrupted`, stamped with the
    /// current time; the log is never truncated. `None` when no turn is open.
    pub fn heal_open_turn(&mut self) -> (r: Result<Option<(u64, bool)>, SessionError>)
        requires
            old(self).wf(),
            old(self).log_view().events_seq().len() < usize::MAX,
        ensures
            final(self).wf(),
            final(self).header_view() == old(self).header_view(),
            ({
                let evs = old(self).log_view().events_seq();
                let open = if evs.len() == 0 { None } else { open_turn(evs, evs.len() - 1) };
                match open {
                    None => r == Ok::<Option<(u64, bool)>, SessionError>(None) && final(self).log_view() == old(self).log_view()
                        && final(self).pending_view() == old(self).pending_view(),
                    Some(turn) => (r matches Ok(Some((seq, due))) && seq == evs.len() && due
                        && final(self).log_view().events_seq().drop_last() == evs
                        && final(self).log_view().events_seq().last().event == SessionEvent::TurnEnd(
                        TurnEnd { turn, reason: TurnEndReason::Interrupted },
                    ) && final(self).log_view().surface_nodes() == old(self).log_view().surface_nodes()
                        && final(self).pending_view() == old(self).pending_view().push(
                        final(self).log_view().events_seq().last(),
                    )) || (r matches Err(e) && is_clock_refusal(e)
                        && final(self).log_view().events_seq() == evs
                        && final(self).pending_view() == old(self).pending_view()),
                }
            }),
    {
        let turn = match turn_to_close(&self.log) {
            Some(turn) => turn,
            None => return Ok(None),
        };
        match self.append(SessionEvent::TurnEnd(TurnEnd { turn, reason: TurnEndReason::Interrupted })) {
            Ok(step) => Ok(Some(step)),
            Err(e) => Err(e),
        }
    }

    /// What a flush writes, in one transaction: every pending event, oldest first.
    pub fn pending(&self) -> (r: &[SessionEventEnvelope])
        requires
            self.wf(),
        ensures
            r@ == self.pending_view(),
    {
        let events = self.log.events();
        let (_, tail) = events.split_at(events.len() - self.pending);
        tail
    }

    /// The store took the pending events. A failed write changes nothing, so the batch is
    /// written again next time rather than leaving a `seq` gap.
    pub fn flushed(&mut self)
        requires
            old(self).wf(),
        ensures
            final(self).wf(),
            final(self).pending_view().len() == 0,
            final(self).log_view() == old(self).log_view(),
            final(self).header_view() == old(self).header_view(),
    {
        self.pending = 0;
    }

    /// The store took the new title; titles live in metadata, not the log.
    pub fn set_title(&mut self, title: String)
        requires
            old(self).wf(),
        ensures
            final(self).wf(),
            final(self).header_view() == (SessionHeader { title: Some(title), ..old(self).header_view() }),
            final(self).log_view() == old(self).log_view(),
            final(self).pending_view() == old(self).pending_view(),
    {
        self.header.title = Some(title);
    }
}

/// One more event at the end of the log is one more pending event.
proof fn lemma_pending_grows(before: Seq<SessionEventEnvelope>, after: Seq<SessionEventEnvelope>, k: int)
    requires
        after.len() == before.len() + 1,
        after.drop_last() == before,
        0 <= k <= before.len(),
    ensures
        after.skip(after.len() - (k + 1)) == before.skip(before.len() - k).push(after.last()),
{
    assert(after.skip(after.len() - (k + 1)) =~= before.skip(before.len() - k).push(after.last())) by {
        assert forall|i: int| 0 <= i < k implies #[trigger] after.skip(after.len() - (k + 1))[i] == before.skip(before.len() - k)[i] by {
            assert(after[before.len() - k + i] == after.drop_last()[before.len() - k + i]);
        }
    }
}

/// How many characters of a message a session list shows.
pub const PREVIEW_CHARS: usize = 160;

/// The text blocks of a message joined by single spaces.
pub open spec fn joined_text(blocks: Seq<ContentBlock>) -> Seq<char>
    decreases blocks.len(),
{
    if blocks.len() == 0 {
        Seq::empty()
    } else {
        let head = joined_text(blocks.drop_last());
        match blocks.last() {
            ContentBlock::Text { text } => if text_blocks(blocks.drop_last()) == 0 {
                text@
            } else {
                head + " "@ + text@
            },
            _ => head,
        }
    }
}

/// How many text blocks a message holds.
pub open spec fn text_blocks(blocks: Seq<ContentBlock>) -> nat
    decreases blocks.len(),
{
    if blocks.len() == 0 {
        0
    } else {
        text_blocks(blocks.drop_last()) + if blocks.last() is Text { 1nat } else { 0nat }
    }
}

/// Newlines and carriage returns flattened to spaces.
pub open spec fn flattened(s: Seq<char>) -> Seq<char> {
    s.map_values(|c: char| if c == '\n' || c == '\r' { ' ' } else { c })
}

/// The subtitle of a session in a list: its message's text, trimmed, cut to 160 characters with
/// an ellipsis, on one line; nothing when the text is blank.
pub open spec fn preview_of_text(text: Seq<char>) -> Option<Seq<char>> {
    let t = trimmed(text);
    if blank(t) {
        None
    } else if t.len() > PREVIEW_CHARS {
        Some(flattened(t.take(PREVIEW_CHARS as int) + seq!['…']))
    } else {
        Some(flattened(t))
    }
}

pub fn preview(message: &Message) -> (r: Option<String>)
    ensures
        match preview_of_text(joined_text(message.content@)) {
            Some(t) => r matches Some(s) && s@ == t,
            None => r is None,
        },
{
    let mut text = String::new();
    let mut count: usize = 0;
    let mut i: usize = 0;
    while i < message.content.len()
        invariant
            i <= message.content@.len(),
            text@ == joined_text(message.content@.take(i as int)),
            count == text_blocks(message.content@.take(i as int)),
            count <= i,
        decreases message.content.len() - i,
    {
        proof {
            assert(message.content@.take(i + 1).drop_last() =~= message.content@.take(i as int));
            assert(message.content@.take(i + 1).last() == message.content@[i as int]);
        }
        match &message.content[i] {
            ContentBlock::Text { text: t } => {
                if count > 0 {
                    text.append(" ");
                    text.append(t.as_str());
                } else {
                    text = t.clone();
                }
                count = count + 1;
            },
            _ => {},
        }
        i = i + 1;
    }
    proof {
        assert(message.content@.take(message.content.len() as int) =~= message.content@);
    }
    let t = trim(text.as_str());
    if is_blank(t) {
        return None;
    }
    let n = t.unicode_len();
    let mut out = String::new();
    let stop = if n > PREVIEW_CHARS { PREVIEW_CHARS } else { n };
    let mut k: usize = 0;
    while k < stop
        invariant
            n == t@.len(),
            stop <= n,
            k <= stop,
            out@ == flattened(t@.take(k as int)),
        decreases stop - k,
    {
        let c = t.get_char(k);
        if c == '\n' || c == '\r' {
            out.append(" ");
        } else {
            out.append(t.substring_char(k, k + 1));
        }
        proof {
            reveal_strlit(" ");
            assert(out@ =~= flattened(t@.take(k + 1)));
        }
        k = k + 1;
    }
    if n > PREVIEW_CHARS {
        out.append("…");
        proof {
            reveal_strlit("…");
            assert(out@ =~= flattened(t@.take(PREVIEW_CHARS as int) + seq!['…']));
        }
    } else {
        proof {
            assert(t@.take(n as int) =~= t@);
        }
    }
    Some(out)
}

} // verus!
