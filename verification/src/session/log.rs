//! In-memory log: an append-only vector plus the projection to model history. There is no
//! parallel history list anywhere; the projection is computed from the log every time.

use vstd::prelude::*;

use crate::session::error::SessionError;
use crate::session::event::{
    SessionEvent, SessionEventEnvelope, is_surface_event, message_of, shape_ok,
};
use crate::session::message::{Message, same_message};
use crate::session::surface::{Surface, SurfaceOp, SurfaceStep, step};

verus! {

/// Every envelope's `seq` is its position.
pub open spec fn gapless(evs: Seq<SessionEventEnvelope>) -> bool {
    forall|i: int| 0 <= i < evs.len() ==> #[trigger] evs[i].seq == i
}

pub open spec fn sources_view(sources: Option<Vec<u64>>) -> Option<Seq<u64>> {
    match sources {
        Some(v) => Some(v@),
        None => None,
    }
}

/// One envelope folded into the surface model, or `None` when the log refuses it.
pub open spec fn fold_one(model: (Seq<u64>, nat), env: SessionEventEnvelope) -> Option<(Seq<u64>, nat)> {
    if !shape_ok(env) {
        None
    } else {
        match env.surface_op {
            None => Some(model),
            Some(op) => match step(model.0, model.1, env.seq, op, sources_view(env.source_event_seqs)) {
                SurfaceStep::Next(nodes, generation) => Some((nodes, generation)),
                _ => None,
            },
        }
    }
}

/// The surface a sequence of envelopes builds, or `None` when one of them is refused.
pub open spec fn surface_of(evs: Seq<SessionEventEnvelope>) -> Option<(Seq<u64>, nat)>
    decreases evs.len(),
{
    if evs.len() == 0 {
        Some((Seq::empty(), 0))
    } else {
        match surface_of(evs.drop_last()) {
            Some(model) => fold_one(model, evs.last()),
            None => None,
        }
    }
}

/// A stored log that replay accepts: gapless, and every envelope folds.
pub open spec fn replayable(evs: Seq<SessionEventEnvelope>) -> bool {
    gapless(evs) && surface_of(evs) is Some
}

/// The history the model sees: the surface nodes, each mapped to the message its event projects.
pub open spec fn projection(evs: Seq<SessionEventEnvelope>, nodes: Seq<u64>) -> Seq<Message>
    decreases nodes.len(),
{
    if nodes.len() == 0 {
        Seq::empty()
    } else {
        let rest = projection(evs, nodes.drop_last());
        let seq = nodes.last();
        if seq < evs.len() {
            match message_of(evs[seq as int].event) {
                Some(m) => rest.push(m),
                None => rest,
            }
        } else {
            rest
        }
    }
}

/// The turn open at position `upto` scanning back to the start: the last `turn/start` or
/// `turn/end` at or before it, when that is a start.
pub open spec fn open_turn(evs: Seq<SessionEventEnvelope>, upto: int) -> Option<u64>
    decreases upto + 1,
{
    if upto < 0 || upto >= evs.len() {
        None
    } else {
        match evs[upto].event {
            SessionEvent::TurnStart(t) => Some(t.turn),
            SessionEvent::TurnEnd(_) => None,
            _ => open_turn(evs, upto - 1),
        }
    }
}

pub proof fn lemma_surface_generation(evs: Seq<SessionEventEnvelope>)
    ensures
        surface_of(evs) matches Some(m) ==> m.1 <= evs.len(),
    decreases evs.len(),
{
    if evs.len() > 0 {
        lemma_surface_generation(evs.drop_last());
    }
}

pub struct SessionLog {
    /// The position in this vector is the `seq`.
    events: Vec<SessionEventEnvelope>,
    surface: Surface,
}

impl SessionLog {
    pub closed spec fn events_seq(&self) -> Seq<SessionEventEnvelope> {
        self.events@
    }

    pub closed spec fn surface_nodes(&self) -> Seq<u64> {
        self.surface.node_seq()
    }

    pub closed spec fn surface_gen(&self) -> nat {
        self.surface.gen()
    }

    /// The log is gapless and its surface is exactly what its events build.
    pub closed spec fn wf(&self) -> bool {
        &&& gapless(self.events@)
        &&& surface_of(self.events@) == Some((self.surface.node_seq(), self.surface.gen()))
    }

    pub fn new() -> (log: SessionLog)
        ensures
            log.wf(),
            log.events_seq() == Seq::<SessionEventEnvelope>::empty(),
            log.surface_nodes() == Seq::<u64>::empty(),
            log.surface_gen() == 0,
    {
        SessionLog { events: Vec::new(), surface: Surface::new() }
    }

    /// Replay a stored log: the only place that can notice a gap left by a copy, a truncation or
    /// two writers. Refuses the log at the first envelope out of place or out of shape.
    pub fn replay(events: Vec<SessionEventEnvelope>) -> (r: Result<SessionLog, SessionError>)
        ensures
            r is Ok <==> replayable(events@),
            r matches Ok(log) ==> log.wf() && log.events_seq() == events@,
            r matches Err(SessionError::SeqGap { expected, found }) ==> exists|i: int|
                0 <= i < events@.len() && expected == i && #[trigger] events@[i].seq == found
                    && found != i && gapless(events@.take(i)) && surface_of(events@.take(i)) is Some,
            forall|i: int|
                0 <= i < events@.len() && #[trigger] events@[i].seq != i && gapless(events@.take(i))
                    && surface_of(events@.take(i)) is Some ==> r == Err::<SessionLog, SessionError>(
                    SessionError::SeqGap { expected: i as u64, found: events@[i].seq }),
            r matches Err(e) ==> (e is SeqGap || e is SurfaceOpRequired || e is SurfaceOpForbidden
                || e is SurfaceRangeOutOfBounds || e is UncitedShadow),
            r matches Err(e) && !(e is SeqGap) ==> exists|i: int|
                0 <= i < events@.len() && gapless(#[trigger] events@.take(i + 1))
                    && surface_of(events@.take(i)) is Some && surface_of(events@.take(i + 1)) is None,
    {
        let ghost all = events@;
        let n = events.len();
        let mut source = events;
        let mut reversed: Vec<SessionEventEnvelope> = Vec::new();
        while source.len() > 0
            invariant
                source@ + reversed@.reverse() == all,
                all == events@,
            decreases source.len(),
        {
            let ghost before_s = source@;
            let ghost before_r = reversed@;
            let e = source.pop().unwrap();
            reversed.push(e);
            proof {
                assert(reversed@.reverse() =~= seq![e] + before_r.reverse());
                assert(before_s =~= source@.push(e));
                assert(source@ + reversed@.reverse() =~= before_s + before_r.reverse());
            }
        }
        assert(reversed@.reverse() =~= all);
        let mut log = SessionLog::new();
        let mut i: usize = 0;
        while i < n
            invariant
                all == events@,
                n == all.len(),
                i <= n,
                reversed@.len() == n - i,
                forall|j: int| 0 <= j < n - i ==> #[trigger] reversed@[j] == all[n - 1 - j],
                log.wf(),
                log.events_seq() == all.take(i as int),
            decreases n - i,
        {
            let envelope = reversed.pop().unwrap();
            proof {
                assert(envelope == all[i as int]);
            }
            let expected = log.next_seq();
            proof {
                assert(all.take(i + 1).drop_last() =~= all.take(i as int));
                assert(all.take(i + 1).last() == all[i as int]);
            }
            if envelope.seq != expected {
                proof {
                    assert(expected == i);
                    assert(all[i as int].seq == envelope.seq);
                    assert(!gapless(all)) by {
                        assert(all[i as int].seq != i);
                    }
                    assert(gapless(all.take(i as int)));
                    assert(surface_of(all.take(i as int)) is Some);
                    assert(!replayable(all));
                    assert(0 <= i < all.len() && expected == i && all[i as int].seq == envelope.seq
                        && envelope.seq != i);
                    assert forall|j: int|
                        0 <= j < all.len() && #[trigger] all[j].seq != j && gapless(all.take(j))
                            && surface_of(all.take(j)) is Some implies j == i by {
                        if j < i {
                            assert(all.take(i as int)[j] == all[j]);
                        } else if j > i {
                            assert(all.take(j)[i as int] == all[i as int]);
                        }
                    }
                }
                return Err(SessionError::SeqGap { expected, found: envelope.seq });
            }
            match log.push(envelope) {
                Ok(()) => {},
                Err(e) => {
                    proof {
                        assert(surface_of(all.take(i + 1)) is None);
                        lemma_surface_prefix(all, i + 1, n as int);
                        assert(all.take(n as int) =~= all);
                        assert(gapless(all.take(i + 1))) by {
                            assert forall|j: int| 0 <= j < i + 1 implies #[trigger] all.take(i + 1)[j].seq == j by {
                                if j < i {
                                    assert(all.take(i as int)[j] == all[j]);
                                }
                            }
                        }
                        assert forall|j: int|
                            0 <= j < all.len() && #[trigger] all[j].seq != j && gapless(all.take(j))
                                && surface_of(all.take(j)) is Some implies false by {
                            if j <= i {
                                assert(all.take(i + 1)[j] == all[j]);
                            } else {
                                lemma_surface_prefix(all, i + 1, j);
                            }
                        }
                    }
                    return Err(e);
                },
            }
            i = i + 1;
        }
        proof {
            assert(all.take(n as int) =~= all);
        }
        Ok(log)
    }

    pub fn next_seq(&self) -> (r: u64)
        ensures
            r == self.events_seq().len(),
    {
        self.events.len() as u64
    }

    pub fn events(&self) -> (r: &[SessionEventEnvelope])
        ensures
            r@ == self.events_seq(),
    {
        self.events.as_slice()
    }

    pub fn get(&self, seq: u64) -> (r: Option<&SessionEventEnvelope>)
        ensures
            seq < self.events_seq().len() ==> (r matches Some(e) && *e == self.events_seq()[seq as int]),
            seq >= self.events_seq().len() ==> r is None,
    {
        if seq < self.events.len() as u64 {
            Some(&self.events[seq as usize])
        } else {
            None
        }
    }

    pub fn surface(&self) -> (r: &Surface)
        ensures
            r.node_seq() == self.surface_nodes(),
            r.gen() == self.surface_gen(),
    {
        &self.surface
    }

    pub fn is_empty(&self) -> (r: bool)
        ensures
            r == (self.events_seq().len() == 0),
    {
        self.events.len() == 0
    }

    pub fn len(&self) -> (r: usize)
        ensures
            r == self.events_seq().len(),
    {
        self.events.len()
    }

    /// Append a log-only event.
    pub fn append(&mut self, event: SessionEvent, time: i64) -> (r: Result<u64, SessionError>)
        requires
            old(self).wf(),
            old(self).events_seq().len() < usize::MAX,
        ensures
            final(self).wf(),
            r is Ok <==> !is_surface_event(event),
            r matches Ok(seq) ==> seq == old(self).events_seq().len() && final(self).events_seq()
                == old(self).events_seq().push(
                SessionEventEnvelope {
                    seq,
                    time,
                    event,
                    ignorable: None,
                    source_event_seqs: None,
                    surface_op: None,
                },
            ) && final(self).surface_nodes() == old(self).surface_nodes() && final(self).surface_gen()
                == old(self).surface_gen(),
            r is Err ==> final(self).events_seq() == old(self).events_seq()
                && final(self).surface_nodes() == old(self).surface_nodes(),
            r matches Err(e) ==> e is SurfaceOpRequired,
    {
        self.push_new(event, time, None, None)
    }

    /// Append a surface event at the end of history.
    pub fn append_surface(&mut self, event: SessionEvent, time: i64) -> (r: Result<u64, SessionError>)
        requires
            old(self).wf(),
            old(self).events_seq().len() < usize::MAX,
        ensures
            final(self).wf(),
            r is Ok <==> is_surface_event(event),
            r matches Ok(seq) ==> seq == old(self).events_seq().len() && final(self).events_seq()
                == old(self).events_seq().push(
                SessionEventEnvelope {
                    seq,
                    time,
                    event,
                    ignorable: None,
                    source_event_seqs: None,
                    surface_op: Some(SurfaceOp::Append),
                },
            ) && final(self).surface_nodes() == old(self).surface_nodes().push(seq)
                && final(self).surface_gen() == old(self).surface_gen(),
            r is Err ==> final(self).events_seq() == old(self).events_seq()
                && final(self).surface_nodes() == old(self).surface_nodes(),
            r matches Err(e) ==> e is SurfaceOpForbidden,
    {
        self.push_new(event, time, Some(SurfaceOp::Append), None)
    }

    /// Append a surface event shadowing nodes `start..end`. The shadowed list is computed here,
    /// not passed in, so a replace always cites everything it hides.
    pub fn append_replacing(&mut self, event: SessionEvent, start: usize, end: usize, time: i64) -> (r:
        Result<u64, SessionError>)
        requires
            old(self).wf(),
            old(self).events_seq().len() < usize::MAX,
        ensures
            final(self).wf(),
            r is Ok <==> (is_surface_event(event) && start <= end <= old(self).surface_nodes().len()),
            r matches Ok(seq) ==> seq == old(self).events_seq().len() && final(self).events_seq().len()
                == old(self).events_seq().len() + 1 && final(self).events_seq().take(
                old(self).events_seq().len() as int,
            ) == old(self).events_seq() && final(self).events_seq().last().event == event
                && final(self).events_seq().last().seq == seq && final(self).events_seq().last().time == time
                && final(self).events_seq().last().ignorable is None
                && final(self).events_seq().last().surface_op == Some(SurfaceOp::Replace { start, end })
                && (final(self).events_seq().last().source_event_seqs matches Some(src) && src@
                == old(self).surface_nodes().subrange(start as int, end as int))
                && final(self).surface_nodes() == old(self).surface_nodes().subrange(0, start as int)
                + seq![seq] + old(self).surface_nodes().subrange(end as int, old(self).surface_nodes().len() as int)
                && final(self).surface_gen() == old(self).surface_gen() + 1,
            r is Err ==> final(self).events_seq() == old(self).events_seq()
                && final(self).surface_nodes() == old(self).surface_nodes(),
            !(start <= end <= old(self).surface_nodes().len()) ==> (r matches Err(
                SessionError::SurfaceRangeOutOfBounds { start: s, end: e, len: l },
            ) && s == start && e == end && l == old(self).surface_nodes().len()),
    {
        let shadowed = match self.surface.shadowed(start, end) {
            Ok(v) => v,
            Err(e) => return Err(e),
        };
        proof {
            let cited = shadowed@;
            let sh = self.surface.node_seq().subrange(start as int, end as int);
            let f = |s: u64| !cited.contains(s);
            assert forall|j: int| 0 <= j < sh.len() implies !f(#[trigger] sh[j]) by {
                assert(cited.contains(sh[j]));
            }
            assert(sh.all(|x: u64| !f(x)));
            sh.lemma_all_neg_filter_empty(f);
            assert(crate::session::surface::uncited(sh, cited) =~= Seq::<u64>::empty());
        }
        self.push_new(event, time, Some(SurfaceOp::Replace { start, end }), Some(shadowed))
    }

    fn push_new(
        &mut self,
        event: SessionEvent,
        time: i64,
        surface_op: Option<SurfaceOp>,
        source_event_seqs: Option<Vec<u64>>,
    ) -> (r: Result<u64, SessionError>)
        requires
            old(self).wf(),
            old(self).events_seq().len() < usize::MAX,
        ensures
            final(self).wf(),
            ({
                let env = SessionEventEnvelope {
                    seq: old(self).events_seq().len() as u64,
                    time,
                    event,
                    ignorable: None,
                    source_event_seqs,
                    surface_op,
                };
                match fold_one((old(self).surface_nodes(), old(self).surface_gen()), env) {
                    Some(m) => r == Ok::<u64, SessionError>(env.seq) && final(self).events_seq()
                        == old(self).events_seq().push(env) && final(self).surface_nodes() == m.0
                        && final(self).surface_gen() == m.1,
                    None => r is Err && final(self).events_seq() == old(self).events_seq()
                        && final(self).surface_nodes() == old(self).surface_nodes(),
                }
            }),
            r matches Err(e) ==> (e is SurfaceOpRequired || e is SurfaceOpForbidden
                || e is SurfaceRangeOutOfBounds || e is UncitedShadow),
            r matches Err(e) ==> (e is SurfaceOpRequired ==> is_surface_event(event)
                && surface_op is None),
            r matches Err(e) ==> ((e is SurfaceRangeOutOfBounds || e is UncitedShadow) ==> (
            surface_op matches Some(SurfaceOp::Replace { .. }))),
            r matches Err(e) ==> (e is SurfaceOpForbidden ==> !is_surface_event(event)
                && surface_op is Some),
    {
        let seq = self.next_seq();
        let envelope = SessionEventEnvelope {
            seq,
            time,
            ignorable: None,
            event,
            source_event_seqs,
            surface_op,
        };
        match self.push(envelope) {
            Ok(()) => Ok(seq),
            Err(e) => Err(e),
        }
    }

    fn push(&mut self, envelope: SessionEventEnvelope) -> (r: Result<(), SessionError>)
        requires
            old(self).wf(),
            envelope.seq == old(self).events_seq().len(),
            old(self).events_seq().len() < usize::MAX,
        ensures
            final(self).wf(),
            match fold_one((old(self).surface_nodes(), old(self).surface_gen()), envelope) {
                Some(m) => r is Ok && final(self).events_seq() == old(self).events_seq().push(envelope)
                    && final(self).surface_nodes() == m.0 && final(self).surface_gen() == m.1,
                None => r is Err && final(self).events_seq() == old(self).events_seq()
                    && final(self).surface_nodes() == old(self).surface_nodes(),
            },
            r matches Err(e) ==> (e is SurfaceOpRequired || e is SurfaceOpForbidden
                || e is SurfaceRangeOutOfBounds || e is UncitedShadow),
            r matches Err(e) ==> (e is SurfaceOpRequired ==> is_surface_event(envelope.event)
                && envelope.surface_op is None),
            r matches Err(e) ==> ((e is SurfaceRangeOutOfBounds || e is UncitedShadow) ==> (
            envelope.surface_op matches Some(SurfaceOp::Replace { .. }))),
            r matches Err(e) ==> (e is SurfaceOpForbidden ==> !is_surface_event(envelope.event)
                && envelope.surface_op is Some),
    {
        let ghost before = self.events@;
        match envelope.check_surface_shape() {
            Ok(()) => {},
            Err(e) => return Err(e),
        }
        proof {
            lemma_surface_generation(self.events@);
        }
        if let Some(op) = envelope.surface_op {
            let sources = match &envelope.source_event_seqs {
                Some(v) => Some(v.as_slice()),
                None => None,
            };
            match self.surface.apply(envelope.seq, op, sources) {
                Ok(()) => {},
                Err(e) => return Err(e),
            }
        }
        self.events.push(envelope);
        proof {
            assert(self.events@.drop_last() =~= before);
            assert forall|i: int| 0 <= i < self.events@.len() implies #[trigger] self.events@[i].seq
                == i by {
                if i < before.len() {
                    assert(self.events@[i] == before[i]);
                }
            }
        }
        Ok(())
    }

    /// The history the model sees: the surface nodes, in order, each replaced by the message
    /// its event projects. An empty `assistant/message` stays in the log but projects nothing.
    pub fn derive_messages(&self) -> (r: Vec<Message>)
        requires
            self.wf(),
        ensures
            r@.len() == projection(self.events_seq(), self.surface_nodes()).len(),
            forall|i: int|
                0 <= i < r@.len() ==> same_message(
                    #[trigger] r@[i],
                    projection(self.events_seq(), self.surface_nodes())[i],
                ),
    {
        let nodes = self.surface.nodes();
        let mut out: Vec<Message> = Vec::new();
        let mut k: usize = 0;
        while k < nodes.len()
            invariant
                nodes@ == self.surface.node_seq(),
                k <= nodes.len(),
                out@.len() == projection(self.events@, nodes@.take(k as int)).len(),
                forall|i: int|
                    0 <= i < out@.len() ==> same_message(
                        #[trigger] out@[i],
                        projection(self.events@, nodes@.take(k as int))[i],
                    ),
            decreases nodes.len() - k,
        {
            let seq = nodes[k];
            let ghost before = out@;
            proof {
                assert(nodes@.take(k + 1).drop_last() =~= nodes@.take(k as int));
                assert(nodes@.take(k + 1).last() == seq);
            }
            match self.get(seq) {
                Some(env) => match env.message() {
                    Some(m) => {
                        out.push(m.clone());
                        assert forall|i: int| 0 <= i < out@.len() implies same_message(
                            #[trigger] out@[i],
                            projection(self.events@, nodes@.take(k + 1))[i],
                        ) by {
                            if i < before.len() {
                                assert(out@[i] == before[i]);
                            }
                        }
                    },
                    None => {},
                },
                None => {},
            }
            k = k + 1;
        }
        proof {
            assert(nodes@.take(nodes.len() as int) =~= nodes@);
        }
        out
    }

    /// The turn open at `boundary`, if any.
    pub fn open_turn_at(&self, boundary: u64) -> (r: Option<u64>)
        ensures
            self.events_seq().len() == 0 ==> r is None,
            self.events_seq().len() > 0 ==> r == open_turn(
                self.events_seq(),
                if boundary < self.events_seq().len() {
                    boundary as int
                } else {
                    self.events_seq().len() - 1
                },
            ),
    {
        if self.events.len() == 0 {
            return None;
        }
        let last = self.events.len() - 1;
        let upto: usize = if boundary < self.events.len() as u64 {
            boundary as usize
        } else {
            last
        };
        let mut i = upto + 1;
        while i > 0
            invariant
                upto < self.events@.len(),
                upto as int == (if boundary < self.events@.len() {
                    boundary as int
                } else {
                    self.events@.len() - 1
                }),
                i <= upto + 1,
                open_turn(self.events@, upto as int) == open_turn(self.events@, i - 1),
            decreases i,
        {
            proof {
                assert(open_turn(self.events@, i - 1) == match self.events@[i - 1].event {
                    SessionEvent::TurnStart(t) => Some(t.turn),
                    SessionEvent::TurnEnd(_) => None,
                    _ => open_turn(self.events@, i - 2),
                });
            }
            match &self.events[i - 1].event {
                SessionEvent::TurnStart(t) => return Some(t.turn),
                SessionEvent::TurnEnd(_) => return None,
                _ => {},
            }
            i = i - 1;
        }
        None
    }
}

/// A prefix of a replayable log is replayable, and a log with a refused prefix is refused.
pub proof fn lemma_surface_prefix(evs: Seq<SessionEventEnvelope>, k: int, n: int)
    requires
        0 <= k <= n <= evs.len(),
        surface_of(evs.take(k)) is None,
    ensures
        surface_of(evs.take(n)) is None,
    decreases n - k,
{
    if k < n {
        lemma_surface_prefix(evs, k, n - 1);
        assert(evs.take(n).drop_last() =~= evs.take(n - 1));
    }
}

/// Gapless events keep their prefixes gapless.
proof fn lemma_gapless_prefix(evs: Seq<SessionEventEnvelope>)
    requires
        gapless(evs),
        evs.len() > 0,
    ensures
        gapless(evs.drop_last()),
        evs.last().seq == evs.len() - 1,
{
    assert forall|i: int| 0 <= i < evs.drop_last().len() implies #[trigger] evs.drop_last()[i].seq == i by {
        assert(evs.drop_last()[i] == evs[i]);
    }
}

/// Every node a gapless log's surface holds names one of its events.
pub proof fn lemma_nodes_in_log(evs: Seq<SessionEventEnvelope>, nodes: Seq<u64>, g: nat)
    requires
        gapless(evs),
        surface_of(evs) == Some((nodes, g)),
    ensures
        forall|i: int| 0 <= i < nodes.len() ==> #[trigger] nodes[i] < evs.len(),
    decreases evs.len(),
{
    if evs.len() > 0 {
        lemma_gapless_prefix(evs);
        let prev = surface_of(evs.drop_last())->0;
        lemma_nodes_in_log(evs.drop_last(), prev.0, prev.1);
        let env = evs.last();
        if let Some(op) = env.surface_op {
            assert forall|i: int| 0 <= i < nodes.len() implies #[trigger] nodes[i] < evs.len() by {
                match op {
                    SurfaceOp::Append => {
                        if i < prev.0.len() {
                            assert(nodes[i] == prev.0[i]);
                        }
                    },
                    SurfaceOp::Replace { start, end } => {
                        let head = prev.0.subrange(0, start as int);
                        let tail = prev.0.subrange(end as int, prev.0.len() as int);
                        assert(nodes == head + seq![env.seq] + tail);
                        if i < head.len() {
                            assert(nodes[i] == prev.0[i]);
                        } else if i > head.len() {
                            assert(nodes[i] == tail[i - head.len() - 1]);
                            assert(tail[i - head.len() - 1] == prev.0[end + i - head.len() - 1]);
                        }
                    },
                }
            }
        }
    }
}

/// A log this library built replays: replay accepts exactly its events and rebuilds exactly its
/// surface, so what is stored is what the model saw.
pub proof fn law_log_replays(log: &SessionLog)
    requires
        log.wf(),
    ensures
        replayable(log.events_seq()),
        surface_of(log.events_seq()) == Some((log.surface_nodes(), log.surface_gen())),
{
}

/// The history is a function of the events alone: two logs with the same events show the model
/// the same nodes at the same generation.
pub proof fn law_history_from_events(a: &SessionLog, b: &SessionLog)
    requires
        a.wf(),
        b.wf(),
        a.events_seq() == b.events_seq(),
    ensures
        a.surface_nodes() == b.surface_nodes(),
        a.surface_gen() == b.surface_gen(),
        projection(a.events_seq(), a.surface_nodes()) == projection(b.events_seq(), b.surface_nodes()),
{
}

/// Compaction never points past the log: every node the model sees is an event in it.
pub proof fn law_nodes_are_events(log: &SessionLog)
    requires
        log.wf(),
    ensures
        forall|i: int| 0 <= i < log.surface_nodes().len() ==> #[trigger] log.surface_nodes()[i] < log.events_seq().len(),
{
    lemma_nodes_in_log(log.events_seq(), log.surface_nodes(), log.surface_gen());
}

} // verus!
