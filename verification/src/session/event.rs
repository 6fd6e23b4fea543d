//! Event vocabulary. Anything the model sees must be in the log, so a new kind of model input is
//! a new event type. A type written by a newer build is kept as [`SessionEvent::Unknown`]; an
//! older build must reject it unless the writer declared it skippable.

use vstd::prelude::*;

use crate::session::error::SessionError;
use crate::session::message::Message;
use crate::session::surface::SurfaceOp;
use crate::text::str_eq;

verus! {

/// Opaque JSON payloads carried through the log unchanged.
#[verifier::external_type_specification]
#[verifier::external_body]
pub struct ExJsonValue(serde_json::Value);

/// `serde_json::Value::clone` (derived): a deep copy, equal to the value it copies.
pub assume_specification[ <serde_json::Value as Clone>::clone ](v: &serde_json::Value) -> (r:
    serde_json::Value)
    ensures
        r == *v,
;

/// Lives in the session header, not the log.
pub const SESSION_FORMAT_VERSION: i64 = 1;

#[derive(Clone, Debug, PartialEq, Eq)]
pub struct TurnStart {
    pub turn: u64,
}

#[derive(Clone, Debug, PartialEq, Eq)]
pub struct TurnEnd {
    pub turn: u64,
    pub reason: TurnEndReason,
}

#[derive(Clone, Debug, PartialEq, Eq)]
pub enum TurnEndReason {
    Completed,
    /// Only recovery writes this: it closes a turn orphaned by a crash.
    Interrupted,
    MaxSteps,
    Error { message: String },
}

#[derive(Clone, Debug, PartialEq, Eq)]
pub struct StepStart {
    pub turn: u64,
    pub step: u64,
}

#[derive(Clone, Debug, PartialEq, Eq)]
pub struct StepEnd {
    pub turn: u64,
    pub step: u64,
}

/// A raw stream chunk; the log only needs `(turn, step)` of it.
#[derive(Clone, Debug, PartialEq)]
pub struct AssistantChunk {
    pub turn: u64,
    pub step: u64,
    pub chunk: serde_json::Value,
}

#[derive(Clone, Debug, PartialEq)]
pub struct AssistantMessage {
    pub turn: u64,
    pub step: u64,
    pub message: Message,
    pub usage: Option<Usage>,
    pub interrupted: Option<bool>,
}

#[derive(Clone, Copy, Debug, PartialEq, Eq)]
pub struct Usage {
    pub input_tokens: u64,
    pub output_tokens: u64,
    pub cached_input_tokens: Option<u64>,
}

#[derive(Clone, Debug, PartialEq, Eq)]
pub struct ToolCall {
    pub turn: u64,
    pub step: u64,
    pub call_id: String,
    pub name: String,
    /// Raw JSON as the model produced it, byte for byte.
    pub arguments: String,
}

#[derive(Clone, Debug, PartialEq)]
pub struct ToolResult {
    pub turn: u64,
    pub step: u64,
    pub call_id: String,
    pub message: Message,
    pub error: Option<ToolErrorInfo>,
    /// UI-only data; never shown to the model.
    pub meta: Option<serde_json::Value>,
}

#[derive(Clone, Debug, PartialEq, Eq)]
pub struct ToolErrorInfo {
    pub name: String,
    pub code: String,
}

/// The invariant head of a request, recorded so replay is byte for byte.
#[derive(Clone, Debug, PartialEq)]
pub struct RequestHeader {
    pub header: serde_json::Value,
    pub reason: RequestReason,
    pub starts_series: Option<bool>,
}

#[derive(Clone, Copy, Debug, PartialEq, Eq)]
pub enum RequestReason {
    Initial,
    Resume,
    Change,
    Series,
}

/// A type written by a newer build, kept verbatim so it can be written back unchanged.
#[derive(Clone, Debug, PartialEq)]
pub struct UnknownEvent {
    pub kind: String,
    pub data: serde_json::Value,
}

#[derive(Clone, Debug, PartialEq)]
pub enum SessionEvent {
    TurnStart(TurnStart),
    TurnEnd(TurnEnd),
    StepStart(StepStart),
    StepEnd(StepEnd),
    UserMessage(Message),
    AssistantChunk(AssistantChunk),
    AssistantMessage(AssistantMessage),
    ToolCall(ToolCall),
    ToolResult(ToolResult),
    RequestHeader(RequestHeader),
    Unknown(UnknownEvent),
}

/// The wire name of an event type.
pub open spec fn kind_name_of(e: SessionEvent) -> Seq<char> {
    match e {
        SessionEvent::TurnStart(_) => "turn/start"@,
        SessionEvent::TurnEnd(_) => "turn/end"@,
        SessionEvent::StepStart(_) => "step/start"@,
        SessionEvent::StepEnd(_) => "step/end"@,
        SessionEvent::UserMessage(_) => "user/message"@,
        SessionEvent::AssistantChunk(_) => "assistant/chunk"@,
        SessionEvent::AssistantMessage(_) => "assistant/message"@,
        SessionEvent::ToolCall(_) => "tool/call"@,
        SessionEvent::ToolResult(_) => "tool/result"@,
        SessionEvent::RequestHeader(_) => "request/header"@,
        SessionEvent::Unknown(u) => u.kind@,
    }
}

/// Exactly these three types produce messages for the model.
pub open spec fn is_surface_event(e: SessionEvent) -> bool {
    e is UserMessage || e is AssistantMessage || e is ToolResult
}

/// The message a type projects; an empty `assistant/message` projects nothing.
pub open spec fn message_of(e: SessionEvent) -> Option<Message> {
    match e {
        SessionEvent::UserMessage(m) => Some(m),
        SessionEvent::AssistantMessage(a) => if a.message.content@.len() == 0 {
            None
        } else {
            Some(a.message)
        },
        SessionEvent::ToolResult(t) => Some(t.message),
        _ => None,
    }
}

impl SessionEvent {
    pub fn kind_name(&self) -> (r: &str)
        ensures
            r@ == kind_name_of(*self),
    {
        match self {
            SessionEvent::TurnStart(_) => "turn/start",
            SessionEvent::TurnEnd(_) => "turn/end",
            SessionEvent::StepStart(_) => "step/start",
            SessionEvent::StepEnd(_) => "step/end",
            SessionEvent::UserMessage(_) => "user/message",
            SessionEvent::AssistantChunk(_) => "assistant/chunk",
            SessionEvent::AssistantMessage(_) => "assistant/message",
            SessionEvent::ToolCall(_) => "tool/call",
            SessionEvent::ToolResult(_) => "tool/result",
            SessionEvent::RequestHeader(_) => "request/header",
            SessionEvent::Unknown(u) => u.kind.as_str(),
        }
    }

    /// Does this type produce a message for the model?
    pub fn is_surface(&self) -> (r: bool)
        ensures
            r == is_surface_event(*self),
    {
        match self {
            SessionEvent::UserMessage(_) | SessionEvent::AssistantMessage(_)
            | SessionEvent::ToolResult(_) => true,
            _ => false,
        }
    }

    /// The message this type projects, verbatim.
    pub fn message(&self) -> (r: Option<&Message>)
        ensures
            match message_of(*self) {
                Some(m) => r matches Some(x) && *x == m,
                None => r is None,
            },
    {
        match self {
            SessionEvent::UserMessage(m) => Some(m),
            SessionEvent::AssistantMessage(a) => if a.message.is_empty() {
                None
            } else {
                Some(&a.message)
            },
            SessionEvent::ToolResult(t) => Some(&t.message),
            _ => None,
        }
    }
}

/// One event with its position and the surface bookkeeping that goes with it.
#[derive(Clone, Debug, PartialEq)]
pub struct SessionEventEnvelope {
    pub seq: u64,
    /// Epoch milliseconds.
    pub time: i64,
    pub event: SessionEvent,
    /// Absent means mandatory: a reader that does not know the type must reject the log.
    pub ignorable: Option<bool>,
    /// The seqs that produced this event; for `replace`, every shadowed node.
    pub source_event_seqs: Option<Vec<u64>>,
    /// Required on surface events, forbidden on every other type.
    pub surface_op: Option<SurfaceOp>,
}

/// `surface_op` appears exactly on the surface types.
pub open spec fn shape_ok(env: SessionEventEnvelope) -> bool {
    is_surface_event(env.event) == env.surface_op.is_some()
}

/// The label an error names a surface rule by: the known surface name, or a fixed label.
pub open spec fn surface_label(name: Seq<char>) -> Seq<char> {
    if name == "user/message"@ {
        "user/message"@
    } else if name == "assistant/message"@ {
        "assistant/message"@
    } else if name == "tool/result"@ {
        "tool/result"@
    } else {
        "<loại khác>"@
    }
}

/// `name` when it is one of the three surface types, a fixed label otherwise, so an error never
/// holds a short-lived string.
pub fn surface_name(name: &str) -> (r: &'static str)
    ensures
        r@ == surface_label(name@),
{
    if str_eq(name, "user/message") {
        "user/message"
    } else if str_eq(name, "assistant/message") {
        "assistant/message"
    } else if str_eq(name, "tool/result") {
        "tool/result"
    } else {
        "<loại khác>"
    }
}

impl SessionEventEnvelope {
    /// Rebuild an envelope read back from storage and enforce the two read rules: an unknown
    /// type that is not skippable rejects the log, and `surface_op` sits only on surface types.
    pub fn from_parts(
        seq: u64,
        time: i64,
        event: SessionEvent,
        ignorable: Option<bool>,
        source_event_seqs: Option<Vec<u64>>,
        surface_op: Option<SurfaceOp>,
    ) -> (r: Result<SessionEventEnvelope, SessionError>)
        ensures
            (event is Unknown && ignorable != Some(true)) ==> (r matches Err(
                SessionError::FormatUnsupported(k),
            ) && k@ == kind_name_of(event)),
            !(event is Unknown && ignorable != Some(true)) ==> match r {
                Ok(env) => env.seq == seq && env.time == time && env.event == event
                    && env.ignorable == ignorable && env.source_event_seqs == source_event_seqs
                    && env.surface_op == surface_op && shape_ok(env),
                Err(SessionError::SurfaceOpRequired(n)) => is_surface_event(event)
                    && surface_op.is_none() && n@ == surface_label(kind_name_of(event)),
                Err(SessionError::SurfaceOpForbidden(n)) => !is_surface_event(event)
                    && surface_op.is_some() && n@ == surface_label(kind_name_of(event)),
                _ => false,
            },
    {
        let unknown = match &event {
            SessionEvent::Unknown(_) => true,
            _ => false,
        };
        let skippable = match ignorable {
            Some(b) => b,
            None => false,
        };
        if unknown && !skippable {
            let kind = String::from_str(event.kind_name());
            return Err(SessionError::FormatUnsupported(kind));
        }
        let envelope = SessionEventEnvelope {
            seq,
            time,
            event,
            ignorable,
            source_event_seqs,
            surface_op,
        };
        match envelope.check_surface_shape() {
            Ok(()) => Ok(envelope),
            Err(e) => Err(e),
        }
    }

    /// `surface_op` is required on surface types and forbidden on all others.
    pub fn check_surface_shape(&self) -> (r: Result<(), SessionError>)
        ensures
            match r {
                Ok(()) => shape_ok(*self),
                Err(SessionError::SurfaceOpRequired(n)) => is_surface_event(self.event)
                    && self.surface_op.is_none() && n@ == surface_label(kind_name_of(self.event)),
                Err(SessionError::SurfaceOpForbidden(n)) => !is_surface_event(self.event)
                    && self.surface_op.is_some() && n@ == surface_label(kind_name_of(self.event)),
                _ => false,
            },
    {
        let name = self.event.kind_name();
        let surface = self.event.is_surface();
        let has_op = match self.surface_op {
            Some(_) => true,
            None => false,
        };
        if surface && !has_op {
            Err(SessionError::SurfaceOpRequired(surface_name(name)))
        } else if !surface && has_op {
            Err(SessionError::SurfaceOpForbidden(surface_name(name)))
        } else {
            Ok(())
        }
    }

    pub fn message(&self) -> (r: Option<&Message>)
        ensures
            match message_of(self.event) {
                Some(m) => r matches Some(x) && *x == m,
                None => r is None,
            },
    {
        self.event.message()
    }
}

} // verus!
