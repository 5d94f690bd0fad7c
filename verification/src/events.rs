//! The events that the service streams, as far as they bear on the companion.
//!
//! The service speaks two dialects on one connection. The session events report phases,
//! questions to the user and the end of turns. Newer services report no phase for the
//! text of an answer; they stream the transcript instead, as a list of operations on its
//! frames.

use crate::json::{elements, Json, JsonTree};
use crate::state::SessionState;
use crate::text::same_text;
use vstd::prelude::*;

verus! {

/// What a transcript frame holds, as far as it bears on a session's activity.
#[derive(Clone, Copy, PartialEq, Eq, Debug, Structural)]
pub enum FrameKind {
    /// Text of an answer.
    Body,
    /// A train of thought or the call of a tool.
    Working,
    /// Anything else.
    Quiet,
}

/// An operation on a session's transcript.
pub enum Op {
    /// A frame was made or replaced.
    Frame { id: Option<String>, kind: FrameKind },
    /// Text was added to a frame.
    Append { frame: String },
    /// A step of the turn went on.
    Step,
    /// The user is asked something.
    Ask,
    /// The turn is over.
    TurnOver,
    /// An operation without a bearing on the session's activity.
    Other,
}

pub ghost enum OpView {
    Frame { id: Option<Seq<char>>, kind: FrameKind },
    Append { frame: Seq<char> },
    Step,
    Ask,
    TurnOver,
    Other,
}

impl View for Op {
    type V = OpView;

    open spec fn view(&self) -> OpView {
        match self {
            Op::Frame { id, kind } => OpView::Frame {
                id: match id {
                    Some(id) => Some(id@),
                    None => None,
                },
                kind: *kind,
            },
            Op::Append { frame } => OpView::Append { frame: frame@ },
            Op::Step => OpView::Step,
            Op::Ask => OpView::Ask,
            Op::TurnOver => OpView::TurnOver,
            Op::Other => OpView::Other,
        }
    }
}

pub open spec fn op_views(ops: Seq<Op>) -> Seq<OpView> {
    Seq::new(ops.len(), |i: int| ops[i]@)
}

/// What a session event says of its session.
#[derive(Clone, Copy, Debug)]
pub enum Change {
    /// The session reports a phase: an activity, or none.
    Phase(Option<SessionState>),
    /// The user is asked something.
    Ask,
    /// The user has answered.
    Answered,
    /// The turn has ended.
    Ended,
    /// Text came in an answer.
    Text,
    /// The session reports that it is not busy.
    Rest,
}

pub enum Event {
    /// Nothing to act on.
    Ignored,
    /// The service asks for a sign of life that repeats the payload.
    Ping(Json),
    /// A session was made; its name, if the event gives it.
    Created(Option<String>),
    /// A session reports a phase of a kind that the companion does not know.
    UnknownPhase(String),
    Session { id: String, change: Change },
    Transcript { id: String, ops: Vec<Op> },
}

pub ghost enum EventView {
    Ignored,
    Ping(JsonTree),
    Created(Option<Seq<char>>),
    UnknownPhase(Seq<char>),
    Session { id: Seq<char>, change: Change },
    Transcript { id: Seq<char>, ops: Seq<OpView> },
}

impl View for Event {
    type V = EventView;

    open spec fn view(&self) -> EventView {
        match self {
            Event::Ignored => EventView::Ignored,
            Event::Ping(payload) => EventView::Ping(payload@),
            Event::Created(id) => EventView::Created(
                match id {
                    Some(id) => Some(id@),
                    None => None,
                },
            ),
            Event::UnknownPhase(kind) => EventView::UnknownPhase(kind@),
            Event::Session { id, change } => EventView::Session { id: id@, change: *change },
            Event::Transcript { id, ops } => EventView::Transcript { id: id@, ops: op_views(ops@) },
        }
    }
}

/// The activity that a reported phase means: thinking while the agent runs, calls a tool
/// or streams its thoughts; answering while it streams anything else; none in every other
/// phase, whether it means rest or is not known.
pub open spec fn phase_activity(phase: JsonTree) -> Option<SessionState> {
    match phase.text_field("kind"@) {
        Some(kind) => if kind == "running"@ || kind == "tool_call"@ {
            Some(SessionState::Thinking)
        } else if kind == "streaming"@ {
            if phase.text_field("stream"@) == Some("thinking"@) {
                Some(SessionState::Thinking)
            } else {
                Some(SessionState::Answering)
            }
        } else {
            None
        },
        None => None,
    }
}

/// The activity that a reported phase means.
pub fn map_phase(phase: &Json) -> (r: Option<SessionState>)
    ensures
        r == phase_activity(phase@),
{
    match phase.get_str("kind") {
        Some(kind) => {
            if same_text(kind, "running") || same_text(kind, "tool_call") {
                Some(SessionState::Thinking)
            } else if same_text(kind, "streaming") {
                match phase.get_str("stream") {
                    Some(stream) => if same_text(stream, "thinking") {
                        Some(SessionState::Thinking)
                    } else {
                        Some(SessionState::Answering)
                    },
                    None => Some(SessionState::Answering),
                }
            } else {
                None
            }
        },
        None => None,
    }
}

/// A phase of this kind means that the turn is over or that there is none.
pub open spec fn is_rest(kind: Seq<char>) -> bool {
    kind == "idle"@ || kind == "done"@ || kind == "completed"@
}

/// The phase that an event reports.
pub open spec fn reported_phase(event: JsonTree) -> Option<JsonTree> {
    match event.field("payload"@) {
        Some(payload) => payload.field("phase"@),
        None => None,
    }
}

/// What a reported phase says of its session: an activity, or none where it means rest.
/// Of any other phase the session's activity is not affected.
pub open spec fn phase_change(phase: JsonTree) -> Option<Change> {
    match phase_activity(phase) {
        Some(state) => Some(Change::Phase(Some(state))),
        None => match phase.text_field("kind"@) {
            Some(kind) => if is_rest(kind) {
                Some(Change::Phase(None))
            } else {
                None
            },
            None => None,
        },
    }
}

fn get_phase(event: &Json) -> (r: Option<&Json>)
    ensures
        r is Some <==> reported_phase(event@) is Some,
        r matches Some(phase) ==> reported_phase(event@) == Some(phase@),
{
    match event.get("payload") {
        Some(payload) => payload.get("phase"),
        None => None,
    }
}

fn read_phase(phase: &Json) -> (r: Option<Change>)
    ensures
        r == phase_change(phase@),
{
    match map_phase(phase) {
        Some(state) => Some(Change::Phase(Some(state))),
        None => match phase.get_str("kind") {
            Some(kind) => if same_text(kind, "idle") || same_text(kind, "done") || same_text(
                kind,
                "completed",
            ) {
                Some(Change::Phase(None))
            } else {
                None
            },
            None => None,
        },
    }
}

/// The text under `key` in the member `entity` of an operation, or in the operation
/// itself.
pub open spec fn entity_text(op: JsonTree, entity: Seq<char>, key: Seq<char>) -> Option<
    Seq<char>,
> {
    match op.field(entity) {
        Some(inner) => match inner.text_field(key) {
            Some(text) => Some(text),
            None => op.text_field(key),
        },
        None => op.text_field(key),
    }
}

fn get_entity_str<'a>(op: &'a Json, entity: &str, key: &str) -> (r: Option<&'a str>)
    ensures
        r is Some <==> entity_text(op@, entity@, key@) is Some,
        r matches Some(s) ==> entity_text(op@, entity@, key@) == Some(s@),
{
    match op.get(entity) {
        Some(inner) => match inner.get_str(key) {
            Some(text) => Some(text),
            None => op.get_str(key),
        },
        None => op.get_str(key),
    }
}

/// The name of an operation.
pub open spec fn op_name(op: JsonTree) -> Option<Seq<char>> {
    match op.text_field("op"@) {
        Some(name) => Some(name),
        None => op.text_field("type"@),
    }
}

/// The kind of a frame: text in the assistant's role is the body of an answer; thoughts
/// and tool calls are work.
pub open spec fn frame_kind(op: JsonTree) -> FrameKind {
    let kind = entity_text(op, "frame"@, "kind"@);
    if kind == Some("text"@) {
        if entity_text(op, "frame"@, "role"@) == Some("assistant"@) {
            FrameKind::Body
        } else {
            FrameKind::Quiet
        }
    } else if kind == Some("thinking"@) || kind == Some("tool_call"@) {
        FrameKind::Working
    } else {
        FrameKind::Quiet
    }
}

/// A turn in this state is over.
pub open spec fn is_final_turn_state(state: Option<Seq<char>>) -> bool {
    state == Some("completed"@) || state == Some("failed"@) || state == Some("cancelled"@)
}

/// What a transcript operation means.
pub open spec fn decoded_op(op: JsonTree) -> OpView {
    match op_name(op) {
        Some(name) => if name == "frame.upsert"@ {
            OpView::Frame { id: entity_text(op, "frame"@, "frameId"@), kind: frame_kind(op) }
        } else if name == "append"@ {
            match op.field("target"@) {
                Some(target) => if target.text_field("type"@) == Some("frame"@) {
                    match target.text_field("frameId"@) {
                        Some(frame) => OpView::Append { frame },
                        None => OpView::Other,
                    }
                } else {
                    OpView::Other
                },
                None => OpView::Other,
            }
        } else if name == "step.upsert"@ {
            OpView::Step
        } else if name == "interaction.upsert"@ {
            if entity_text(op, "interaction"@, "status"@) == Some("pending"@) {
                OpView::Ask
            } else {
                OpView::Other
            }
        } else if name == "turn.upsert"@ {
            if is_final_turn_state(entity_text(op, "turn"@, "state"@)) {
                OpView::TurnOver
            } else {
                OpView::Other
            }
        } else {
            OpView::Other
        },
        None => OpView::Other,
    }
}

fn read_frame_kind(op: &Json) -> (r: FrameKind)
    ensures
        r == frame_kind(op@),
{
    match get_entity_str(op, "frame", "kind") {
        Some(kind) => {
            if same_text(kind, "text") {
                match get_entity_str(op, "frame", "role") {
                    Some(role) => if same_text(role, "assistant") {
                        FrameKind::Body
                    } else {
                        FrameKind::Quiet
                    },
                    None => FrameKind::Quiet,
                }
            } else if same_text(kind, "thinking") || same_text(kind, "tool_call") {
                FrameKind::Working
            } else {
                FrameKind::Quiet
            }
        },
        None => FrameKind::Quiet,
    }
}

fn owned(text: Option<&str>) -> (r: Option<String>)
    ensures
        r is Some <==> text is Some,
        r matches Some(s) ==> s@ == text->0@,
{
    match text {
        Some(t) => Some(t.to_owned()),
        None => None,
    }
}

/// Reads a transcript operation.
pub fn decode_op(op: &Json) -> (r: Op)
    ensures
        r@ == decoded_op(op@),
{
    let name: Option<&str> = match op.get_str("op") {
        Some(name) => Some(name),
        None => op.get_str("type"),
    };
    let name: &str = match name {
        Some(name) => name,
        None => {
            return Op::Other;
        },
    };
    if same_text(name, "frame.upsert") {
        Op::Frame { id: owned(get_entity_str(op, "frame", "frameId")), kind: read_frame_kind(op) }
    } else if same_text(name, "append") {
        match op.get("target") {
            Some(target) => match target.get_str("type") {
                Some(kind) => if same_text(kind, "frame") {
                    match target.get_str("frameId") {
                        Some(frame) => Op::Append { frame: frame.to_owned() },
                        None => Op::Other,
                    }
                } else {
                    Op::Other
                },
                None => Op::Other,
            },
            None => Op::Other,
        }
    } else if same_text(name, "step.upsert") {
        Op::Step
    } else if same_text(name, "interaction.upsert") {
        match get_entity_str(op, "interaction", "status") {
            Some(status) => if same_text(status, "pending") {
                Op::Ask
            } else {
                Op::Other
            },
            None => Op::Other,
        }
    } else if same_text(name, "turn.upsert") {
        match get_entity_str(op, "turn", "state") {
            Some(state) => if same_text(state, "completed") || same_text(state, "failed")
                || same_text(state, "cancelled") {
                Op::TurnOver
            } else {
                Op::Other
            },
            None => Op::Other,
        }
    } else {
        Op::Other
    }
}

/// The operations that an event carries.
pub open spec fn carried_ops(event: JsonTree) -> Seq<OpView> {
    match event.field("payload"@) {
        Some(payload) => match payload.field("ops"@) {
            Some(ops) => match ops.array() {
                Some(list) => Seq::new(list.len(), |i: int| decoded_op(list[i])),
                None => Seq::empty(),
            },
            None => Seq::empty(),
        },
        None => Seq::empty(),
    }
}

fn read_ops(event: &Json) -> (r: Vec<Op>)
    ensures
        op_views(r@) == carried_ops(event@),
{
    let mut ops: Vec<Op> = Vec::new();
    proof {
        assert(op_views(ops@) =~= Seq::<OpView>::empty());
    }
    match event.get("payload") {
        Some(payload) => match payload.get("ops") {
            Some(list) => match list.as_array() {
                Some(list) => {
                    let mut i: usize = 0;
                    while i < list.len()
                        invariant
                            i == ops.len(),
                            i <= list.len(),
                            forall|k: int| 0 <= k < i ==> #[trigger] ops[k]@ == decoded_op(list[k]@),
                        decreases list.len() - i,
                    {
                        ops.push(decode_op(&list[i]));
                        i = i + 1;
                    }
                    proof {
                        assert(op_views(ops@) =~= carried_ops(event@));
                    }
                },
                None => {},
            },
            None => {},
        },
        None => {},
    }
    ops
}

/// The name of a new session: the first of three members that is there, if it is text.
pub open spec fn created_id(event: JsonTree) -> Option<Seq<char>> {
    match event.field("payload"@) {
        Some(payload) => match payload.field("sessionId"@) {
            Some(id) => id.text(),
            None => match payload.field("id"@) {
                Some(id) => id.text(),
                None => payload.text_field("session_id"@),
            },
        },
        None => None,
    }
}

fn read_created_id(event: &Json) -> (r: Option<String>)
    ensures
        match r {
            Some(id) => created_id(event@) == Some(id@),
            None => created_id(event@) is None,
        },
{
    match event.get("payload") {
        Some(payload) => match payload.get("sessionId") {
            Some(id) => owned(id.as_str()),
            None => match payload.get("id") {
                Some(id) => owned(id.as_str()),
                None => owned(payload.get_str("session_id")),
            },
        },
        None => None,
    }
}

/// What a session event of this type says, if it bears on the session's activity.
pub open spec fn decoded_change(kind: Seq<char>, event: JsonTree) -> Option<Change> {
    if kind == "agent.status.updated"@ {
        match reported_phase(event) {
            Some(phase) => phase_change(phase),
            None => None,
        }
    } else if kind == "event.approval.requested"@ || kind == "event.question.requested"@ {
        Some(Change::Ask)
    } else if kind == "event.approval.resolved"@ || kind == "event.question.answered"@ || kind
        == "event.question.dismissed"@ {
        Some(Change::Answered)
    } else if kind == "turn.ended"@ || kind == "turn.step.interrupted"@ || kind == "error"@ {
        Some(Change::Ended)
    } else if kind == "turn.started"@ {
        Some(Change::Phase(Some(SessionState::Thinking)))
    } else if kind == "assistant.delta"@ {
        Some(Change::Text)
    } else if kind == "event.session.work_changed"@ {
        match event.field("payload"@) {
            Some(payload) => match payload.field("busy"@) {
                Some(busy) => if busy.boolean() == Some(false) {
                    Some(Change::Rest)
                } else {
                    None
                },
                None => None,
            },
            None => None,
        }
    } else {
        None
    }
}

fn read_change(kind: &str, event: &Json) -> (r: Option<Change>)
    ensures
        r == decoded_change(kind@, event@),
{
    if same_text(kind, "agent.status.updated") {
        match get_phase(event) {
            Some(phase) => read_phase(phase),
            None => None,
        }
    } else if same_text(kind, "event.approval.requested") || same_text(
        kind,
        "event.question.requested",
    ) {
        Some(Change::Ask)
    } else if same_text(kind, "event.approval.resolved") || same_text(
        kind,
        "event.question.answered",
    ) || same_text(kind, "event.question.dismissed") {
        Some(Change::Answered)
    } else if same_text(kind, "turn.ended") || same_text(kind, "turn.step.interrupted")
        || same_text(kind, "error") {
        Some(Change::Ended)
    } else if same_text(kind, "turn.started") {
        Some(Change::Phase(Some(SessionState::Thinking)))
    } else if same_text(kind, "assistant.delta") {
        Some(Change::Text)
    } else if same_text(kind, "event.session.work_changed") {
        match event.get("payload") {
            Some(payload) => match payload.get("busy") {
                Some(busy) => match busy.as_bool() {
                    Some(b) => if b {
                        None
                    } else {
                        Some(Change::Rest)
                    },
                    None => None,
                },
                None => None,
            },
            None => None,
        }
    } else {
        None
    }
}

/// The kind of a reported phase that is not known.
pub open spec fn unknown_kind(kind: Seq<char>, event: JsonTree) -> Option<Seq<char>> {
    if kind == "agent.status.updated"@ {
        match reported_phase(event) {
            Some(phase) => if phase_change(phase) is None {
                phase.text_field("kind"@)
            } else {
                None
            },
            None => None,
        }
    } else {
        None
    }
}

fn read_unknown_kind(kind: &str, event: &Json) -> (r: Option<String>)
    ensures
        match r {
            Some(name) => unknown_kind(kind@, event@) == Some(name@),
            None => unknown_kind(kind@, event@) is None,
        },
{
    if same_text(kind, "agent.status.updated") {
        match get_phase(event) {
            Some(phase) => match read_phase(phase) {
                Some(_) => None,
                None => owned(phase.get_str("kind")),
            },
            None => None,
        }
    } else {
        None
    }
}

/// What an event means.
pub open spec fn decoded(event: JsonTree) -> EventView {
    match event.text_field("type"@) {
        Some(kind) => if kind == "ping"@ {
            EventView::Ping(
                match event.field("payload"@) {
                    Some(payload) => payload,
                    None => JsonTree::Null,
                },
            )
        } else if kind == "event.session.created"@ {
            EventView::Created(created_id(event))
        } else {
            match event.text_field("session_id"@) {
                Some(id) => if kind == "transcript.ops"@ {
                    EventView::Transcript { id, ops: carried_ops(event) }
                } else {
                    match decoded_change(kind, event) {
                        Some(change) => EventView::Session { id, change },
                        None => match unknown_kind(kind, event) {
                            Some(name) => EventView::UnknownPhase(name),
                            None => EventView::Ignored,
                        },
                    }
                },
                None => EventView::Ignored,
            }
        },
        None => EventView::Ignored,
    }
}

/// Reads an event.
pub fn decode(event: Json) -> (r: Event)
    ensures
        r@ == decoded(event@),
{
    let is_ping: bool = match event.get_str("type") {
        Some(kind) => same_text(kind, "ping"),
        None => false,
    };
    if is_ping {
        return match event.take("payload") {
            Some(payload) => Event::Ping(payload),
            None => Event::Ping(Json::Null),
        };
    }
    match event.get_str("type") {
        Some(kind) => {
            if same_text(kind, "event.session.created") {
                return Event::Created(read_created_id(&event));
            }
            match event.get_str("session_id") {
                Some(id) => {
                    if same_text(kind, "transcript.ops") {
                        Event::Transcript { id: id.to_owned(), ops: read_ops(&event) }
                    } else {
                        match read_change(kind, &event) {
                            Some(change) => Event::Session { id: id.to_owned(), change },
                            None => match read_unknown_kind(kind, &event) {
                                Some(name) => Event::UnknownPhase(name),
                                None => Event::Ignored,
                            },
                        }
                    }
                },
                None => Event::Ignored,
            }
        },
        None => Event::Ignored,
    }
}

/// The names that the service uses for phases differ from each other.
proof fn lemma_phase_names()
    ensures
        "running"@ != "streaming"@ && "tool_call"@ != "streaming"@,
        "idle"@ != "running"@ && "idle"@ != "tool_call"@ && "idle"@ != "streaming"@,
        "done"@ != "running"@ && "done"@ != "tool_call"@ && "done"@ != "streaming"@,
        "completed"@ != "running"@ && "completed"@ != "tool_call"@ && "completed"@ != "streaming"@,
{
    reveal_strlit("running");
    reveal_strlit("tool_call");
    reveal_strlit("streaming");
    reveal_strlit("idle");
    reveal_strlit("done");
    reveal_strlit("completed");
    assert("tool_call"@[0] == 't' && "streaming"@[0] == 's' && "completed"@[0] == 'c');
    assert("running"@.len() == 7 && "tool_call"@.len() == 9 && "streaming"@.len() == 9);
    assert("idle"@.len() == 4 && "done"@.len() == 4 && "completed"@.len() == 9);
}

/// What a phase of each kind says of its session: work means thinking; a stream means
/// thinking if it is of thoughts, and answering otherwise; rest means no activity; and any
/// other kind, or none, says nothing.
pub proof fn law_phase_kinds(phase: JsonTree, kind: Seq<char>)
    ensures
        phase.text_field("kind"@) == Some("running"@) ==> phase_change(phase) == Some(
            Change::Phase(Some(SessionState::Thinking)),
        ),
        phase.text_field("kind"@) == Some("tool_call"@) ==> phase_change(phase) == Some(
            Change::Phase(Some(SessionState::Thinking)),
        ),
        phase.text_field("kind"@) == Some("streaming"@) && phase.text_field("stream"@) == Some(
            "thinking"@,
        ) ==> phase_change(phase) == Some(Change::Phase(Some(SessionState::Thinking))),
        phase.text_field("kind"@) == Some("streaming"@) && phase.text_field("stream"@) != Some(
            "thinking"@,
        ) ==> phase_change(phase) == Some(Change::Phase(Some(SessionState::Answering))),
        phase.text_field("kind"@) == Some("idle"@) ==> phase_change(phase) == Some(
            Change::Phase(None),
        ),
        phase.text_field("kind"@) == Some("done"@) ==> phase_change(phase) == Some(
            Change::Phase(None),
        ),
        phase.text_field("kind"@) == Some("completed"@) ==> phase_change(phase) == Some(
            Change::Phase(None),
        ),
        phase.text_field("kind"@) == Some(kind) && kind != "running"@ && kind != "tool_call"@
            && kind != "streaming"@ && kind != "idle"@ && kind != "done"@ && kind != "completed"@
            ==> phase_change(phase) is None,
        phase.text_field("kind"@) is None ==> phase_change(phase) is None,
        phase_activity(phase) == (match phase_change(phase) {
            Some(Change::Phase(state)) => state,
            _ => None,
        }),
{
    lemma_phase_names();
}

/// What a phase says depends on its kind and its stream alone.
pub proof fn law_phases_alike(a: JsonTree, b: JsonTree)
    requires
        a.text_field("kind"@) == b.text_field("kind"@),
        a.text_field("stream"@) == b.text_field("stream"@),
    ensures
        phase_change(a) == phase_change(b),
        phase_activity(a) == phase_activity(b),
{
}

/// The names of the events differ from each other where they mean different things.
proof fn lemma_event_names()
    ensures
        ({
            let status = "agent.status.updated"@;
            let ask1 = "event.approval.requested"@;
            let ask2 = "event.question.requested"@;
            let ans1 = "event.approval.resolved"@;
            let ans2 = "event.question.answered"@;
            let ans3 = "event.question.dismissed"@;
            let end1 = "turn.ended"@;
            let end2 = "turn.step.interrupted"@;
            let end3 = "error"@;
            let start = "turn.started"@;
            let delta = "assistant.delta"@;
            let work = "event.session.work_changed"@;
            &&& status.len() == 20 && ask1.len() == 24 && ask2.len() == 24 && ans1.len() == 23
            &&& ans2.len() == 23 && ans3.len() == 24 && end1.len() == 10 && end2.len() == 21
            &&& end3.len() == 5 && start.len() == 12 && delta.len() == 15 && work.len() == 26
            &&& ans3 != ask1 && ans3 != ask2
            &&& "ping"@.len() == 4 && "event.session.created"@.len() == 21
            &&& "transcript.ops"@.len() == 14
            &&& end2 != "event.session.created"@
        }),
{
    reveal_strlit("agent.status.updated");
    reveal_strlit("event.approval.requested");
    reveal_strlit("event.question.requested");
    reveal_strlit("event.approval.resolved");
    reveal_strlit("event.question.answered");
    reveal_strlit("event.question.dismissed");
    reveal_strlit("turn.ended");
    reveal_strlit("turn.step.interrupted");
    reveal_strlit("error");
    reveal_strlit("turn.started");
    reveal_strlit("assistant.delta");
    reveal_strlit("event.session.work_changed");
    reveal_strlit("ping");
    reveal_strlit("event.session.created");
    reveal_strlit("transcript.ops");
    assert("event.question.dismissed"@[6] == 'q' && "event.approval.requested"@[6] == 'a');
    assert("event.question.dismissed"@[15] == 'd' && "event.question.requested"@[15] == 'r');
    assert("turn.step.interrupted"@[0] == 't' && "event.session.created"@[0] == 'e');
}

/// What each event says of its session: a status says what its phase says; requests ask;
/// resolutions, answers and dismissals answer; the end or interruption of a turn and an
/// error end it; its start means thinking; text is text; and a report of work means rest
/// exactly if it says that the session is not busy.
pub proof fn law_session_events(event: JsonTree, phase: JsonTree, busy: JsonTree)
    ensures
        reported_phase(event) == Some(phase) ==> decoded_change("agent.status.updated"@, event)
            == phase_change(phase),
        reported_phase(event) is None ==> decoded_change("agent.status.updated"@, event) is None,
        decoded_change("event.approval.requested"@, event) == Some(Change::Ask),
        decoded_change("event.question.requested"@, event) == Some(Change::Ask),
        decoded_change("event.approval.resolved"@, event) == Some(Change::Answered),
        decoded_change("event.question.answered"@, event) == Some(Change::Answered),
        decoded_change("event.question.dismissed"@, event) == Some(Change::Answered),
        decoded_change("turn.ended"@, event) == Some(Change::Ended),
        decoded_change("turn.step.interrupted"@, event) == Some(Change::Ended),
        decoded_change("error"@, event) == Some(Change::Ended),
        decoded_change("turn.started"@, event) == Some(
            Change::Phase(Some(SessionState::Thinking)),
        ),
        decoded_change("assistant.delta"@, event) == Some(Change::Text),
        (event.field("payload"@) matches Some(payload) && payload.field("busy"@) == Some(
            JsonTree::Bool(false),
        )) ==> decoded_change("event.session.work_changed"@, event) == Some(Change::Rest),
        (event.field("payload"@) matches Some(payload) ==> payload.field("busy"@) != Some(
            JsonTree::Bool(false),
        )) ==> decoded_change("event.session.work_changed"@, event) is None,
{
    lemma_event_names();
}

/// An event by any other name says nothing of its session.
pub proof fn law_other_events(kind: Seq<char>, event: JsonTree)
    requires
        kind != "agent.status.updated"@,
        kind != "event.approval.requested"@ && kind != "event.question.requested"@,
        kind != "event.approval.resolved"@ && kind != "event.question.answered"@,
        kind != "event.question.dismissed"@,
        kind != "turn.ended"@ && kind != "turn.step.interrupted"@ && kind != "error"@,
        kind != "turn.started"@ && kind != "assistant.delta"@,
        kind != "event.session.work_changed"@,
    ensures
        decoded_change(kind, event) is None,
        unknown_kind(kind, event) is None,
{
}

/// The phase that an event reports is the member `phase` of its payload.
pub proof fn law_reported_phase(event: JsonTree, phase: JsonTree)
    ensures
        reported_phase(event) == Some(phase) <==> (event.field("payload"@) matches Some(payload)
            && payload.field("phase"@) == Some(phase)),
{
}

/// How events are told apart: a ping by its name alone, with its payload or none; a new
/// session by its name alone; all others need a session, and are then a transcript, a
/// change, a phase that is not known, or nothing to act on.
pub proof fn law_events(event: JsonTree, kind: Seq<char>, id: Seq<char>, payload: JsonTree)
    requires
        event.text_field("type"@) == Some(kind),
    ensures
        kind == "ping"@ && event.field("payload"@) == Some(payload) ==> decoded(event)
            == EventView::Ping(payload),
        kind == "ping"@ && event.field("payload"@) is None ==> decoded(event) == EventView::Ping(
            JsonTree::Null,
        ),
        kind == "event.session.created"@ ==> decoded(event) == EventView::Created(
            created_id(event),
        ),
        kind == "transcript.ops"@ && event.text_field("session_id"@) == Some(id) ==> decoded(event)
            == (EventView::Transcript { id, ops: carried_ops(event) }),
        kind != "ping"@ && kind != "event.session.created"@ && event.text_field("session_id"@)
            is None ==> decoded(event) == EventView::Ignored,
        kind != "ping"@ && kind != "event.session.created"@ && kind != "transcript.ops"@
            && event.text_field("session_id"@) == Some(id) && decoded_change(kind, event) is Some
            ==> decoded(event) == (EventView::Session {
            id,
            change: decoded_change(kind, event)->0,
        }),
        kind != "ping"@ && kind != "event.session.created"@ && kind != "transcript.ops"@
            && kind != "agent.status.updated"@ && event.text_field("session_id"@) is Some
            && decoded_change(kind, event) is None ==> decoded(event) == EventView::Ignored,
{
    lemma_event_names();
}

/// An event without a name is nothing to act on.
pub proof fn law_nameless_events(event: JsonTree)
    requires
        event.text_field("type"@) is None,
    ensures
        decoded(event) == EventView::Ignored,
{
}

/// The name of a new session is the first member that is there of `sessionId`, `id` and
/// `session_id` in the payload, and only if that member is text.
pub proof fn law_new_session_names(event: JsonTree, payload: JsonTree, id: JsonTree)
    requires
        event.field("payload"@) == Some(payload),
    ensures
        payload.field("sessionId"@) == Some(id) ==> created_id(event) == id.text(),
        payload.field("sessionId"@) is None && payload.field("id"@) == Some(id) ==> created_id(
            event,
        ) == id.text(),
        payload.field("sessionId"@) is None && payload.field("id"@) is None && payload.field(
            "session_id"@,
        ) == Some(id) ==> created_id(event) == id.text(),
        payload.field("sessionId"@) is None && payload.field("id"@) is None && payload.field(
            "session_id"@,
        ) is None ==> created_id(event) is None,
{
}

/// A session whose event has no payload has no name.
pub proof fn law_new_session_without_payload(event: JsonTree)
    requires
        event.field("payload"@) is None,
    ensures
        created_id(event) is None,
        carried_ops(event).len() == 0,
        reported_phase(event) is None,
{
}

/// A transcript event carries as many operations as its list has, each read alone and in
/// its order; without a list it carries none.
pub proof fn law_carried_operations(event: JsonTree, list: Seq<JsonTree>, i: int)
    ensures
        (event.field("payload"@) matches Some(payload) && payload.field("ops"@) == Some(
            JsonTree::Array(list),
        )) ==> carried_ops(event).len() == list.len() && (0 <= i < list.len() ==> carried_ops(
            event,
        )[i] == decoded_op(list[i])),
        (event.field("payload"@) matches Some(payload) && !(payload.field("ops"@) matches Some(
            JsonTree::Array(_),
        ))) ==> carried_ops(event).len() == 0,
{
}

/// The names of the operations differ from each other.
proof fn lemma_operation_names()
    ensures
        "frame.upsert"@.len() == 12 && "append"@.len() == 6 && "step.upsert"@.len() == 11,
        "interaction.upsert"@.len() == 18 && "turn.upsert"@.len() == 11,
        "step.upsert"@ != "turn.upsert"@,
        "text"@.len() == 4 && "thinking"@.len() == 8 && "tool_call"@.len() == 9,
{
    reveal_strlit("frame.upsert");
    reveal_strlit("append");
    reveal_strlit("step.upsert");
    reveal_strlit("interaction.upsert");
    reveal_strlit("turn.upsert");
    reveal_strlit("text");
    reveal_strlit("thinking");
    reveal_strlit("tool_call");
    assert("step.upsert"@[0] == 's' && "turn.upsert"@[0] == 't');
}

/// An operation is named by its member `op`, or by `type` where it has none; what is
/// inside the entity it is about counts before what stands beside it.
pub proof fn law_where_operations_say_it(
    op: JsonTree,
    inner: JsonTree,
    entity: Seq<char>,
    key: Seq<char>,
    text: Seq<char>,
)
    ensures
        op.text_field("op"@) == Some(text) ==> op_name(op) == Some(text),
        op.text_field("op"@) is None ==> op_name(op) == op.text_field("type"@),
        op.field(entity) == Some(inner) && inner.text_field(key) == Some(text) ==> entity_text(
            op,
            entity,
            key,
        ) == Some(text),
        op.field(entity) == Some(inner) && inner.text_field(key) is None ==> entity_text(
            op,
            entity,
            key,
        ) == op.text_field(key),
        op.field(entity) is None ==> entity_text(op, entity, key) == op.text_field(key),
{
}

/// What operations on frames mean: text in the assistant's role is the body of an answer;
/// thoughts and tool calls are work; everything else, text in other roles too, is neither.
/// The frame's name goes with it.
pub proof fn law_frame_operations(op: JsonTree)
    requires
        op_name(op) == Some("frame.upsert"@),
    ensures
        ({
            let kind = entity_text(op, "frame"@, "kind"@);
            let assistant = entity_text(op, "frame"@, "role"@) == Some("assistant"@);
            let name = entity_text(op, "frame"@, "frameId"@);
            &&& decoded_op(op) matches OpView::Frame { id, .. } && id == name
            &&& kind == Some("text"@) && assistant ==> decoded_op(op) == (OpView::Frame {
                id: name,
                kind: FrameKind::Body,
            })
            &&& kind == Some("thinking"@) || kind == Some("tool_call"@) ==> decoded_op(op) == (
            OpView::Frame { id: name, kind: FrameKind::Working })
            &&& kind == Some("text"@) && !assistant ==> decoded_op(op) == (OpView::Frame {
                id: name,
                kind: FrameKind::Quiet,
            })
            &&& kind != Some("text"@) && kind != Some("thinking"@) && kind != Some("tool_call"@)
                ==> decoded_op(op) == (OpView::Frame { id: name, kind: FrameKind::Quiet })
        }),
{
    lemma_operation_names();
}

/// What the other operations mean: text is added only to a target of type frame that is
/// named; a step is a step; an interaction asks exactly if it is pending; a turn is over
/// exactly if it completed, failed or was cancelled; and anything else has no bearing.
pub proof fn law_other_operations(op: JsonTree, target: JsonTree, frame: Seq<char>, name: Seq<char>)
    ensures
        op_name(op) == Some("append"@) && op.field("target"@) == Some(target) && target.text_field(
            "type"@,
        ) == Some("frame"@) && target.text_field("frameId"@) == Some(frame) ==> decoded_op(op) == (
        OpView::Append { frame }),
        op_name(op) == Some("append"@) && op.field("target"@) == Some(target) && (
        target.text_field("type"@) != Some("frame"@) || target.text_field("frameId"@) is None)
            ==> decoded_op(op) == OpView::Other,
        op_name(op) == Some("append"@) && op.field("target"@) is None ==> decoded_op(op)
            == OpView::Other,
        op_name(op) == Some("step.upsert"@) ==> decoded_op(op) == OpView::Step,
        op_name(op) == Some("interaction.upsert"@) ==> (decoded_op(op) == OpView::Ask
            <==> entity_text(op, "interaction"@, "status"@) == Some("pending"@)),
        op_name(op) == Some("interaction.upsert"@) && decoded_op(op) != OpView::Ask ==> decoded_op(
            op,
        ) == OpView::Other,
        op_name(op) == Some("turn.upsert"@) ==> (decoded_op(op) == OpView::TurnOver <==> (
        entity_text(op, "turn"@, "state"@) == Some("completed"@) || entity_text(
            op,
            "turn"@,
            "state"@,
        ) == Some("failed"@) || entity_text(op, "turn"@, "state"@) == Some("cancelled"@))),
        op_name(op) == Some("turn.upsert"@) && decoded_op(op) != OpView::TurnOver ==> decoded_op(
            op,
        ) == OpView::Other,
        op_name(op) == Some(name) && name != "frame.upsert"@ && name != "append"@ && name
            != "step.upsert"@ && name != "interaction.upsert"@ && name != "turn.upsert"@
            ==> decoded_op(op) == OpView::Other,
        op_name(op) is None ==> decoded_op(op) == OpView::Other,
{
    lemma_operation_names();
}

/// Operations are taken one by one, and each by its content; so are events.
pub proof fn law_events_by_content(ops: Seq<Op>, op: Op, event: Event, i: int)
    ensures
        op_views(ops).len() == ops.len(),
        0 <= i < ops.len() ==> op_views(ops)[i] == ops[i]@,
        op matches Op::Frame { id: Some(id), kind } ==> op@ == (OpView::Frame { id: Some(id@), kind }),
        op matches Op::Frame { id: None, kind } ==> op@ == (OpView::Frame { id: None, kind }),
        op matches Op::Append { frame } ==> op@ == (OpView::Append { frame: frame@ }),
        op is Step ==> op@ is Step,
        op is Ask ==> op@ is Ask,
        op is TurnOver ==> op@ is TurnOver,
        op is Other ==> op@ is Other,
        event is Ignored ==> event@ is Ignored,
        event matches Event::Ping(payload) ==> event@ == EventView::Ping(payload@),
        event matches Event::Created(Some(id)) ==> event@ == EventView::Created(Some(id@)),
        event matches Event::Created(None) ==> event@ == EventView::Created(None),
        event matches Event::UnknownPhase(kind) ==> event@ == EventView::UnknownPhase(kind@),
        event matches Event::Session { id, change } ==> event@ == (EventView::Session {
            id: id@,
            change,
        }),
        event matches Event::Transcript { id, ops } ==> event@ == (EventView::Transcript {
            id: id@,
            ops: op_views(ops@),
        }),
{
}

} // verus!
