use kimi_pet::events::{decode, decode_op, map_phase, Change, Event, FrameKind, Op};
use kimi_pet::json::{parse, Json};
use kimi_pet::state::SessionState;

fn phase(text: &str) -> Option<SessionState> {
    map_phase(&parse(text).unwrap())
}

fn read(text: &str) -> Event {
    decode(parse(text).unwrap())
}

fn op(text: &str) -> Op {
    decode_op(&parse(text).unwrap())
}

#[test]
fn phases() {
    assert_eq!(phase("{\"kind\": \"running\"}"), Some(SessionState::Thinking));
    assert_eq!(phase("{\"kind\": \"tool_call\"}"), Some(SessionState::Thinking));
    assert_eq!(
        phase("{\"kind\": \"streaming\", \"stream\": \"thinking\"}"),
        Some(SessionState::Thinking)
    );
    assert_eq!(
        phase("{\"kind\": \"streaming\", \"stream\": \"assistant\"}"),
        Some(SessionState::Answering)
    );
    assert_eq!(phase("{\"kind\": \"streaming\"}"), Some(SessionState::Answering));
    assert_eq!(phase("{\"kind\": \"streaming\", \"stream\": 1}"), Some(SessionState::Answering));
    assert_eq!(phase("{\"kind\": \"idle\"}"), None);
    assert_eq!(phase("{\"kind\": \"done\"}"), None);
    assert_eq!(phase("{\"kind\": \"completed\"}"), None);
    assert_eq!(phase("{\"kind\": \"awaiting_approval\"}"), None);
    assert_eq!(phase("{\"kind\": 5}"), None);
    assert_eq!(phase("{}"), None);
    assert_eq!(phase("\"running\""), None);
}

#[test]
fn later_member_counts() {
    let phase = Json::Object(vec![
        ("kind".to_string(), Json::Text("running".to_string())),
        ("kind".to_string(), Json::Text("idle".to_string())),
    ]);
    assert_eq!(map_phase(&phase), None);
}

#[test]
fn events_without_bearing() {
    assert!(matches!(read("{}"), Event::Ignored));
    assert!(matches!(read("[]"), Event::Ignored));
    assert!(matches!(read("{\"type\": 5}"), Event::Ignored));
    assert!(matches!(read("{\"type\": \"turn.ended\"}"), Event::Ignored));
    assert!(matches!(read("{\"type\": \"ack\", \"session_id\": \"a\"}"), Event::Ignored));
    assert!(matches!(
        read("{\"type\": \"agent.status.updated\", \"session_id\": \"a\", \"payload\": {}}"),
        Event::Ignored
    ));
    assert!(matches!(
        read("{\"type\": \"transcript.reset\", \"session_id\": \"a\"}"),
        Event::Ignored
    ));
}

#[test]
fn pings() {
    assert!(matches!(read("{\"type\": \"ping\"}"), Event::Ping(Json::Null)));
    match read("{\"type\": \"ping\", \"payload\": {\"n\": 4}}") {
        Event::Ping(payload) => assert_eq!(payload.get("n").unwrap().as_u64(), Some(4)),
        _ => panic!("no ping"),
    }
}

#[test]
fn new_sessions() {
    let name = |text: &str| match read(text) {
        Event::Created(id) => id,
        _ => panic!("no new session"),
    };
    let head = "{\"type\": \"event.session.created\", \"payload\": ";
    assert_eq!(name(&format!("{head}{{\"sessionId\": \"a\"}}}}")), Some("a".to_string()));
    assert_eq!(name(&format!("{head}{{\"id\": \"b\"}}}}")), Some("b".to_string()));
    assert_eq!(name(&format!("{head}{{\"session_id\": \"c\"}}}}")), Some("c".to_string()));
    assert_eq!(
        name(&format!("{head}{{\"id\": \"b\", \"sessionId\": \"a\"}}}}")),
        Some("a".to_string())
    );
    assert_eq!(name(&format!("{head}{{\"id\": \"b\", \"sessionId\": 1}}}}")), None);
    assert_eq!(name(&format!("{head}{{}}}}")), None);
    assert_eq!(name("{\"type\": \"event.session.created\"}"), None);
}

#[test]
fn session_changes() {
    let change = |kind: &str, payload: &str| {
        let text =
            format!("{{\"type\": \"{kind}\", \"session_id\": \"s\", \"payload\": {payload}}}");
        match read(&text) {
            Event::Session { id, change } => {
                assert_eq!(id, "s");
                Some(change)
            }
            Event::Ignored => None,
            _ => panic!("another event"),
        }
    };
    assert!(matches!(
        change("agent.status.updated", "{\"phase\": {\"kind\": \"running\"}}"),
        Some(Change::Phase(Some(SessionState::Thinking)))
    ));
    for rest in ["idle", "done", "completed"] {
        let payload = format!("{{\"phase\": {{\"kind\": \"{rest}\"}}}}");
        assert!(matches!(change("agent.status.updated", &payload), Some(Change::Phase(None))));
    }
    assert!(change("agent.status.updated", "{\"phase\": {\"kind\": 5}}").is_none());
    assert!(change("agent.status.updated", "{\"phase\": 5}").is_none());
    assert!(matches!(change("event.approval.requested", "1"), Some(Change::Ask)));
    assert!(matches!(change("event.question.requested", "1"), Some(Change::Ask)));
    assert!(matches!(change("event.approval.resolved", "1"), Some(Change::Answered)));
    assert!(matches!(change("event.question.answered", "1"), Some(Change::Answered)));
    assert!(matches!(change("event.question.dismissed", "1"), Some(Change::Answered)));
    assert!(matches!(change("turn.ended", "1"), Some(Change::Ended)));
    assert!(matches!(change("turn.step.interrupted", "1"), Some(Change::Ended)));
    assert!(matches!(change("error", "1"), Some(Change::Ended)));
    assert!(matches!(
        change("turn.started", "1"),
        Some(Change::Phase(Some(SessionState::Thinking)))
    ));
    assert!(matches!(change("assistant.delta", "1"), Some(Change::Text)));
    assert!(matches!(
        change("event.session.work_changed", "{\"busy\": false}"),
        Some(Change::Rest)
    ));
    assert!(change("event.session.work_changed", "{\"busy\": true}").is_none());
    assert!(change("event.session.work_changed", "{}").is_none());
}

#[test]
fn transcript_operations() {
    assert!(matches!(
        op("{\"op\": \"frame.upsert\", \"frame\": {\"kind\": \"text\", \"role\": \"assistant\", \"frameId\": \"f\"}}"),
        Op::Frame { id: Some(_), kind: FrameKind::Body }
    ));
    assert!(matches!(
        op("{\"type\": \"frame.upsert\", \"frame\": {\"kind\": \"text\", \"role\": \"user\"}}"),
        Op::Frame { id: None, kind: FrameKind::Quiet }
    ));
    assert!(matches!(
        op("{\"op\": \"frame.upsert\", \"frame\": {\"kind\": \"thinking\"}}"),
        Op::Frame { kind: FrameKind::Working, .. }
    ));
    assert!(matches!(
        op("{\"op\": \"frame.upsert\", \"frame\": {\"kind\": \"tool_call\"}}"),
        Op::Frame { kind: FrameKind::Working, .. }
    ));
    assert!(matches!(
        op("{\"op\": \"frame.upsert\", \"frame\": {\"kind\": \"notice\"}}"),
        Op::Frame { kind: FrameKind::Quiet, .. }
    ));
    match op("{\"op\": \"append\", \"target\": {\"type\": \"frame\", \"frameId\": \"f\"}, \"offset\": 0, \"text\": \"x\"}") {
        Op::Append { frame } => assert_eq!(frame, "f"),
        _ => panic!("no text added"),
    }
    assert!(matches!(
        op("{\"op\": \"append\", \"target\": {\"type\": \"turn\", \"frameId\": \"f\"}}"),
        Op::Other
    ));
    assert!(matches!(op("{\"op\": \"step.upsert\", \"state\": \"running\"}"), Op::Step));
    assert!(matches!(
        op("{\"op\": \"interaction.upsert\", \"interaction\": {\"status\": \"pending\"}}"),
        Op::Ask
    ));
    assert!(matches!(op("{\"op\": \"interaction.upsert\", \"status\": \"pending\"}"), Op::Ask));
    assert!(matches!(op("{\"op\": \"interaction.upsert\", \"status\": \"done\"}"), Op::Other));
    for state in ["completed", "failed", "cancelled"] {
        let text = format!("{{\"op\": \"turn.upsert\", \"turn\": {{\"state\": \"{state}\"}}}}");
        assert!(matches!(op(&text), Op::TurnOver));
    }
    assert!(matches!(op("{\"op\": \"turn.upsert\", \"state\": \"running\"}"), Op::Other));
    assert!(matches!(op("{\"op\": \"turn.upsert\", \"state\": \"queued\"}"), Op::Other));
    assert!(matches!(op("{}"), Op::Other));
}

#[test]
fn transcript_event_keeps_the_order() {
    let text = "{\"type\": \"transcript.ops\", \"session_id\": \"s\", \"payload\": {\"ops\": [\
        {\"op\": \"step.upsert\"}, {\"op\": \"turn.upsert\", \"state\": \"failed\"}]}}";
    match read(text) {
        Event::Transcript { id, ops } => {
            assert_eq!(id, "s");
            assert_eq!(ops.len(), 2);
            assert!(matches!(ops[0], Op::Step));
            assert!(matches!(ops[1], Op::TurnOver));
        }
        _ => panic!("no transcript"),
    }
}

#[test]
fn unknown_phases_are_named() {
    for kind in ["retrying", "awaiting_approval", "interrupted", "ended", ""] {
        let text = format!(
            "{{\"type\":\"agent.status.updated\",\"session_id\":\"a\",\"payload\":{{\"phase\":{{\"kind\":\"{kind}\"}}}}}}"
        );
        match read(&text) {
            Event::UnknownPhase(name) => assert_eq!(name, kind),
            _ => panic!("not unknown"),
        }
    }
}
