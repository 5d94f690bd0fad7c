use kimi_pet::pet::{current_state, set_auto_quit, state_cell, Pet};
use kimi_pet::runner::{run, Next, Reaction, Signal, Stage};
use kimi_pet::state::SessionInfo;

fn info(id: &str, busy: bool, pending: &str) -> SessionInfo {
    SessionInfo { id: id.to_string(), busy, pending: pending.to_string() }
}

fn located(token: Option<&str>, port: Option<u16>) -> Signal {
    Signal::Located { token: token.map(|t| t.to_string()), port }
}

fn text(s: &str) -> Signal {
    Signal::Text { text: s.to_string() }
}

fn online(pet: &mut Pet, sessions: Vec<SessionInfo>) -> (Stage, Reaction) {
    let (stage, _) = run(pet, Stage::Seeking, located(Some("tok"), Some(58627)), 0);
    let (stage, _) = run(pet, stage, Signal::Dialed, 0);
    run(pet, stage, Signal::Listed { infos: sessions }, 0)
}

fn texts(reaction: &Reaction) -> Vec<String> {
    reaction.frames.iter().map(|f| f.text.clone()).collect()
}

#[test]
fn the_way_to_a_connection() {
    let mut pet = state_cell();
    let (stage, reaction) = run(&mut pet, Stage::Seeking, located(Some("tok"), Some(58627)), 0);
    match reaction.next {
        Next::Dial { url, protocol } => {
            assert_eq!(url, "ws://127.0.0.1:58627/api/v1/ws");
            assert_eq!(protocol, "kimi-code.bearer.tok");
        }
        _ => panic!("not dialing"),
    }
    let (stage, reaction) = run(&mut pet, stage, Signal::Dialed, 5);
    assert!(pet.connected_once);
    assert_eq!(current_state(&pet), "idle");
    match reaction.next {
        Next::List { url } => {
            assert_eq!(url, "http://127.0.0.1:58627/api/v1/sessions?page_size=100");
        }
        _ => panic!("not listing"),
    }
    let infos = vec![info("a", false, "none"), info("b", true, "none")];
    let (stage, reaction) = run(&mut pet, stage, Signal::Listed { infos }, 6);
    assert_eq!(reaction.announce, None);
    assert_eq!(
        texts(&reaction),
        vec![
            "{\"id\":\"sub-0\",\"payload\":{\"session_ids\":[\"a\",\"b\"]},\"type\":\"subscribe\"}",
            "{\"id\":\"sv2-a\",\"payload\":{\"session_id\":\"a\",\"transcript\":{\"*\":\"delta\"}},\"type\":\"subscribe_v2\"}",
            "{\"id\":\"sv2-b\",\"payload\":{\"session_id\":\"b\",\"transcript\":{\"*\":\"delta\"}},\"type\":\"subscribe_v2\"}",
        ]
    );
    assert!(reaction.frames.iter().all(|f| f.marks.is_empty()));
    assert!(matches!(reaction.next, Next::Listen));
    assert!(matches!(stage, Stage::Online { .. }));
}

#[test]
fn no_token_or_no_service() {
    let mut pet = state_cell();
    for signal in [located(None, Some(1)), located(Some("t"), None), located(None, None)] {
        let (stage, reaction) = run(&mut pet, Stage::Seeking, signal, 100);
        assert!(matches!(stage, Stage::Seeking));
        assert!(matches!(reaction.next, Next::Locate { pause: true }));
        assert_eq!(pet.disconnected_since, Some(100));
    }
}

#[test]
fn tokens_that_fit_no_header() {
    let mut pet = state_cell();
    for token in ["a\nb", "a\u{7f}b", "\0"] {
        let (stage, reaction) = run(&mut pet, Stage::Seeking, located(Some(token), Some(1)), 9);
        assert!(matches!(stage, Stage::Seeking));
        assert!(matches!(reaction.next, Next::Locate { pause: true }));
        assert_eq!(pet.disconnected_since, None);
    }
    for token in ["a\tb", "a b", "\u{4f60}\u{597d}", "~"] {
        let (stage, _) = run(&mut pet, Stage::Seeking, located(Some(token), Some(1)), 9);
        assert!(matches!(stage, Stage::Dialing { .. }));
    }
}

#[test]
fn failures_on_the_way() {
    let mut pet = state_cell();
    let (stage, _) = run(&mut pet, Stage::Seeking, located(Some("t"), Some(1)), 0);
    let (stage, reaction) = run(&mut pet, stage, Signal::RequestFailed, 7);
    assert!(matches!(stage, Stage::Seeking));
    assert!(matches!(reaction.next, Next::Locate { pause: true }));
    assert_eq!(pet.disconnected_since, None);
    let (stage, _) = run(&mut pet, stage, located(Some("t"), Some(1)), 8);
    let (stage, reaction) = run(&mut pet, stage, Signal::DialFailed, 9);
    assert!(matches!(stage, Stage::Seeking));
    assert!(matches!(reaction.next, Next::Locate { pause: true }));
    assert_eq!(pet.disconnected_since, Some(9));
    assert!(!pet.connected_once);
}

#[test]
fn events_drive_the_state() {
    let mut pet = state_cell();
    let (mut stage, _) = online(&mut pet, vec![]);
    let steps = [
        ("{\"type\":\"turn.started\",\"session_id\":\"s\"}", Some("thinking")),
        ("{\"type\":\"agent.status.updated\",\"session_id\":\"s\",\"payload\":{\"phase\":{\"kind\":\"running\"}}}", None),
        ("{\"type\":\"agent.status.updated\",\"session_id\":\"s\",\"payload\":{\"phase\":{\"kind\":\"streaming\",\"stream\":\"assistant\"}}}", Some("answering")),
        ("{\"type\":\"event.approval.requested\",\"session_id\":\"t\"}", Some("approval")),
        ("{\"type\":\"event.approval.resolved\",\"session_id\":\"t\"}", Some("answering")),
        ("{\"type\":\"turn.ended\",\"session_id\":\"s\"}", Some("thinking")),
        ("{\"type\":\"error\",\"session_id\":\"t\"}", Some("idle")),
        ("not json", None),
        ("{\"type\":\"unknown\",\"session_id\":\"t\"}", None),
    ];
    for (event, announce) in steps {
        let (next, reaction) = run(&mut pet, stage, text(event), 50);
        assert_eq!(reaction.announce, announce, "{}", event);
        assert!(reaction.frames.is_empty());
        assert!(!reaction.exit);
        assert!(matches!(reaction.next, Next::Listen));
        stage = next;
    }
}

#[test]
fn transcript_of_a_turn() {
    let mut pet = state_cell();
    let (mut stage, _) = online(&mut pet, vec![info("s", false, "none")]);
    let ops = |list: &str| {
        format!("{{\"type\":\"transcript.ops\",\"session_id\":\"s\",\"payload\":{{\"ops\":[{list}]}}}}")
    };
    let steps = [
        (0, ops("{\"op\":\"frame.upsert\",\"frame\":{\"kind\":\"thinking\",\"frameId\":\"1\"}}"), Some("thinking")),
        (10, ops("{\"op\":\"frame.upsert\",\"frame\":{\"kind\":\"text\",\"role\":\"assistant\",\"frameId\":\"2\"}}"), Some("answering")),
        (1_500, ops("{\"op\":\"append\",\"target\":{\"type\":\"frame\",\"frameId\":\"2\"},\"offset\":3,\"text\":\"abc\"}"), None),
        (3_500, ops("{\"op\":\"step.upsert\",\"step\":{\"state\":\"running\"}}"), None),
        (3_501, ops("{\"op\":\"step.upsert\",\"step\":{\"state\":\"running\"}}"), Some("thinking")),
        (3_600, ops("{\"op\":\"interaction.upsert\",\"interaction\":{\"status\":\"pending\"}}"), Some("approval")),
        (3_700, ops("{\"op\":\"step.upsert\"}"), None),
        (3_800, "{\"type\":\"event.approval.resolved\",\"session_id\":\"s\"}".to_string(), Some("thinking")),
        (3_900, ops("{\"op\":\"turn.upsert\",\"turn\":{\"state\":\"completed\"}}"), Some("idle")),
        (4_000, ops("{\"op\":\"step.upsert\"}"), None),
    ];
    for (now, event, announce) in steps {
        let (next, reaction) = run(&mut pet, stage, text(&event), now);
        assert_eq!(reaction.announce, announce, "{}", event);
        stage = next;
    }
}

#[test]
fn pings_are_answered() {
    let mut pet = state_cell();
    let (stage, _) = online(&mut pet, vec![]);
    let (stage, reaction) = run(&mut pet, stage, text("{\"type\":\"ping\",\"payload\":{\"t\":1.25}}"), 1);
    assert_eq!(texts(&reaction), vec!["{\"payload\":{\"t\":1.25},\"type\":\"pong\"}"]);
    let (_, reaction) = run(&mut pet, stage, text("{\"type\":\"ping\"}"), 1);
    assert_eq!(texts(&reaction), vec!["{\"payload\":null,\"type\":\"pong\"}"]);
}

#[test]
fn new_sessions_are_subscribed_to() {
    let mut pet = state_cell();
    let (stage, reaction) = online(&mut pet, vec![]);
    assert!(reaction.frames.is_empty());
    let created = text("{\"type\":\"event.session.created\",\"payload\":{\"id\":\"n\"}}");
    let (stage, reaction) = run(&mut pet, stage, created, 1);
    assert_eq!(
        texts(&reaction),
        vec![
            "{\"payload\":{\"session_ids\":[\"n\"]},\"type\":\"subscribe\"}",
            "{\"id\":\"sv2-n\",\"payload\":{\"session_id\":\"n\",\"transcript\":{\"*\":\"delta\"}},\"type\":\"subscribe_v2\"}",
        ]
    );
    assert_eq!(reaction.frames[0].marks, vec!["n"]);
    assert!(reaction.frames[1].marks.is_empty());
    let polled = || Signal::Polled { infos: vec![info("n", false, "none")] };
    let (stage, reaction) = run(&mut pet, stage, polled(), 2);
    assert_eq!(reaction.frames.len(), 2);
    let (stage, reaction) = run(&mut pet, stage, Signal::Subscribed { ids: vec!["n".to_string()] }, 3);
    assert!(reaction.frames.is_empty());
    let (stage, reaction) = run(&mut pet, stage, polled(), 4);
    assert!(reaction.frames.is_empty());
    let nameless = text("{\"type\":\"event.session.created\",\"payload\":{}}");
    let (_, reaction) = run(&mut pet, stage, nameless, 5);
    assert!(reaction.frames.is_empty());
}

#[test]
fn polls_correct_the_state() {
    let mut pet = state_cell();
    let (stage, _) = online(&mut pet, vec![info("a", true, "none")]);
    let busy = Signal::Polled { infos: vec![info("a", true, "none")] };
    let (stage, reaction) = run(&mut pet, stage, busy, 1);
    assert_eq!(reaction.announce, Some("thinking"));
    assert!(reaction.frames.is_empty());
    let asks = Signal::Polled { infos: vec![info("a", true, "approval")] };
    let (stage, reaction) = run(&mut pet, stage, asks, 2);
    assert_eq!(reaction.announce, Some("approval"));
    let idle = Signal::Polled { infos: vec![info("a", false, "none")] };
    let (_, reaction) = run(&mut pet, stage, idle, 3);
    assert_eq!(reaction.announce, Some("idle"));
}

#[test]
fn end_of_the_stream() {
    let mut pet = state_cell();
    for signal in [Signal::Lost, Signal::Closed { reason: None }, Signal::Closed { reason: Some("bye".to_string()) }] {
        let (stage, _) = online(&mut pet, vec![]);
        let (stage, reaction) = run(&mut pet, stage, signal, 70);
        assert!(matches!(stage, Stage::Seeking));
        assert!(!reaction.exit);
        assert_eq!(reaction.announce, None);
        assert_eq!(pet.disconnected_since, Some(70));
        assert_eq!(current_state(&pet), "idle");
    }
    let (_, reaction) = run(&mut pet, Stage::Seeking, located(None, None), 10_070);
    assert_eq!(reaction.announce, Some("offline"));
}

#[test]
fn shutdown_takes_the_companion_along() {
    let shutdown = || Signal::Closed { reason: Some("server shutting down".to_string()) };
    let mut pet = state_cell();
    let (stage, _) = online(&mut pet, vec![]);
    let (_, reaction) = run(&mut pet, stage, shutdown(), 1);
    assert!(!reaction.exit);
    set_auto_quit(&mut pet, true);
    let (stage, _) = online(&mut pet, vec![]);
    let (_, reaction) = run(&mut pet, stage, shutdown(), 1);
    assert!(reaction.exit);
    assert!(matches!(reaction.next, Next::Locate { pause: true }));
}

#[test]
fn signals_out_of_place_change_nothing() {
    let mut pet = state_cell();
    let (stage, reaction) = run(&mut pet, Stage::Seeking, text("{}"), 0);
    assert!(matches!(stage, Stage::Seeking));
    assert!(matches!(reaction.next, Next::Locate { pause: false }));
    let (stage, _) = online(&mut pet, vec![]);
    let (stage, reaction) = run(&mut pet, stage, Signal::Noise, 0);
    assert!(matches!(stage, Stage::Online { .. }));
    assert!(matches!(reaction.next, Next::Listen));
    let (stage, _) = run(&mut pet, stage, Signal::Dialed, 0);
    assert!(matches!(stage, Stage::Online { .. }));
}

#[test]
fn a_new_connection_forgets_the_old_sessions() {
    let mut pet = state_cell();
    let (stage, _) = online(&mut pet, vec![]);
    let ask = text("{\"type\":\"event.question.requested\",\"session_id\":\"s\"}");
    let (stage, reaction) = run(&mut pet, stage, ask, 1);
    assert_eq!(reaction.announce, Some("approval"));
    let (_, _) = run(&mut pet, stage, Signal::Lost, 2);
    assert_eq!(current_state(&pet), "approval");
    let (_, reaction) = online(&mut pet, vec![]);
    assert_eq!(reaction.announce, Some("idle"));
}

#[test]
fn unknown_phases_change_nothing() {
    let mut pet = state_cell();
    let (stage, _) = online(&mut pet, vec![]);
    let phase = |kind: &str| {
        text(&format!(
            "{{\"type\":\"agent.status.updated\",\"session_id\":\"a\",\"payload\":{{\"phase\":{{\"kind\":\"{kind}\"}}}}}}"
        ))
    };
    let (stage, reaction) = run(&mut pet, stage, phase("running"), 1);
    assert_eq!(reaction.announce, Some("thinking"));
    assert_eq!(reaction.unknown_phase, None);
    let (stage, reaction) = run(&mut pet, stage, phase("retrying"), 2);
    assert_eq!(reaction.announce, None);
    assert_eq!(reaction.unknown_phase, Some("retrying".to_string()));
    assert_eq!(current_state(&pet), "thinking");
    let (_, reaction) = run(&mut pet, stage, phase("done"), 3);
    assert_eq!(reaction.announce, Some("idle"));
}

#[test]
fn phases_do_not_end_the_waiting() {
    let mut pet = state_cell();
    let (stage, _) = online(&mut pet, vec![]);
    let ask = text("{\"type\":\"event.approval.requested\",\"session_id\":\"a\"}");
    let (stage, _) = run(&mut pet, stage, ask, 1);
    let running = text(
        "{\"type\":\"agent.status.updated\",\"session_id\":\"a\",\"payload\":{\"phase\":{\"kind\":\"running\"}}}",
    );
    let (_, reaction) = run(&mut pet, stage, running, 2);
    assert_eq!(reaction.announce, None);
    assert_eq!(current_state(&pet), "approval");
}
