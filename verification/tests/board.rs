use kimi_pet::board::Board;
use kimi_pet::events::{Change, FrameKind, Op};
use kimi_pet::state::{PetState, SessionInfo, SessionState};

fn body(frame: &str) -> Op {
    Op::Frame { id: Some(frame.to_string()), kind: FrameKind::Body }
}

fn working() -> Op {
    Op::Frame { id: None, kind: FrameKind::Working }
}

fn append(frame: &str) -> Op {
    Op::Append { frame: frame.to_string() }
}

#[test]
fn phases_count() {
    let mut board = Board::new();
    board.change("s", Change::Phase(Some(SessionState::Thinking)), 0);
    assert_eq!(board.overall(), PetState::Thinking);
    board.change("s", Change::Phase(Some(SessionState::Answering)), 0);
    assert_eq!(board.overall(), PetState::Answering);
    board.change("s", Change::Phase(Some(SessionState::Thinking)), 0);
    assert_eq!(board.overall(), PetState::Thinking);
    board.change("s", Change::Phase(None), 0);
    assert_eq!(board.overall(), PetState::Idle);
}

#[test]
fn waiting_is_kept_through_phases() {
    let mut board = Board::new();
    board.change("s", Change::Ask, 0);
    board.change("s", Change::Phase(Some(SessionState::Thinking)), 0);
    board.change("s", Change::Phase(Some(SessionState::Answering)), 0);
    board.change("s", Change::Phase(None), 0);
    board.change("s", Change::Text, 0);
    board.change("s", Change::Rest, 0);
    assert_eq!(board.overall(), PetState::Approval);
    board.change("s", Change::Answered, 9_000);
    assert_eq!(board.overall(), PetState::Thinking);
}

#[test]
fn text_events_have_a_tail_too() {
    let mut board = Board::new();
    board.change("s", Change::Text, 1_000);
    assert_eq!(board.overall(), PetState::Answering);
    board.change("s", Change::Phase(Some(SessionState::Thinking)), 3_000);
    assert_eq!(board.overall(), PetState::Answering);
    board.change("s", Change::Phase(Some(SessionState::Thinking)), 3_001);
    assert_eq!(board.overall(), PetState::Thinking);
}

#[test]
fn waiting_is_kept_through_transcript() {
    let mut board = Board::new();
    board.transcribe("s", &vec![working()], 0);
    board.transcribe("s", &vec![Op::Ask], 0);
    assert_eq!(board.overall(), PetState::Approval);
    board.transcribe("s", &vec![body("f"), append("f"), Op::Step, working(), Op::TurnOver], 9);
    assert_eq!(board.overall(), PetState::Approval);
    board.change("s", Change::Phase(None), 9);
    board.change("s", Change::Phase(Some(SessionState::Thinking)), 9);
    board.change("s", Change::Rest, 9);
    assert_eq!(board.overall(), PetState::Approval);
    board.change("s", Change::Answered, 9);
    assert_eq!(board.overall(), PetState::Thinking);
    board.change("s", Change::Ask, 9);
    board.change("s", Change::Ended, 9);
    assert_eq!(board.overall(), PetState::Idle);
}

#[test]
fn answers_have_a_tail() {
    let mut board = Board::new();
    board.transcribe("s", &vec![body("f")], 1_000);
    assert_eq!(board.overall(), PetState::Answering);
    board.transcribe("s", &vec![Op::Step], 3_000);
    assert_eq!(board.overall(), PetState::Answering);
    board.transcribe("s", &vec![append("f")], 3_500);
    board.transcribe("s", &vec![working()], 5_500);
    board.change("s", Change::Phase(Some(SessionState::Thinking)), 5_500);
    assert_eq!(board.overall(), PetState::Answering);
    board.transcribe("s", &vec![working()], 5_501);
    assert_eq!(board.overall(), PetState::Thinking);
    board.transcribe("s", &vec![append("f")], 5_600);
    assert_eq!(board.overall(), PetState::Answering);
    board.transcribe("s", &vec![Op::TurnOver], 5_600);
    assert_eq!(board.overall(), PetState::Idle);
}

#[test]
fn repetition_wakes_nobody() {
    let mut board = Board::new();
    board.transcribe("s", &vec![Op::Step, Op::Ask, append("f"), Op::Other], 0);
    assert_eq!(board.overall(), PetState::Idle);
    board.transcribe("s", &vec![body("f"), Op::TurnOver, append("f"), Op::Step], 0);
    assert_eq!(board.overall(), PetState::Idle);
}

#[test]
fn only_body_frames_answer() {
    let mut board = Board::new();
    board.transcribe("s", &vec![working(), append("unknown")], 0);
    assert_eq!(board.overall(), PetState::Thinking);
    let quiet = Op::Frame { id: Some("f".to_string()), kind: FrameKind::Quiet };
    board.transcribe("s", &vec![body("f"), quiet], 0);
    board.transcribe("s", &vec![working()], 9_000);
    board.transcribe("s", &vec![append("f")], 9_000);
    assert_eq!(board.overall(), PetState::Thinking);
    board.transcribe("t", &vec![working(), body("g")], 9_000);
    board.transcribe("t", &vec![Op::TurnOver], 9_000);
    board.transcribe("s", &vec![append("g")], 9_000);
    assert_eq!(board.overall(), PetState::Thinking);
}

#[test]
fn sessions_do_not_touch_each_other() {
    let mut board = Board::new();
    board.change("a", Change::Ask, 0);
    board.change("b", Change::Phase(Some(SessionState::Answering)), 0);
    assert_eq!(board.overall(), PetState::Approval);
    board.change("a", Change::Ended, 0);
    assert_eq!(board.overall(), PetState::Answering);
}

#[test]
fn rest_ends_activity() {
    let mut board = Board::new();
    board.change("a", Change::Phase(Some(SessionState::Answering)), 0);
    board.change("a", Change::Rest, 0);
    assert_eq!(board.overall(), PetState::Idle);
}

#[test]
fn reports_settle_the_board() {
    let mut board = Board::new();
    board.change("a", Change::Ask, 0);
    let infos =
        vec![SessionInfo { id: "a".to_string(), busy: false, pending: "none".to_string() }];
    assert!(board.reconcile(&infos));
    assert_eq!(board.overall(), PetState::Idle);
    assert!(!board.reconcile(&infos));
}

#[test]
fn subscriptions_are_remembered() {
    let mut board = Board::new();
    assert!(!board.is_subscribed("a"));
    board.subscribe("a");
    assert!(board.is_subscribed("a"));
    assert!(!board.is_subscribed("b"));
}
