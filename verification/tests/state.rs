use kimi_pet::keyed::{PairSet, TextMap};
use kimi_pet::state::{aggregate, reconcile, PetState, SessionInfo, SessionState};

fn info(id: &str, busy: bool, pending: &str) -> SessionInfo {
    SessionInfo { id: id.to_string(), busy, pending: pending.to_string() }
}

fn table(entries: &[(&str, SessionState)]) -> TextMap<SessionState> {
    let mut map = TextMap::new();
    for (id, state) in entries {
        map.insert(id, *state);
    }
    map
}

#[test]
fn state_names() {
    assert_eq!(PetState::Thinking.as_str(), "thinking");
    assert_eq!(PetState::Answering.as_str(), "answering");
    assert_eq!(PetState::Approval.as_str(), "approval");
    assert_eq!(PetState::Idle.as_str(), "idle");
    assert_eq!(PetState::Offline.as_str(), "offline");
}

#[test]
fn aggregate_by_priority() {
    let (answering, approval, thinking) =
        (SessionState::Answering, SessionState::Approval, SessionState::Thinking);
    assert_eq!(aggregate(&table(&[])), PetState::Idle);
    assert_eq!(aggregate(&table(&[("a", thinking)])), PetState::Thinking);
    assert_eq!(aggregate(&table(&[("a", answering), ("b", thinking)])), PetState::Answering);
    assert_eq!(aggregate(&table(&[("a", thinking), ("b", answering)])), PetState::Answering);
    assert_eq!(
        aggregate(&table(&[("a", thinking), ("b", answering), ("c", approval)])),
        PetState::Approval
    );
    assert_eq!(aggregate(&table(&[("c", approval), ("a", thinking)])), PetState::Approval);
}

#[test]
fn reconcile_follows_reports() {
    let mut sessions = table(&[
        ("kept", SessionState::Answering),
        ("resolved", SessionState::Approval),
        ("done", SessionState::Thinking),
        ("unlisted", SessionState::Answering),
    ]);
    let infos = vec![
        info("kept", true, "none"),
        info("resolved", true, ""),
        info("done", false, "none"),
        info("asks", false, "approval"),
        info("fresh", true, "none"),
        info("quiet", false, "none"),
    ];
    assert!(reconcile(&mut sessions, &infos));
    assert_eq!(sessions.get("kept"), Some(SessionState::Answering));
    assert_eq!(sessions.get("resolved"), Some(SessionState::Thinking));
    assert_eq!(sessions.get("done"), None);
    assert_eq!(sessions.get("asks"), Some(SessionState::Approval));
    assert_eq!(sessions.get("fresh"), Some(SessionState::Thinking));
    assert_eq!(sessions.get("quiet"), None);
    assert_eq!(sessions.get("unlisted"), Some(SessionState::Answering));
    assert!(!reconcile(&mut sessions, &infos));
}

#[test]
fn reconcile_without_reports() {
    let mut sessions = table(&[("a", SessionState::Thinking)]);
    assert!(!reconcile(&mut sessions, &vec![]));
    assert_eq!(sessions.get("a"), Some(SessionState::Thinking));
}

#[test]
fn reconcile_in_order_where_reports_repeat() {
    let mut sessions = table(&[]);
    let infos = vec![info("a", true, "none"), info("a", false, "none")];
    assert!(reconcile(&mut sessions, &infos));
    assert_eq!(sessions.get("a"), None);
    assert!(reconcile(&mut sessions, &infos));
}

#[test]
fn pending_outweighs_busy() {
    let mut sessions = table(&[("a", SessionState::Answering)]);
    assert!(reconcile(&mut sessions, &vec![info("a", true, "question")]));
    assert_eq!(sessions.get("a"), Some(SessionState::Approval));
}

#[test]
fn text_map_replaces_and_removes() {
    let mut map: TextMap<u64> = TextMap::new();
    map.insert("a", 1);
    map.insert("b", 2);
    map.insert("a", 3);
    assert_eq!(map.get("a"), Some(3));
    let mut values = map.values();
    values.sort();
    assert_eq!(values, vec![2, 3]);
    map.remove("a");
    map.remove("c");
    assert_eq!(map.get("a"), None);
    assert_eq!(map.get("b"), Some(2));
}

#[test]
fn pair_set_tells_both_parts_apart() {
    let mut set = PairSet::new();
    set.insert("a", "x");
    set.insert("a", "x");
    assert!(set.contains("a", "x"));
    assert!(!set.contains("x", "a"));
    assert!(!set.contains("a", "y"));
    set.insert("b", "x");
    set.remove("a", "x");
    assert!(!set.contains("a", "x"));
    assert!(set.contains("b", "x"));
}

#[test]
fn reports_in_parts() {
    let parts = || {
        (
            vec![info("a", true, "none"), info("b", false, "question")],
            vec![info("a", false, "none"), info("c", true, "none")],
        )
    };
    let mut apart = table(&[("c", SessionState::Answering)]);
    let (first, second) = parts();
    let changed = reconcile(&mut apart, &first) | reconcile(&mut apart, &second);
    let mut at_once = table(&[("c", SessionState::Answering)]);
    let (mut all, second) = parts();
    all.extend(second);
    assert_eq!(reconcile(&mut at_once, &all), changed);
    for id in ["a", "b", "c"] {
        assert_eq!(apart.get(id), at_once.get(id));
    }
}

#[test]
fn tables_together_show_the_weightier() {
    let states = [SessionState::Thinking, SessionState::Answering, SessionState::Approval];
    for (i, a) in states.iter().enumerate() {
        for (j, b) in states.iter().enumerate() {
            let weightier = if i < j { *b } else { *a };
            assert_eq!(
                aggregate(&table(&[("a", *a), ("b", *b)])),
                aggregate(&table(&[("x", weightier)]))
            );
        }
    }
}
