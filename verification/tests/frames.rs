use kimi_pet::frames::{pong_frame, subscribe_frame, sv2_frame};
use kimi_pet::json::{parse, render, Json};

#[test]
fn subscription_frames() {
    let ids = vec!["a".to_string(), "b \"c\"".to_string()];
    assert_eq!(
        subscribe_frame(&ids, true),
        "{\"id\":\"sub-0\",\"payload\":{\"session_ids\":[\"a\",\"b \\\"c\\\"\"]},\"type\":\"subscribe\"}"
    );
    assert_eq!(
        subscribe_frame(&vec!["a".to_string()], false),
        "{\"payload\":{\"session_ids\":[\"a\"]},\"type\":\"subscribe\"}"
    );
}

#[test]
fn transcript_frame() {
    assert_eq!(
        sv2_frame("s1"),
        "{\"id\":\"sv2-s1\",\"payload\":{\"session_id\":\"s1\",\"transcript\":{\"*\":\"delta\"}},\"type\":\"subscribe_v2\"}"
    );
}

#[test]
fn pong_repeats_the_payload() {
    assert_eq!(pong_frame(Json::Null), "{\"payload\":null,\"type\":\"pong\"}");
    let payload = parse("{\"z\": [1, -2, 0.5, true, null, \"t\"], \"a\": {}}").unwrap();
    assert_eq!(
        pong_frame(payload),
        "{\"payload\":{\"a\":{},\"z\":[1,-2,0.5,true,null,\"t\"]},\"type\":\"pong\"}"
    );
}

#[test]
fn text_that_is_no_json() {
    assert!(parse("").is_none());
    assert!(parse("{").is_none());
    assert!(parse("{} {}").is_none());
    assert!(parse("null").is_some());
}

#[test]
fn values_are_read_back_as_written() {
    let text = "{\"b\":[true,18446744073709551615,-7],\"t\":\"\\u00e9\\n\"}";
    let json = parse(text).unwrap();
    assert_eq!(json.get_str("t"), Some("\u{e9}\n"));
    let items = json.get("b").unwrap().as_array().unwrap();
    assert_eq!(items.len(), 3);
    assert_eq!(items[0].as_bool(), Some(true));
    assert_eq!(items[1].as_u64(), Some(u64::MAX));
    assert_eq!(items[2].as_u64(), None);
    assert_eq!(render(json), "{\"b\":[true,18446744073709551615,-7],\"t\":\"\u{e9}\\n\"}");
}

#[test]
fn later_member_is_written() {
    let json = Json::Object(vec![
        ("k".to_string(), Json::Unsigned(1)),
        ("a".to_string(), Json::Bool(false)),
        ("k".to_string(), Json::Unsigned(2)),
    ]);
    assert_eq!(render(json), "{\"a\":false,\"k\":2}");
}

#[test]
fn members_can_be_taken_out() {
    let json = parse("{\"a\": 1, \"b\": 2, \"c\": 3}").unwrap();
    assert_eq!(json.take("a").unwrap().as_u64(), Some(1));
    assert!(parse("{\"a\": 1}").unwrap().take("x").is_none());
    assert!(Json::Null.take("x").is_none());
}
