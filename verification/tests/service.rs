use kimi_pet::json::{parse, Json};
use kimi_pet::service::{
    events_url, fetch_sessions, find_port, healthz_url, instance_port, instance_ports,
    list_session_ids, read_token, session_list, sessions_url, web_url,
};

#[test]
fn token_is_trimmed() {
    assert_eq!(read_token(Some(" \n\tsecret\u{3000}\r\n")), Some("secret".to_string()));
    assert_eq!(read_token(Some("a b")), Some("a b".to_string()));
    assert_eq!(read_token(Some(" \n ")), None);
    assert_eq!(read_token(Some("")), None);
    assert_eq!(read_token(None), None);
}

#[test]
fn ports_of_instances() {
    let files: Vec<(String, String)> = [
        ("a.json", "{\"port\": 60001, \"pid\": 7}"),
        ("b.json", "not json"),
        ("c.json", "{\"port\": 70000}"),
        ("d.json", "{\"port\": -1}"),
        ("e.json", "{\"port\": 1.5}"),
        ("f.json", "{\"port\": \"60002\"}"),
        ("g.json", "[1]"),
        ("h.json", "{\"port\": 65535}"),
        ("i.json", "{\"port\": 0}"),
    ]
    .iter()
    .map(|(name, text)| (name.to_string(), text.to_string()))
    .collect();
    assert_eq!(instance_ports(&files), vec![60001, 65535, 0]);
}

#[test]
fn only_json_files_report_ports() {
    let file = |name: &str| vec![(name.to_string(), "{\"port\":58700}".to_string())];
    assert_eq!(instance_ports(&file("old.json")), vec![58700]);
    assert_eq!(instance_ports(&file("\u{5b9e}\u{4f8b}.json")), vec![58700]);
    for name in ["old.bak", "json", "old.json~", "old.JSON", "", "a.json.tmp"] {
        assert!(instance_ports(&file(name)).is_empty(), "{}", name);
    }
}

#[test]
fn port_in_a_value() {
    let json = Json::Object(vec![("port".to_string(), Json::Unsigned(58700))]);
    assert_eq!(instance_port(&json), Some(58700));
    let too_large = Json::Object(vec![("port".to_string(), Json::Unsigned(65536))]);
    assert_eq!(instance_port(&too_large), None);
    assert_eq!(instance_port(&Json::Null), None);
}

#[test]
fn reported_ports_are_probed_first() {
    let mut search = find_port(vec![60001]);
    assert_eq!(search.candidate(), Some(60001));
    assert_eq!(search.report(false), None);
    assert_eq!(search.candidate(), Some(58627));
    assert_eq!(search.report(false), None);
    assert_eq!(search.candidate(), Some(58628));
    assert_eq!(search.report(true), Some(58628));
}

#[test]
fn search_ends_after_a_hundred_ports() {
    let mut search = find_port(vec![]);
    let mut probes = 0;
    let mut last = 0;
    while let Some(port) = search.candidate() {
        probes += 1;
        last = port;
        assert_eq!(search.report(false), None);
    }
    assert_eq!(probes, 100);
    assert_eq!(last, 58726);
    assert_eq!(search.report(true), None);
}

#[test]
fn addresses() {
    assert_eq!(healthz_url(58627), "http://127.0.0.1:58627/api/v1/healthz");
    assert_eq!(sessions_url(80), "http://127.0.0.1:80/api/v1/sessions?page_size=100");
    assert_eq!(events_url(7), "ws://127.0.0.1:7/api/v1/ws");
    assert_eq!(events_url(0), "ws://127.0.0.1:0/api/v1/ws");
    assert_eq!(
        web_url(Some("tok"), Some(65535)),
        Some("http://127.0.0.1:65535/#token=tok".to_string())
    );
    assert_eq!(web_url(None, Some(1)), None);
    assert_eq!(web_url(Some("tok"), None), None);
}

#[test]
fn sessions_under_items() {
    let text = "{\"data\": {\"items\": [\
        {\"id\": \"a\", \"busy\": true, \"pending_interaction\": \"approval\"},\
        {\"busy\": true},\
        {\"id\": \"b\"},\
        {\"id\": 3},\
        {\"id\": \"c\", \"busy\": \"yes\", \"pending_interaction\": null}]}}";
    let infos = fetch_sessions(Some(text));
    let seen: Vec<(String, bool, String)> =
        infos.iter().map(|i| (i.id.clone(), i.busy, i.pending.clone())).collect();
    assert_eq!(
        seen,
        vec![
            ("a".to_string(), true, "approval".to_string()),
            ("b".to_string(), false, "none".to_string()),
            ("c".to_string(), false, "none".to_string()),
        ]
    );
    assert_eq!(list_session_ids(&infos), vec!["a", "b", "c"]);
}

#[test]
fn sessions_right_under_data() {
    let infos = fetch_sessions(Some("{\"data\": [{\"id\": \"x\"}]}"));
    assert_eq!(list_session_ids(&infos), vec!["x"]);
}

#[test]
fn answers_without_sessions() {
    assert!(fetch_sessions(None).is_empty());
    assert!(fetch_sessions(Some("")).is_empty());
    assert!(fetch_sessions(Some("{}")).is_empty());
    assert!(fetch_sessions(Some("{\"data\": {\"items\": 5}}")).is_empty());
    assert!(fetch_sessions(Some("[{\"id\": \"x\"}]")).is_empty());
}

#[test]
fn session_list_of_a_value() {
    let envelope = parse("{\"data\": {\"items\": [{\"id\": \"q\", \"busy\": true}]}}").unwrap();
    let infos = session_list(&envelope);
    assert_eq!(infos.len(), 1);
    assert_eq!(infos[0].id, "q");
    assert!(infos[0].busy);
    assert_eq!(infos[0].pending, "none");
}
