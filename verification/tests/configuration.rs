use roost::codec::parse_json;
use roost::json::Json;
use roost::models::configuration::{
    env_string, Allocation, OutputLineMatcher, PatternReplace, ReplaceValue, ServerConfig,
};

fn rules(file: &Json) -> Vec<PatternReplace> {
    items(file, "replace").iter().map(|r| PatternReplace::from_json(r).unwrap()).collect()
}

fn items<'a>(d: &'a Json, path: &str) -> &'a Vec<Json> {
    match d.get_at_path(path) {
        Some(Json::Array(a)) => a,
        other => panic!("{other:?}"),
    }
}

fn text<'a>(d: &'a Json, path: &str) -> &'a str {
    match d.get_at_path(path) {
        Some(Json::Str(s)) => s,
        other => panic!("{other:?}"),
    }
}

#[test]
fn parses_panel_process_configuration() {
    let raw = r#"{
        "startup": {
            "done": "Server marked as running...",
            "user_interaction": ["press ENTER"],
            "strip_ansi": false
        },
        "stop": { "type": "command", "value": "stop" },
        "configs": [
            {
                "file": "server.properties",
                "parser": "properties",
                "replace": [
                    { "match": "server-port", "replace_with": "${SERVER_PORT}" },
                    { "match": "motd", "replace_with": "A Server", "if_value": "old" },
                    { "match": "legacy", "value": "old-key-form" },
                    { "match": "flag", "replace_with": true },
                    { "match": "count", "replace_with": 3 }
                ]
            },
            {
                "file": "config.yml",
                "parser": "yaml",
                "replace": [
                    { "match": "listeners.*.host", "replace_with": "0.0.0.0" },
                    { "match": "servers[0].address", "replace_with": "{{config.docker.interface}}" }
                ]
            }
        ]
    }"#;
    let raw = parse_json(raw.as_bytes()).expect("panel payload must parse");

    let done = OutputLineMatcher::from_json(raw.get_at_path("startup.done").unwrap()).unwrap();
    assert_eq!(done.len(), 1);
    assert_eq!(done[0].as_str(), "Server marked as running...");
    assert_eq!(text(&raw, "stop.type"), "command");

    let configs = items(&raw, "configs");
    assert_eq!(configs.len(), 2);
    assert_eq!(text(&configs[0], "parser"), "properties");
    let replace = rules(&configs[0]);
    assert_eq!(replace.len(), 5);
    assert_eq!(replace[0].replace_with, ReplaceValue::Str("${SERVER_PORT}".into()));
    assert_eq!(replace[1].if_value, "old");
    assert_eq!(replace[2].replace_with, ReplaceValue::Str("old-key-form".into()));
    assert_eq!(replace[3].replace_with, ReplaceValue::Bool(true));
    assert_eq!(replace[4].replace_with, ReplaceValue::Number("3".into()));

    assert_eq!(text(&configs[1], "parser"), "yaml");
    assert_eq!(rules(&configs[1]).len(), 2);
}

#[test]
fn done_line_regex_matcher() {
    let raw = r#"["plain line", "regex:^\\[Server thread/INFO\\]: Done \\("]"#;
    let raw = parse_json(raw.as_bytes()).expect("must parse");
    let done = OutputLineMatcher::from_json(&raw).unwrap();
    assert!(done[0].matches("some log plain line here"));
    assert!(!done[0].matches("no match"));
    assert!(done[1].matches("[Server thread/INFO]: Done (3.141s)! For help, type \"help\""));
    assert!(!done[1].matches("starting up"));
}

#[test]
fn done_lines_of_other_types_are_refused() {
    assert!(OutputLineMatcher::from_json(&Json::Number("3".into())).is_none());
    assert!(OutputLineMatcher::from_json(&Json::Array(vec![Json::Bool(true)])).is_none());
}

#[test]
fn environment_values_become_text() {
    assert_eq!(env_string(&Json::Str("a".into())), "a");
    assert_eq!(env_string(&Json::Bool(true)), "true");
    assert_eq!(env_string(&Json::Number("25565".into())), "25565");
    assert_eq!(env_string(&Json::Null), "");
}

#[test]
fn rules_need_a_match() {
    let raw = parse_json(br#"{"replace_with": "x"}"#).unwrap();
    assert!(PatternReplace::from_json(&raw).is_none());
}

#[test]
fn allocations_list_every_port() {
    let mut cfg = ServerConfig::default();
    cfg.allocations.default = Allocation { ip: "10.0.0.1".into(), port: 25565 };
    cfg.allocations.mappings =
        vec![("10.0.0.1".into(), vec![25565, 25566]), ("10.0.0.2".into(), vec![8080])];
    assert_eq!(cfg.default_allocation().port, 25565);
    assert_eq!(
        cfg.allocations(),
        vec![
            ("10.0.0.1".to_string(), 25565),
            ("10.0.0.1".to_string(), 25566),
            ("10.0.0.2".to_string(), 8080)
        ]
    );
}

#[test]
fn replacements_as_text() {
    let text = ReplaceValue::from_json(&Json::Str("x".into()));
    assert_eq!(text.raw_string(), "x");
    let yes = ReplaceValue::from_json(&Json::Bool(true));
    assert_eq!(yes.raw_string(), "true");
}
