use roost::codec::{parse_json, parse_yaml, pretty_json, yaml_text};
use roost::error::AppError;
use roost::models::configuration::{PatternConfig, PatternReplace, ReplaceValue};
use roost::parser::document::iterate_over_json;
use roost::parser::rewrite::{
    apply, check_size, file_step, parser_kind, FileStep, ParserKind, Rewrite, MAX_CONFIG_FILE_SIZE,
};
use roost::parser::template::{is_readable, lookup_configuration_value, to_snake, TemplatableConfig};
use serde_json::Value;

fn rule(match_: &str, replace_with: &str) -> PatternReplace {
    PatternReplace {
        match_: match_.into(),
        replace_with: ReplaceValue::Str(replace_with.into()),
        if_value: String::new(),
    }
}

fn config(parser: &str, replace: Vec<PatternReplace>) -> PatternConfig {
    PatternConfig { file: "test".into(), parser: parser.into(), replace }
}

fn daemon() -> TemplatableConfig {
    TemplatableConfig { interface: "172.18.0.1".into() }
}

fn text(s: &str) -> Value {
    Value::String(s.to_string())
}

fn apply_str(parser: &str, content: &str, rules: Vec<PatternReplace>) -> String {
    let file = config(parser, rules);
    match apply("config", content.as_bytes(), &file, &daemon()).unwrap() {
        Rewrite::Write(bytes) => String::from_utf8(bytes).unwrap(),
        Rewrite::Skip => content.to_string(),
    }
}

#[test]
fn text_file_replaces_prefix() {
    let out = apply_str("file", "motd=A Server\nonline-mode=true\n", vec![rule("motd=", "Hello World")]);
    assert_eq!(out, "Hello World\nonline-mode=true\n");
}

#[test]
fn json_sets_nested_and_types() {
    let rules = vec![rule("network.port", "25565"), rule("online-mode", "true")];
    let out = apply_str("json", r#"{"network":{"port":1},"online-mode":false}"#, rules);
    let v: Value = serde_json::from_str(&out).unwrap();
    assert_eq!(v["network"]["port"], Value::from(25565));
    assert_eq!(v["online-mode"], text("true"));

    let rules = vec![PatternReplace {
        match_: "online-mode".into(),
        replace_with: ReplaceValue::Bool(true),
        if_value: String::new(),
    }];
    let out = apply_str("json", r#"{"online-mode":false}"#, rules);
    let v: Value = serde_json::from_str(&out).unwrap();
    assert_eq!(v["online-mode"], Value::Bool(true));
}

#[test]
fn json_wildcard() {
    let rules = vec![rule("servers.*.port", "25565")];
    let out = apply_str("json", r#"{"servers":{"a":{"port":1},"b":{"port":2}}}"#, rules);
    let v: Value = serde_json::from_str(&out).unwrap();
    assert_eq!(v["servers"]["a"]["port"], Value::from(25565));
    assert_eq!(v["servers"]["b"]["port"], Value::from(25565));
}

#[test]
fn json_array_index() {
    let rules = vec![rule("things[0].name", "first")];
    let out = apply_str("json", r#"{"things":[]}"#, rules);
    let v: Value = serde_json::from_str(&out).unwrap();
    assert_eq!(v["things"][0]["name"], text("first"));
}

#[test]
fn yaml_roundtrip() {
    let rules = vec![rule("a.b.c", "42")];
    let out = apply_str("yaml", "a:\n  b:\n    c: 1\nother: keep\n", rules);
    assert!(out.contains("c: 42"), "yaml output: {out}");
    assert!(out.contains("other: keep"));
}

#[test]
fn config_template_lookup() {
    let rules = vec![rule("bind", "{{config.docker.interface}}")];
    let out = apply_str("json", r#"{"bind":"x"}"#, rules);
    let v: Value = serde_json::from_str(&out).unwrap();
    assert_eq!(v["bind"], text("172.18.0.1"));
}

#[test]
fn properties_preserves_header_and_escapes() {
    let out = apply_str(
        "properties",
        "# my config\nmotd=A §B\nkey=val\n",
        vec![rule("key", "hello\u{00A7}world")],
    );
    assert!(out.starts_with("# my config\n"), "out: {out}");
    assert!(out.contains("key=hello\\u00a7world"), "out: {out}");
    assert!(out.contains("motd=A \\u00a7B"), "out: {out}");
}

#[test]
fn ini_section_and_key() {
    let rules = vec![rule("server.port", "25565"), rule("server.bind", "0.0.0.0")];
    let out = apply_str("ini", "[server]\nport=1\n", rules);
    assert!(out.contains("[server]"));
    assert!(out.contains("port=25565"));
    assert!(out.contains("bind=0.0.0.0"));
}

#[test]
fn xml_sets_text_and_creates_path() {
    let rules = vec![rule("config.host.name", "myhost")];
    let out = apply_str("xml", "<config></config>", rules);
    assert!(out.contains("<name>myhost</name>"), "out: {out}");
}

#[test]
fn if_value_regex() {
    let mut r = rule("port", "10");
    r.if_value = "regex:^[0-9]{4}$".into();
    let out = apply_str("json", r#"{"port":8080}"#, vec![r]);
    let v: Value = serde_json::from_str(&out).unwrap();
    assert_eq!(v["port"], text("10"));
}

#[test]
fn if_value_keeps_other_values() {
    let mut r = rule("port", "10");
    r.if_value = "8081".into();
    let out = apply_str("json", r#"{"port":8080}"#, vec![r]);
    let v: Value = serde_json::from_str(&out).unwrap();
    assert_eq!(v["port"], Value::from(8080));
}

#[test]
fn text_file_keeps_bytes_that_are_no_text() {
    let file = config("file", vec![rule("motd=", "x")]);
    let raw = b"\xff\xfe\nmotd=1\r\nlast".to_vec();
    match apply("config", &raw, &file, &daemon()).unwrap() {
        Rewrite::Write(bytes) => assert_eq!(bytes, b"\xff\xfe\nx\nlast".to_vec()),
        _ => panic!("a text file is written"),
    }
}

#[test]
fn ini_keys_without_a_section() {
    let out = apply_str("ini", "a=1\n[s]\nb=2\n", vec![rule("a", "9")]);
    assert!(out.starts_with("a=9"), "out: {out}");
    assert!(out.contains("b=2"));
}

#[test]
fn ini_dots_in_a_section_name() {
    let out = apply_str("ini", "[/Script/Engine.World]\nMaxPlayers=1\n", vec![
        rule("[/Script/Engine.World].MaxPlayers", "32"),
    ]);
    assert!(out.contains("MaxPlayers=32"), "out: {out}");
}

#[test]
fn xml_sets_an_attribute() {
    let rules = vec![rule("config.host", "[name='myhost']")];
    let out = apply_str("xml", "<config><host name=\"a\"/></config>", rules);
    assert!(out.contains("name=\"myhost\""), "out: {out}");
}

#[test]
fn xml_attributes_are_written_by_name() {
    let out = apply_str("xml", "<config c=\"3\" a=\"1\" b=\"2\"><x z=\"1\" y=\"2\"/></config>", vec![]);
    assert!(out.contains("<config a=\"1\" b=\"2\" c=\"3\">"), "out: {out}");
    assert!(out.contains("<x y=\"2\" z=\"1\""), "out: {out}");
}

#[test]
fn xml_text_is_escaped() {
    let out = apply_str("xml", "<config></config>", vec![rule("config.host", "a<b&c")]);
    assert!(out.contains("<host>a&lt;b&amp;c</host>"), "out: {out}");
}

#[test]
fn documents_refuse_paths_through_scalars() {
    let mut root = parse_json(br#"{"a":1}"#).unwrap();
    let file = config("json", vec![rule("a[0]", "x")]);
    match iterate_over_json(&mut root, &file, &daemon()) {
        Err(AppError::Internal(m)) => assert!(m.contains("a[0]"), "{m}"),
        Err(AppError::BadRequest(m)) => assert!(m.contains("a[0]"), "{m}"),
        other => panic!("{other:?}"),
    }
}

#[test]
fn configuration_names_are_looked_up_in_snake_case() {
    assert_eq!(to_snake("DockerInterface"), "docker_interface");
    assert!(is_readable("docker.interface"));
    assert!(!is_readable("token"));
    assert_eq!(lookup_configuration_value(&rule("x", "ip {{config.docker.interface}}"), &daemon()), "ip 172.18.0.1");
    assert_eq!(lookup_configuration_value(&rule("x", "plain"), &daemon()), "plain");
}

#[test]
fn files_that_are_too_large_are_refused() {
    assert!(check_size("f", MAX_CONFIG_FILE_SIZE).is_ok());
    assert!(check_size("f", MAX_CONFIG_FILE_SIZE + 1).is_err());
}

#[test]
fn parser_names() {
    assert!(matches!(parser_kind("yaml"), ParserKind::Yaml));
    assert!(matches!(parser_kind("toml"), ParserKind::Unknown));
    assert!(matches!(apply("f", b"x", &config("toml", vec![]), &daemon()), Ok(Rewrite::Skip)));
}

#[test]
fn files_outside_the_data_directory_are_left_alone() {
    assert!(matches!(file_step(false, true, "json"), FileStep::Unsafe));
    assert!(matches!(file_step(true, true, "json"), FileStep::Rewrite));
    assert!(matches!(file_step(true, false, "file"), FileStep::Absent));
}

#[test]
fn json_files_are_indented_by_four_spaces() {
    let out = apply_str("json", r#"{"b":[1,{"c":null}],"a":"x"}"#, vec![]);
    assert_eq!(out, "{\n    \"a\": \"x\",\n    \"b\": [\n        1,\n        {\n            \"c\": null\n        }\n    ]\n}");
}

#[test]
fn files_that_are_no_documents_are_refused() {
    let json = apply("f", b"{", &config("json", vec![]), &daemon());
    assert!(matches!(json, Err(AppError::BadRequest(m)) if m.starts_with("parser: invalid json config: ")));
    let yaml = apply("f", b"a: [", &config("yaml", vec![]), &daemon());
    assert!(matches!(yaml, Err(AppError::BadRequest(m)) if m.starts_with("parser: invalid yaml config: ")));
}

#[test]
fn documents_are_read_in_order() {
    let raw = br#"{"a":[1,2.5,[true,false,null],{}],"b":{"x":"1","y":{"z":[]}}}"#;
    let d = parse_json(raw).unwrap();
    assert_eq!(d.compact_text().as_bytes(), raw);
    let y = parse_yaml(b"a: [1, 2.5]\nb:\n  x: '1'\n").unwrap();
    assert_eq!(y.compact_text(), r#"{"a":[1,2.5],"b":{"x":"1"}}"#);
    assert_eq!(yaml_text(&y).unwrap(), "a:\n- 1\n- 2.5\nb:\n  x: '1'\n");
    assert_eq!(pretty_json(&parse_json(b"[]").unwrap()), b"[]");
    assert!(parse_json(b"").is_err());
    assert!(parse_yaml(b"{").is_err());
    let text = r#"{"big":1e+20,"far":-9223372036854775808,"list":[-0.0,18446744073709551615,[]],"none":{}}"#;
    let d = parse_json(text.as_bytes()).unwrap();
    let pretty = pretty_json(&d);
    assert_eq!(parse_json(&pretty).unwrap().compact_text(), d.compact_text());
    let value: Value = serde_json::from_str(text).unwrap();
    assert_eq!(yaml_text(&d).unwrap(), serde_yaml::to_string(&value).unwrap());
}

#[test]
fn numbers_keep_their_digits() {
    // read once, a number is written as it was read
    for digits in ["0.30000000000000004", "9007199254740993.5", "1.7976931348623157", "123456.78901234567"] {
        let value: Value = serde_json::from_str(digits).unwrap();
        let d = parse_json(digits.as_bytes()).unwrap();
        assert_eq!(pretty_json(&d), value.to_string().as_bytes());
        assert_eq!(yaml_text(&d).unwrap(), serde_yaml::to_string(&value).unwrap());
        let y: Value = serde_yaml::from_str(digits).unwrap();
        assert_eq!(parse_yaml(digits.as_bytes()).unwrap().compact_text(), y.to_string());
    }
}

#[test]
fn deep_documents_are_written() {
    let mut d = parse_json(b"1").unwrap();
    for _ in 0..300 {
        d = roost::json::Json::Array(vec![d]);
    }
    assert_eq!(pretty_json(&d).iter().filter(|b| **b == b'[').count(), 300);
}

#[test]
fn properties_that_end_in_backslashes() {
    // an escaped backslash ends a value, a single one goes on with the next line
    let content = "a=C:\\\\\nb=3\nc=one \\\n  two\n";
    let once = apply_str("properties", content, vec![]);
    assert_eq!(once, "a=C:\\\\\nb=3\nc=one two\n");
    assert_eq!(apply_str("properties", &once, vec![]), once);
    assert_eq!(apply_str("properties", "a=1\n", vec![rule("a", "C:\\")]), "a=C:\\\\\n");
}

#[test]
fn rewritten_properties_are_read_back() {
    let content = "# server\n\nmotd=old\nlevel-name=world\\u0021\n";
    let value = "caf\u{e9} \\ \"quoted\"\tx";
    let once = apply_str("properties", content, vec![rule("motd", value), rule("port", "25565")]);
    assert!(once.starts_with("# server\n\nmotd=caf\\u00e9 \\\\ \\\"quoted\\\"\\tx\n"), "{once}");
    assert!(once.contains("level-name=world!\n"));
    assert_eq!(apply_str("properties", &once, vec![]), once);
}

#[test]
fn rewritten_ini_files_are_read_back() {
    let content = "top=1\n[Empty]\n; note\n[Main]\nkey = a=b\n";
    let once = apply_str("ini", content, vec![rule("Main.other", "x y")]);
    assert_eq!(once, "top=1\n\n[Main]\nkey=a=b\nother=x y\n\n");
    assert_eq!(apply_str("ini", &once, vec![]), once);
}
