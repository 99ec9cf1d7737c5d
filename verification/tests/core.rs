use roost::auth::require_authorization;
use roost::cli::{
    check_configure_answer, config_target, configure, merge_defaults, merge_values, parse_flags,
    read_configure_answer, run, Command, Flags,
    DEFAULT_CONFIG_PATH,
};
use roost::config::{default_true, expand_value, expansion, Config, Expansion};
use roost::diagnostics::{collect_diagnostics, diagnostics, redact_endpoint, Findings};
use roost::digest::{Sha1Sum, Sha256Sum};
use roost::error::AppError;
use roost::ids::{canonical, is_uuid, parse_uuid};
use roost::json::{path_segments, Json};
use roost::net::{is_private_ip, is_private_origin, network_of, origin_host, to_ipv4_mapped, Ip};
use roost::numbers::{decimal_i64, decimal_u64, hex_lower, hex_u32, read_i64, read_unsigned, read_usize};
use roost::paths::{components_of, is_below, join_path};
use roost::table::Table;
use roost::text;

fn args(list: &[&str]) -> Vec<String> {
    list.iter().map(|s| s.to_string()).collect()
}

fn num(n: &str) -> Json {
    Json::Number(n.into())
}

fn obj(members: Vec<(&str, Json)>) -> Json {
    Json::Object(members.into_iter().map(|(k, v)| (k.to_string(), v)).collect())
}

#[test]
fn bearer_tokens_are_compared_whole() {
    assert_eq!(require_authorization(Some("Bearer secret"), "secret"), Ok(()));
    assert_eq!(require_authorization(Some("Bearer secre"), "secret"), Err(403));
    assert_eq!(require_authorization(Some("Bearer Secret"), "secret"), Err(403));
    assert_eq!(require_authorization(Some("secret"), "secret"), Err(401));
    assert_eq!(require_authorization(None, "secret"), Err(401));
}

#[test]
fn sha1_of_abc() {
    let mut h = Sha1Sum::new();
    h.update(b"ab");
    h.update(b"c");
    assert_eq!(h.finish(), "a9993e364706816aba3e25717850c26c9cd0d89d");
}

#[test]
fn sha256_of_abc() {
    let mut h = Sha256Sum::new();
    h.update(b"a");
    h.update(b"bc");
    assert_eq!(
        h.finish(),
        "ba7816bf8f01cfea414140de5dae2223b00361a396177a9cb410ff61f20015ad"
    );
}

#[test]
fn uuids() {
    let text = "936DA01F-9ABD-4D9D-80C7-02AF85C822A8";
    assert!(is_uuid(text));
    assert_eq!(canonical(text).unwrap(), "936da01f-9abd-4d9d-80c7-02af85c822a8");
    assert_eq!(parse_uuid(text), Some(0x936da01f9abd4d9d80c702af85c822a8));
    assert!(!is_uuid("../../etc/passwd"));
    assert_eq!(canonical("x"), None);
}

#[test]
fn errors_and_their_answers() {
    let cases = [
        (AppError::ServerNotFound, 404),
        (AppError::Unauthorized("a".into()), 401),
        (AppError::Forbidden("a".into()), 403),
        (AppError::BadRequest("a".into()), 400),
        (AppError::Unprocessable("a".into()), 422),
        (AppError::Conflict("a".into()), 409),
        (AppError::PayloadTooLarge, 413),
        (AppError::BadGateway("a".into()), 502),
        (AppError::NotImplemented("a".into()), 500),
        (AppError::Docker("a".into()), 500),
        (AppError::Io("a".into()), 500),
        (AppError::Internal("a".into()), 500),
        (AppError::Config("a".into()), 500),
    ];
    for (error, status) in cases {
        assert_eq!(error.status(), status, "{error:?}");
        assert_eq!(error.into_response().0, status, "{error:?}");
    }
    assert_eq!(AppError::Conflict("busy".into()).message(), "conflict: busy");
}

#[test]
fn commands() {
    assert!(matches!(run(&args(&[])), Command::Daemon));
    assert!(matches!(run(&args(&["version"])), Command::Version));
    assert!(matches!(run(&args(&["configure", "--node", "1"])), Command::Configure));
    assert!(matches!(run(&args(&["diagnostics"])), Command::Diagnostics));
    match run(&args(&["frobnicate"])) {
        Command::Unknown(told) => assert!(told.starts_with("unknown command `frobnicate`"), "{told}"),
        other => panic!("{other:?}"),
    }
}

fn flags(list: &[&str]) -> Result<Flags, String> {
    parse_flags(
        &args(list),
        &["panel-url", "token", "node", "config-path"],
        &["override", "allow-insecure"],
    )
}

#[test]
fn flags_take_values_and_switches() {
    let f = flags(&["--node", "3", "--allow-insecure", "t", "abc", "--node", "4"]).unwrap();
    assert_eq!(f.value("node"), Some("4"));
    assert_eq!(f.value("token"), Some("abc"));
    assert_eq!(f.value("panel-url"), None);
    assert!(f.is_on("allow-insecure"));
    assert!(!f.is_on("override"));
    assert_eq!(flags(&["--node"]).err().unwrap(), "flag --node requires a value");
    assert_eq!(flags(&["--other"]).err().unwrap(), "unknown flag --other");
}

#[test]
fn configure_needs_its_flags() {
    let all = flags(&["--panel-url", "https://panel.example/", "--token", "t", "--node", "3"]).unwrap();
    let r = configure(&all, false).unwrap();
    assert_eq!(r.url, "https://panel.example/api/application/nodes/3/configuration");
    assert_eq!(r.config_path, config_target(&all));
    assert_eq!(r.config_path, DEFAULT_CONFIG_PATH);
    assert!(!r.allow_insecure);
    assert!(configure(&flags(&["--token", "t", "--node", "3"]).unwrap(), false).is_err());
    assert!(configure(&flags(&["--panel-url", "x", "--node", "3"]).unwrap(), false).is_err());
    assert!(configure(&flags(&["--panel-url", "x", "--token", "t"]).unwrap(), false).is_err());
}

#[test]
fn existing_configurations_are_kept_without_override() {
    let f = flags(&["--panel-url", "https://p", "--token", "t", "--node", "3"]).unwrap();
    assert!(configure(&f, true).is_err());
    let f = flags(&["--panel-url", "https://p", "--token", "t", "--node", "3", "--override"]).unwrap();
    assert!(configure(&f, true).is_ok());
}

#[test]
fn panel_answers_to_configure() {
    assert!(check_configure_answer(200, "200 OK", "{}").is_ok());
    assert!(check_configure_answer(403, "403 Forbidden", "no").is_err());
    assert!(check_configure_answer(404, "404 Not Found", "no").is_err());
    assert!(check_configure_answer(500, "500 Internal Server Error", "no").is_err());
}

#[test]
fn overlays_win() {
    let base = obj(vec![("a", num("1")), ("b", obj(vec![("x", num("1")), ("y", num("2"))]))]);
    let over = obj(vec![("b", obj(vec![("y", num("9")), ("z", num("3"))])), ("c", Json::Null)]);
    let merged = merge_values(base, &over);
    assert_eq!(merged.compact_text(), r#"{"a":1,"b":{"x":1,"y":9,"z":3},"c":null}"#);
}

#[test]
fn values_are_expanded() {
    match expansion("file:///run/token") {
        Expansion::File(path) => assert_eq!(path, "/run/token"),
        other => panic!("{other:?}"),
    }
    match expansion("${TOKEN}") {
        Expansion::Variable(name) => assert_eq!(name, "TOKEN"),
        Expansion::Literal => {
            assert!(matches!(expansion("$TOKEN"), Expansion::Variable(_)));
        }
        other => panic!("{other:?}"),
    }
    assert!(matches!(expansion("plain"), Expansion::Literal));
    assert_eq!(expand_value("plain", &Expansion::Literal, None), "plain");
}

#[test]
fn environment_tokens_win() {
    let mut c = Config::default();
    c.resolve_token("file-token".into(), "file-id".into(), Some("env-token".into()), None);
    assert_eq!(c.token, "env-token");
    assert_eq!(c.token_id, "file-id");
}

#[test]
fn directories_of_a_configuration() {
    let mut c = Config::default();
    c.system.data = "/var/lib/pterodactyl/volumes".into();
    c.api.host = "0.0.0.0".into();
    c.api.port = 8080;
    assert_eq!(c.bind_address(), "0.0.0.0:8080");
    assert_eq!(c.data_dir("abc"), "/var/lib/pterodactyl/volumes/abc");
    c.remote = "https://panel.example/".into();
    assert_eq!(c.panel_url(), "https://panel.example");
}

#[test]
fn endpoints_are_redacted() {
    assert_eq!(redact_endpoint("https://panel.example", false), "{redacted}");
    assert_eq!(redact_endpoint("https://panel.example", true), "https://panel.example");
}

#[test]
fn reports_hide_tokens() {
    let mut c = Config::default();
    c.token = "very-secret-token".into();
    c.token_id = "id-is-public".into();
    c.remote = "https://panel.example".into();
    let f = Findings {
        version: "1".into(),
        docker: Some(Err("down".into())),
        os: "linux".into(),
        arch: "x86_64".into(),
        config_path: "/etc/pterodactyl/config.yml".into(),
        states: None,
        log: Some("line 1\nline 2\nline 3\n".into()),
    };
    let report = collect_diagnostics(&f, Some(&c), 2, false, true);
    assert!(!report.contains("very-secret-token"));
    assert!(!report.contains("panel.example"));
    assert!(report.contains("line 3"));
    assert!(!report.contains("line 1"));
    let report = collect_diagnostics(&f, Some(&c), 2, true, false);
    assert!(report.contains("https://panel.example"));
    assert!(!report.contains("line 3"));
}

#[test]
fn diagnostics_flags() {
    let f = parse_flags(
        &args(&["--log-lines", "5"]),
        &["config-path", "log-lines", "output"],
        &["include-endpoints", "no-logs"],
    )
    .unwrap();
    assert_eq!(diagnostics(&f, None).log_lines, 5);
    assert!(diagnostics(&f, None).include_logs);
    assert!(!diagnostics(&f, None).include_endpoints);
    assert_eq!(diagnostics(&f, Some("/tmp/c.yml")).config_path, "/tmp/c.yml");
}

#[test]
fn private_addresses() {
    let private = [
        Ip::V4(10, 0, 0, 1),
        Ip::V4(172, 16, 0, 1),
        Ip::V4(192, 168, 1, 1),
        Ip::V4(127, 0, 0, 1),
        Ip::V6(0, 0, 0, 0, 0, 0, 0, 1),
        Ip::V6(0xfc00, 0, 0, 0, 0, 0, 0, 1),
        Ip::V6(0, 0, 0, 0, 0, 0xffff, 0x0a00, 0x0001),
    ];
    for ip in private {
        assert!(is_private_ip(ip), "{ip:?}");
    }
    assert!(!is_private_ip(Ip::V4(8, 8, 8, 8)));
    assert!(!is_private_ip(Ip::V4(172, 32, 0, 1)));
    assert!(!is_private_ip(Ip::V6(0x2001, 0x4860, 0, 0, 0, 0, 0, 0x8888)));
    assert_eq!(to_ipv4_mapped(Ip::V6(0, 0, 0, 0, 0, 0xffff, 0x0a01, 0x0203)), Some((10, 1, 2, 3)));
    assert_eq!(to_ipv4_mapped(Ip::V4(10, 1, 2, 3)), None);
}

#[test]
fn origins() {
    assert_eq!(origin_host("https://panel.example:8443").as_deref(), Some("panel.example"));
    assert!(is_private_origin("http://192.168.1.5", Some(Ip::V4(192, 168, 1, 5))));
    assert!(!is_private_origin("https://panel.example", None));
    assert_eq!(network_of(Ip::V4(10, 0, 0, 1)), "10.0.0.1/32");
    assert_eq!(network_of(Ip::V6(0x2001, 0xdb8, 0, 0, 0, 0, 0, 1)), "2001:0db8:0000:0000:0000:0000:0000:0001/128");
}

#[test]
fn numbers_as_text() {
    assert_eq!(read_unsigned("255", 255), Some(255));
    assert_eq!(read_unsigned("256", 255), None);
    assert_eq!(read_unsigned("", 255), None);
    assert_eq!(read_usize("12"), Some(12));
    assert_eq!(read_i64("-9223372036854775808"), Some(i64::MIN));
    assert_eq!(read_i64("9223372036854775808"), None);
    assert_eq!(read_i64("+5"), Some(5));
    assert_eq!(read_i64("1a"), None);
    assert_eq!(decimal_u64(u64::MAX), u64::MAX.to_string());
    assert_eq!(decimal_i64(i64::MIN), i64::MIN.to_string());
    assert_eq!(hex_u32(0xa7, 4), "00a7");
    assert_eq!(hex_lower(&[0, 255, 16]), "00ff10");
}

#[test]
fn paths_are_joined_and_split() {
    assert_eq!(join_path("/a", "b"), "/a/b");
    assert_eq!(join_path("/a/", "b"), "/a/b");
    assert_eq!(join_path("/a", "/b"), "/b");
    assert_eq!(components_of("/a//b/./c"), vec!["/", "a", "b", "c"]);
    assert!(is_below("/a/b/c", "/a/b"));
    assert!(is_below("/a/b", "/a/b"));
    assert!(!is_below("/a/bc", "/a/b"));
}

#[test]
fn tables_keep_the_last_value() {
    let mut t: Table<i64> = Table::new();
    t.insert("a", 1);
    t.insert("b", 2);
    t.insert("a", 3);
    assert_eq!(t.get("a"), Some(&3));
    assert!(t.contains_key("b"));
    assert!(!t.contains_key("c"));
    t.retain_at_least(3);
    assert!(!t.contains_key("b"));
    assert_eq!(t.get("a"), Some(&3));
}

#[test]
fn texts() {
    assert_eq!(text::trimmed(" \ta b\n"), "a b");
    assert_eq!(text::split_str("a,b,,c", ','), vec!["a", "b", "", "c"]);
    assert_eq!(text::replace_text("aXbXc", "X", "--"), "a--b--c");
    assert_eq!(text::replace_char("a&b", '&', "&amp;"), "a&amp;b");
    assert_eq!(text::joined(&args(&["a", "b"]), ", "), "a, b");
    assert_eq!(text::joined(&text::split_str("a,b,,c", ','), ","), "a,b,,c");
    assert_eq!(text::lowered("AbÇ"), "abÇ");
    assert!(text::starts_with("regex:x", "regex:"));
    assert_eq!(text::strip_prefix("regex:x", "regex:").as_deref(), Some("x"));
    assert!(text::contains("abc", "bc"));
    assert!(text::before("a", "ab"));
    assert!(!text::before("b", "ab"));
    assert_eq!(text::bytes_of("aé"), vec![97, 0xc3, 0xa9]);
}

#[test]
fn other_paths_keep_their_values() {
    let mut d = roost::codec::parse_json(br#"{"a":{"b":1,"c":2},"list":[1,{"x":3}],"s":4}"#).unwrap();
    d.set_p("a.b", Json::Str("new".into())).unwrap();
    assert_eq!(d.get_at_path("a.b"), Some(&Json::Str("new".into())));
    assert_eq!(d.get_at_path("a.c"), Some(&num("2")));
    d.set_p("list.1.x", num("5")).unwrap();
    assert_eq!(d.get_at_path("list.01.x"), Some(&num("5")));
    assert_eq!(d.get_at_path("list.0"), Some(&num("1")));
    d.set_p("a.aa", num("0")).unwrap();
    assert!(d.compact_text().starts_with(r#"{"a":{"aa":0,"b":"new","c":2},"#));
    d.set_p("s.t", num("6")).unwrap();
    assert_eq!(d.get_at_path("s.u"), None);
    let before = d.compact_text();
    assert!(d.set_p("list.9", Json::Null).is_err());
    assert!(d.set_p("list.x", Json::Null).is_err());
    assert!(d.set_p("list.0.x", Json::Null).is_err());
    assert_eq!(d.compact_text(), before);
}

#[test]
fn documents_are_set_and_read_by_path() {
    let mut d = obj(vec![]);
    d.set_p("a.b", num("1")).unwrap();
    d.set_p("a.c", Json::Str("x".into())).unwrap();
    assert_eq!(d.compact_text(), r#"{"a":{"b":1,"c":"x"}}"#);
    assert_eq!(d.get_at_path("a.b"), Some(&num("1")));
    assert_eq!(d.get_at_path("a.z"), None);
    assert_eq!(path_segments("a.b.c"), vec!["a", "b", "c"]);
    assert_eq!(d.copy().compact_text(), d.compact_text());
    d.set_p("a.b.z", num("7")).unwrap();
    assert_eq!(d.compact_text(), r#"{"a":{"b":{"z":7},"c":"x"}}"#);
    let mut list = Json::Array(vec![num("1")]);
    assert!(list.set_p("x", Json::Null).is_err());
    assert!(list.set_p("1", Json::Null).is_err());
    assert!(num("1").set_p("x", Json::Null).is_err());
}

#[test]
fn strings_in_documents_are_quoted() {
    assert_eq!(Json::Str("a\"b\n\u{1}".into()).compact_text(), "\"a\\\"b\\n\\u0001\"");
    assert_eq!(Json::Array(vec![Json::Bool(false), Json::Null]).compact_text(), "[false,null]");
}

#[test]
fn panel_values_win_over_defaults() {
    let panel = obj(vec![("api", obj(vec![("port", num("8443"))])), ("uuid", Json::Str("u".into()))]);
    let d = merge_defaults(b"api:\n  host: 0.0.0.0\n  port: 8080\ndebug: false\n", &panel).unwrap();
    assert_eq!(
        d.compact_text(),
        r#"{"api":{"host":"0.0.0.0","port":8443},"debug":false,"uuid":"u"}"#
    );
    let body = r#"{"api":{"port":9090}}"#;
    let d = read_configure_answer(200, "200 OK", Ok(body.into()), b"api:\n  port: 8080\ndebug: false\n");
    assert_eq!(d.unwrap().compact_text(), r#"{"api":{"port":9090},"debug":false}"#);
    let e = read_configure_answer(200, "200 OK", Ok("{".into()), b"").unwrap_err();
    assert_eq!(e, "Failed to decode the panel response: error decoding response body");
    let e = read_configure_answer(200, "200 OK", Err("lost".into()), b"").unwrap_err();
    assert_eq!(e, "Failed to decode the panel response: lost");
    let e = read_configure_answer(200, "200 OK", Ok("{}".into()), b"a: [").unwrap_err();
    assert!(e.starts_with("Failed to merge configuration: cannot parse built-in defaults: "));
    assert!(read_configure_answer(401, "401 Unauthorized", Ok("{}".into()), b"").is_err());
    let e = read_configure_answer(500, "500 Internal Server Error", Ok("no".into()), b"").unwrap_err();
    assert_eq!(
        e,
        "An error occurred while processing this request.\nHTTP 500 Internal Server Error\nno"
    );
    assert!(merge_defaults(b"a: [", &panel).unwrap_err().starts_with("cannot parse built-in defaults: "));
}

#[test]
fn directories_are_planned() {
    let mut c = Config::default();
    c.system.root_directory = "/var/lib/pterodactyl".into();
    c.system.data = "/data".into();
    c.system.passwd.enabled = true;
    c.system.passwd.directory = "/run/wings/etc".into();
    c.system.user.uid = 988;
    c.system.user.gid = 987;
    assert_eq!(c.states_path(), "/var/lib/pterodactyl/states.json");
    let plan = c.directory_plan();
    assert_eq!(plan.private[0], "/tmp/pterodactyl");
    assert_eq!(plan.private[4], "/data");
    assert_eq!(plan.shared[0], "/run/wings/etc");
    assert_eq!(plan.files[0].0, "/run/wings/etc/group");
    assert_eq!(plan.files[0].1, "root:x:0:\ncontainer:x:987:\nnogroup:x:65534:\n");
    assert!(plan.files[1].1.contains("container:x:988:987::/home/container:/bin/sh\n"));
}

#[test]
fn rotation_is_set_up_once() {
    let mut c = Config::default();
    c.system.enable_log_rotate = true;
    c.system.log_directory = "/var/log/pterodactyl".into();
    let rule = c.log_rotation(true, false).unwrap();
    assert!(rule.starts_with("/var/log/pterodactyl/roost.log {\n    size 10M\n"));
    assert!(c.log_rotation(true, true).is_none());
    assert!(c.log_rotation(false, false).is_none());
    c.system.enable_log_rotate = !default_true();
    assert!(c.log_rotation(true, false).is_none());
}
