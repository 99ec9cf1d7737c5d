use roost::config::Config;
use roost::digest::Sha256Sum;
use roost::error::AppError;
use roost::json::Json;
use roost::jwt::claims::{sign_token, Claims};
use roost::jwt::store::TokenStore;
use roost::models::configuration::ServerConfig;
use roost::net::Ip;
use roost::remote::types::RawServerData;
use roost::router::backups::{
    archive_path, backup_failed_json, backup_id, backup_payload, compression_level, create_backup,
    failed_status, is_archived, plan_parts, upload_step, Adapter, Archived, S3Next, S3Step, S3Upload,
    Upload, UploadAction,
};
use roost::router::downloader::{Download, Downloads};
use roost::router::downloads::{
    authorize, base_name, bearer, check_upload_size, check_uploaded, disposition, download_backup,
    download_file, incoming_server, is_plain_name, is_upload_field, upload_activity, upload_name,
    upload_path, Receiver,
};
use roost::router::files::{
    check_pull_status, check_url, mime_for_name, parse_mode, post_pull, pull_target,
    validate_download_url,
};
use roost::router::middleware::{cors, is_origin_allowed, server_in_path, Cors, RateLimiter};
use roost::router::restore::{
    check_download, check_link, delete_backup, download_fault, download_path, find_archive,
    follows_redirect, is_blocked_backup_restore_ip, is_supported_backup_restore_content_type,
    restore_backup, validate_backup_download_url, Archive, DownloadFault, RestoreStep, Restored,
};
use roost::router::servers::{
    check_destination, default_log_size, get_server_logs, log_size, payload_action,
    post_server_deny_ws_tokens, post_server_install, post_server_power, post_server_reinstall,
    transfer_checksum, PowerOp, Transfer, TransferStep,
};
use roost::router::system::{
    os_release_name, post_update_configuration, system_information, system_information_v2,
    SystemFacts,
};
use roost::router::ws::{too_many, ws_route, Gate, InboundMessage, Reply, Session, WsAction, WsMessage};
use roost::server::events::ServerEvent;
use roost::server::files::Filesystem;
use roost::server::manager::ServerManager;
use roost::server::server::{Server, ServerState};

const UUID: &str = "936da01f-9abd-4d9d-80c7-02af85c822a8";
const ID: u128 = 0x936da01f9abd4d9d80c702af85c822a8;
const SECRET: &[u8] = b"secret";
const NOW: i64 = 1_700_000_000;
const NOW_MS: i64 = 1_700_000_000_000;

fn server() -> Server {
    let mut settings = ServerConfig::default();
    settings.uuid = UUID.into();
    let data = RawServerData { uuid: UUID.into(), settings, process_configuration: None };
    Server::new(data, 10, "/data/one".into(), 0)
}

fn token(list: Vec<(&str, Json)>) -> String {
    let all = Json::Object(list.into_iter().map(|(k, v)| (k.to_string(), v)).collect());
    sign_token(&all, SECRET).unwrap()
}

fn text(s: &str) -> Json {
    Json::Str(s.into())
}

fn ws_token(permissions: &[&str], exp: i64) -> String {
    token(vec![
        ("exp", Json::Number(exp.to_string())),
        ("iat", Json::Number(NOW.to_string())),
        ("jti", text("session")),
        ("permissions", Json::Array(permissions.iter().map(|p| text(p)).collect())),
        ("scope", text("websocket")),
        ("server_uuid", text(UUID)),
        ("user_uuid", text("user-1")),
    ])
}

fn claims() -> Claims {
    Claims {
        sub: None,
        scope: None,
        permissions: None,
        server_uuid: Some(UUID.into()),
        user_uuid: None,
        unique_id: None,
        jti: None,
        backup_uuid: None,
        file_path: None,
        iss: None,
        iat: None,
        nbf: None,
        exp: 0,
    }
}

fn message(event: &str, args: &[&str]) -> InboundMessage {
    InboundMessage { event: event.into(), args: args.iter().map(|a| a.to_string()).collect() }
}

fn replies(list: &[Reply]) -> Vec<(String, Vec<String>)> {
    list.iter()
        .map(|r| match r {
            Reply::Message(m) => (m.event.clone(), m.args.clone()),
            Reply::Close { code, reason } => (format!("close {code}"), vec![reason.to_string()]),
        })
        .collect()
}

fn connected(permissions: &[&str], tokens: &mut TokenStore, s: &Server) -> Session {
    let mut session = Session::new(0);
    let t = ws_token(permissions, NOW + 600);
    let o = session.handle_inbound(&message("auth", &[&t]), s, ID, SECRET, tokens, NOW - 10, NOW_MS);
    assert!(o.subscribe);
    session
}

#[test]
fn sockets_authenticate_first() {
    let s = server();
    let mut tokens = TokenStore::with_ttl(60);
    let mut session = Session::new(0);
    let o = session.handle_inbound(&message("set state", &["start"]), &s, ID, SECRET, &mut tokens, 0, NOW_MS);
    assert!(o.action.is_none());
    assert!(!session.is_subscribed());
    let t = ws_token(&["websocket.connect"], NOW + 600);
    let o = session.handle_inbound(&message("auth", &[&t]), &s, ID, SECRET, &mut tokens, NOW - 10, NOW_MS);
    assert_eq!(replies(&o.replies)[0].0, "auth success");
    assert!(session.is_subscribed());
}

#[test]
fn sockets_act_with_permission_only() {
    let mut s = server();
    s.set_state(ServerState::Running);
    let mut tokens = TokenStore::with_ttl(60);
    let mut session = connected(&["websocket.connect", "control.start"], &mut tokens, &s);
    let o = session.handle_inbound(&message("set state", &["start"]), &s, ID, SECRET, &mut tokens, NOW - 10, NOW_MS);
    assert!(matches!(o.action, Some(WsAction::Start)));
    let o = session.handle_inbound(&message("set state", &["stop"]), &s, ID, SECRET, &mut tokens, NOW - 10, NOW_MS);
    assert!(o.action.is_none());
    let o = session.handle_inbound(&message("send command", &["say hi"]), &s, ID, SECRET, &mut tokens, NOW - 10, NOW_MS);
    assert!(o.action.is_none());
    let mut session = connected(&["websocket.connect", "control.console"], &mut tokens, &s);
    let o = session.handle_inbound(&message("send command", &["say hi"]), &s, ID, SECRET, &mut tokens, NOW - 10, NOW_MS);
    assert!(matches!(o.action, Some(WsAction::Command(c)) if c == "say hi"));
}

#[test]
fn revoked_sockets_lose_their_session() {
    let s = server();
    let mut tokens = TokenStore::with_ttl(60);
    let mut session = connected(&["websocket.connect", "control.start"], &mut tokens, &s);
    post_server_deny_ws_tokens(&mut tokens, &vec!["session".to_string()], NOW + 1);
    let o = session.handle_inbound(&message("set state", &["start"]), &s, ID, SECRET, &mut tokens, NOW - 10, NOW_MS);
    assert!(o.action.is_none());
}

#[test]
fn sockets_are_told_when_their_token_ends() {
    let s = server();
    let mut tokens = TokenStore::with_ttl(60);
    let mut session = connected(&["websocket.connect"], &mut tokens, &s);
    assert!(session.tick(NOW).is_none());
    assert_eq!(session.tick(NOW + 590).map(|m| m.event).as_deref(), Some("token expiring"));
    assert_eq!(session.tick(NOW + 601).map(|m| m.event).as_deref(), Some("token expired"));
}

#[test]
fn events_go_to_those_who_may_see_them() {
    let s = server();
    let mut tokens = TokenStore::with_ttl(60);
    let session = connected(&["websocket.connect"], &mut tokens, &s);
    assert!(session.event(&ServerEvent::Status("running".into())).is_some());
    assert!(session.event(&ServerEvent::InstallOutput("x".into())).is_none());
    let session = connected(&["websocket.connect", "admin.websocket.install"], &mut tokens, &s);
    assert!(session.event(&ServerEvent::InstallOutput("x".into())).is_some());
}

#[test]
fn sockets_are_throttled() {
    let mut session = Session::new(0);
    let mut dropped = false;
    let mut told = false;
    for _ in 0..200 {
        match session.gate(1) {
            Gate::Pass => assert!(!told),
            Gate::Tell(m) => {
                assert!(!told);
                assert_eq!(m.event, "throttled");
                told = true;
            }
            Gate::Drop => dropped = true,
        }
    }
    assert!(told && dropped);
    assert!(matches!(session.gate(1_000_000), Gate::Pass));
}

#[test]
fn socket_messages_are_json() {
    let m = WsMessage { event: "status".into(), args: vec!["running".into(), "a\"b".into()] };
    assert_eq!(m.to_json(), r#"{"event":"status","args":["running","a\"b"]}"#);
}

#[test]
fn socket_activity() {
    let a = WsAction::Command("say hi".into()).activity(UUID, Some("user-1".into()), "now".into());
    assert_eq!(a.event, "server:console.command");
    assert_eq!(a.metadata.compact_text(), r#"{"command":"say hi"}"#);
    let a = WsAction::Start.activity(UUID, None, "now".into());
    assert_eq!(a.event, "server:power.start");
}

#[test]
fn origins_of_sockets() {
    let mut c = Config::default();
    c.remote = "https://panel.example".into();
    assert!(ws_route(&c, Some("https://panel.example")).is_ok());
    assert!(ws_route(&c, Some("https://evil.example")).is_err());
    c.allowed_origins = vec!["https://other.example".into()];
    assert!(ws_route(&c, Some("https://other.example")).is_ok());
}

#[test]
fn cross_origin_answers() {
    let mut c = Config::default();
    c.remote = "https://panel.example".into();
    assert!(is_origin_allowed(&c, "https://panel.example", None));
    assert!(!is_origin_allowed(&c, "https://evil.example", None));
    assert!(matches!(cors(&c, Some("https://panel.example"), None, true), Cors::Preflight));
    assert!(matches!(cors(&c, Some("https://panel.example"), None, false), Cors::Allow));
    assert!(matches!(cors(&c, Some("https://evil.example"), None, false), Cors::Vary));
    assert!(matches!(cors(&c, None, None, false), Cors::Vary));
}

#[test]
fn rates() {
    let mut r = RateLimiter::new(2, 100, 0);
    assert!(r.allow(1));
    assert!(r.allow(2));
    assert!(!r.allow(3));
    assert!(r.allow(200));
}

#[test]
fn servers_in_paths() {
    assert_eq!(server_in_path(&format!("/api/servers/{UUID}/logs")), Some(ID));
    assert_eq!(server_in_path("/api/servers/x/logs"), None);
    assert_eq!(server_in_path("/api/system"), None);
}

#[test]
fn power_requests() {
    let s = server();
    assert!(matches!(payload_action("start"), Some(PowerOp::Start)));
    assert!(matches!(payload_action("kill"), Some(PowerOp::Kill)));
    assert!(payload_action("explode").is_none());
    assert!(matches!(post_server_power(&s, "explode", None), Err(AppError::Unprocessable(_))));
    assert!(post_server_power(&s, "start", None).is_ok());
    let mut s = server();
    s.suspended = true;
    assert!(post_server_power(&s, "start", None).is_err());
    assert!(matches!(post_server_power(&s, "stop", None), Err(AppError::BadRequest(_))));
}

#[test]
fn logs_of_a_server() {
    assert_eq!(default_log_size(), 100);
    assert_eq!(log_size(0), 1);
    assert_eq!(log_size(50), 50);
    assert_eq!(log_size(1000), 100);
    assert_eq!(get_server_logs(b"a\r\nb"), vec!["a", "b"]);
}

#[test]
fn install_requests() {
    let mut s = server();
    assert!(post_server_install(&s).is_ok());
    assert!(post_server_reinstall(&s, false).is_ok());
    assert!(post_server_reinstall(&s, true).is_err());
    s.installing = true;
    assert!(post_server_reinstall(&s, false).is_err());
}

#[test]
fn transfers_go_through_their_steps() {
    let mut s = server();
    let mut step = s.post_server_transfer().unwrap();
    assert!(s.is_transferring());
    assert!(s.post_server_transfer().is_err());
    let mut steps = vec![];
    loop {
        steps.push(step);
        match s.push_archive_to_target(step, Ok(())) {
            Transfer::Go(next) => step = next,
            Transfer::Done => break,
            other => panic!("{other:?}"),
        }
    }
    assert!(steps.contains(&TransferStep::Archive));
    assert!(steps.contains(&TransferStep::Send));
    assert_eq!(steps.last(), Some(&TransferStep::Remove));
}

#[test]
fn sent_archives_are_checked() {
    let mut h = Sha256Sum::new();
    h.update(b"archive");
    let sum = transfer_checksum(h);
    let mut r = Receiver::new();
    r.archive_chunk(b"arch");
    r.archive_chunk(b"ive");
    r.archive_done();
    assert!(r.begin_checksum().is_ok());
    r.take_checksum(sum.as_bytes());
    assert!(r.finish().is_ok());

    let mut r = Receiver::new();
    r.archive_chunk(b"other");
    r.archive_done();
    r.take_checksum(sum.as_bytes());
    assert!(r.finish().is_err());

    let r = Receiver::new();
    assert!(r.begin_checksum().is_err());
    assert!(r.finish().is_err());
}

#[test]
fn destinations() {
    assert!(check_destination(200, "200 OK").is_ok());
    assert!(check_destination(500, "500 Internal Server Error").is_err());
}

#[test]
fn backup_requests() {
    let s = server();
    assert!(matches!(create_backup("wings", &s), Ok(Adapter::Wings)));
    assert!(matches!(create_backup("s3", &s), Ok(Adapter::S3)));
    assert!(create_backup("tape", &s).is_err());
    assert_eq!(backup_id(&UUID.to_uppercase()).unwrap(), UUID);
    assert!(matches!(backup_id("../x"), Err(AppError::Unprocessable(_))));
    let mut daemon = Config::default();
    daemon.system.backup_directory = "/backups".into();
    assert_eq!(archive_path(&daemon, UUID), format!("/backups/{UUID}.tar.gz"));
    assert_eq!(compression_level("none"), 0);
    assert_eq!(compression_level("best_speed"), 1);
    assert_eq!(compression_level("best_compression"), 9);
    assert!(is_archived("a/b", false));
    assert!(!is_archived("a/b", true));
}

#[test]
fn backups_are_reported() {
    let mut s = server();
    s.begin_backup();
    let end = s.run_backup(UUID, Archived::Made { size: 7, checksum: "abc".into() });
    let report = end.report.unwrap();
    assert!(report.successful);
    assert_eq!(report.size, 7);
    assert_eq!(report.checksum, "abc");
    assert_eq!(report.checksum_type, "sha1");
    let end = s.run_backup(UUID, Archived::Failed);
    assert!(!end.report.unwrap().successful);
    assert!(!failed_status().successful);
    assert!(backup_payload(UUID, true, "abc", 7).contains("\"is_successful\":true"));
    assert!(backup_failed_json(UUID).contains("\"is_successful\":false"));
}

#[test]
fn parts_cover_an_archive() {
    assert_eq!(plan_parts(25, 10, 3), Some(vec![10, 10, 5]));
    assert_eq!(plan_parts(20, 10, 2), Some(vec![10, 10]));
    assert_eq!(plan_parts(31, 10, 3), Some(vec![10, 10, 11]));
    assert_eq!(plan_parts(15, 10, 3), None);
    assert_eq!(plan_parts(5, 0, 1), Some(vec![5]));
    assert_eq!(plan_parts(10, -1, 1), Some(vec![10]));
    assert_eq!(plan_parts(10, 99, 1), Some(vec![10]));
    assert_eq!(plan_parts(10, -1, 2), None);
    assert_eq!(plan_parts(10, -1, 0), Some(vec![]));
}

#[test]
fn uploads_are_tried_six_times() {
    assert!(matches!(upload_step(Some(200), 1), Upload::Done));
    assert!(matches!(upload_step(Some(404), 1), Upload::Failed));
    for attempt in 1..6 {
        assert!(matches!(upload_step(Some(500), attempt), Upload::Retry(_)), "{attempt}");
        assert!(matches!(upload_step(None, attempt), Upload::Retry(_)), "{attempt}");
    }
    assert!(matches!(upload_step(Some(500), 6), Upload::Failed));
}

#[test]
fn uploads_send_every_part() {
    let (mut u, first) = S3Upload::new(25, vec![10, 10, 5]);
    assert!(matches!(first, UploadAction::Send { part: 0, length: 10 }));
    assert!(matches!(u.tried(Some(200), "\"e1\"".into()), UploadAction::Send { part: 1, length: 10 }));
    assert!(matches!(u.tried(Some(500), String::new()), UploadAction::Resend { part: 1, .. }));
    assert!(matches!(u.tried(Some(200), "e2".into()), UploadAction::Send { part: 2, length: 5 }));
    match u.tried(Some(200), "e3".into()) {
        UploadAction::End(end) => {
            assert!(end.remove);
            let status = end.report.unwrap();
            assert!(status.successful);
            assert_eq!(status.parts.len(), 3);
            assert_eq!(status.parts[2].part_number, 3);
        }
        other => panic!("{other:?}"),
    }
    let (mut u, _) = S3Upload::new(25, vec![10, 15]);
    match u.tried(Some(403), String::new()) {
        UploadAction::End(end) => {
            assert!(end.remove);
            assert!(!end.report.unwrap().successful);
        }
        other => panic!("{other:?}"),
    }
    let mut s = server();
    assert!(matches!(s.run_s3_backup(UUID, S3Step::MakeDirectory, true), S3Next::Go(S3Step::Archive)));
    assert!(matches!(s.run_s3_backup(UUID, S3Step::Archive, false), S3Next::End(_)));
}

#[test]
fn restore_links() {
    assert_eq!(check_link("https://s3.example/b.tar.gz").unwrap(), ("s3.example".to_string(), 443));
    assert_eq!(check_link("http://s3.example:9000/b").unwrap(), ("s3.example".to_string(), 9000));
    assert!(check_link("file:///etc/passwd").is_err());
    assert!(check_link("not a link").is_err());
    let none = vec![];
    assert!(is_blocked_backup_restore_ip("h", Ip::V4(127, 0, 0, 1), &none));
    assert!(is_blocked_backup_restore_ip("h", Ip::V4(169, 254, 169, 254), &none));
    assert!(is_blocked_backup_restore_ip("h", Ip::V6(0xfe80, 0, 0, 0, 0, 0, 0, 1), &none));
    assert!(is_blocked_backup_restore_ip("h", Ip::V4(10, 0, 0, 1), &none));
    assert!(!is_blocked_backup_restore_ip("h", Ip::V4(8, 8, 8, 8), &none));
    let list = vec![("10.0.0.0/8".to_string(), None)];
    assert!(!is_blocked_backup_restore_ip("h", Ip::V4(10, 0, 0, 1), &list));
    assert!(is_blocked_backup_restore_ip("h", Ip::V4(192, 168, 0, 1), &list));
    assert!(validate_backup_download_url("h", Some(&vec![Ip::V4(8, 8, 8, 8)]), &none).is_ok());
    assert!(validate_backup_download_url("h", Some(&vec![Ip::V4(8, 8, 8, 8), Ip::V4(10, 0, 0, 1)]), &none).is_err());
    assert!(validate_backup_download_url("h", None, &none).is_err());
    assert!(!follows_redirect("h", Some(&vec![Ip::V4(10, 0, 0, 1)]), &none));
}

#[test]
fn restore_answers() {
    assert!(is_supported_backup_restore_content_type("application/gzip"));
    assert!(is_supported_backup_restore_content_type("application/x-gzip; charset=binary"));
    assert!(!is_supported_backup_restore_content_type("text/html"));
    assert!(check_download(200, "200 OK", "application/gzip").is_ok());
    assert!(check_download(404, "404 Not Found", "application/gzip").is_err());
    assert!(check_download(200, "200 OK", "text/html").is_err());
    assert!(matches!(restore_backup("wings", ""), Ok(Adapter::Wings)));
    assert!(restore_backup("s3", "").is_err());
    assert!(matches!(restore_backup("s3", "https://x"), Ok(Adapter::S3)));
    assert!(find_archive(UUID, true).is_ok());
    assert!(find_archive(UUID, false).is_err());
    assert!(download_fault(DownloadFault::Timeout, "slow").len() > 0);
    assert!(delete_backup(Archive::File).is_ok());
    assert!(delete_backup(Archive::Missing).is_err());
    assert!(delete_backup(Archive::Directory).is_err());
    assert!(download_path(&Config::default(), UUID).contains(UUID));
}

#[test]
fn restores_go_through_their_steps() {
    let mut s = server();
    let mut step = s.begin_restore(Adapter::S3, true);
    assert!(s.is_restoring());
    let mut steps = vec![];
    let ok = loop {
        steps.push(step);
        match s.run_restore(UUID, Adapter::S3, true, step, Ok(())) {
            Restored::Go(next) => step = next,
            Restored::Report(ok) => break ok,
        }
    };
    assert!(ok);
    assert!(!s.is_restoring());
    assert!(steps.contains(&RestoreStep::Truncate));
    assert!(steps.contains(&RestoreStep::Download));
    assert_eq!(steps.last(), Some(&RestoreStep::Unpack));
}

#[test]
fn tracked_downloads() {
    let mut d = Downloads::new();
    for i in 0..3 {
        d.track(Download::new(format!("d{i}"), ID, "https://x".into(), "f".into(), "/".into()));
    }
    d.track(Download::new("other".into(), 7, "https://x".into(), "f".into(), "/".into()));
    assert_eq!(d.count_for_server(ID), 3);
    let config = Config::default();
    assert!(post_pull(&config, &server(), "f", 0, 2).is_ok());
    assert!(post_pull(&config, &server(), "f", 0, d.count_for_server(ID)).is_err());
    d.set_progress("d1", 50);
    assert_eq!(d.by_server(ID).iter().map(|i| i.percent).sum::<u64>(), 50);
    assert!(d.by_id("d1", ID));
    assert!(!d.by_id("d1", 7));
    d.untrack("d1");
    assert_eq!(d.count_for_server(ID), 2);
    d.cancel_for_server(ID);
    assert_eq!(d.count_for_server(ID), 0);
    assert_eq!(d.count_for_server(7), 1);
}

#[test]
fn pulled_files() {
    assert_eq!(check_url("https://files.example/a.zip").unwrap(), ("files.example".to_string(), 443));
    assert!(check_url("ftp://files.example/a").is_err());
    assert!(validate_download_url(Some(&vec![Ip::V4(8, 8, 8, 8)])).is_ok());
    assert!(validate_download_url(Some(&vec![Ip::V4(10, 0, 0, 1)])).is_err());
    assert!(validate_download_url(None).is_err());
    assert!(check_pull_status(200, "200 OK").is_ok());
    assert!(check_pull_status(404, "404 Not Found").is_err());
    let s = server();
    let mut c = Config::default();
    assert!(post_pull(&c, &s, "a.zip", 0, 0).is_ok());
    assert!(post_pull(&c, &s, "a.zip", 0, 3).is_err());
    c.api.disable_remote_download = true;
    assert!(post_pull(&c, &s, "a.zip", 0, 0).is_err());
    assert_eq!(pull_target(Some("/mods".into()), None, Some("a.zip".into())), ("/mods".to_string(), "a.zip".to_string()));
}

#[test]
fn modes_of_files() {
    assert_eq!(parse_mode("644").unwrap(), 0o644);
    assert_eq!(parse_mode("0755").unwrap(), 0o755);
    assert!(parse_mode("abc").is_err());
    assert!(parse_mode("8").is_err());
    assert_eq!(mime_for_name("a.txt").split(';').next(), Some("text/plain"));
}

#[test]
fn downloads_need_a_token_for_a_known_server() {
    let mut servers: ServerManager<&str> = ServerManager::new();
    let t = token(vec![
        ("exp", Json::Number((NOW + 60).to_string())),
        ("scope", text("file-download")),
        ("server_uuid", text(UUID)),
        ("unique_id", text("once")),
    ]);
    let mut tokens = TokenStore::with_ttl(60);
    assert!(authorize(&t, "file-download", SECRET, &mut tokens, 0, NOW_MS, &servers).is_err());
    servers.insert(ID, "one");
    let mut tokens = TokenStore::with_ttl(60);
    let (c, s) = authorize(&t, "file-download", SECRET, &mut tokens, 0, NOW_MS, &servers).unwrap();
    assert_eq!(s, &"one");
    assert_eq!(c.unique_id.as_deref(), Some("once"));
    let mut tokens = TokenStore::with_ttl(60);
    assert!(authorize(&t, "backup-download", SECRET, &mut tokens, 0, NOW_MS, &servers).is_err());
}

#[test]
fn downloads() {
    let mut daemon = Config::default();
    daemon.system.backup_directory = "/backups".into();
    assert!(download_backup(&claims(), &daemon).is_err());
    let c = Claims { backup_uuid: Some(UUID.into()), ..claims() };
    let (path, name) = download_backup(&c, &daemon).unwrap();
    assert_eq!(path, format!("/backups/{UUID}.tar.gz"));
    assert_eq!(name, format!("{UUID}.tar.gz"));

    let fs = Filesystem::new("/data/one".into(), vec![]);
    let c = Claims { file_path: Some("/a/b.txt".into()), ..claims() };
    let (path, name) = download_file(&c, &None, &fs).unwrap();
    assert_eq!(path, "/data/one/a/b.txt");
    assert_eq!(name, "b.txt");
    assert_eq!(base_name("/a/b.txt"), "b.txt");
    assert!(disposition("b.txt").contains("b.txt"));
}

#[test]
fn uploads() {
    assert!(is_upload_field(Some("files")));
    assert!(!is_upload_field(Some("other")));
    assert!(is_plain_name("a.txt"));
    assert!(!is_plain_name("../a.txt"));
    assert_eq!(upload_name(Some("a.txt")).unwrap(), "a.txt");
    assert_eq!(upload_name(None).unwrap(), "upload");
    assert!(upload_name(Some("a/b")).is_err());
    assert!(check_upload_size(1024 * 1024, 1, "a").is_ok());
    assert!(check_upload_size(1024 * 1024 + 1, 1, "a").is_err());
    assert_eq!(upload_path("/mods", "a.jar"), "mods/a.jar");
    assert!(check_uploaded(0).is_err());
    assert!(check_uploaded(1).is_ok());
    let a = upload_activity(UUID, None, "203.0.113.9".into(), "/mods", "a.jar", 5, "now".into());
    assert_eq!(a.event, "server:file.uploaded");
    assert_eq!(a.ip, "203.0.113.9");
}

#[test]
fn incoming_transfers() {
    assert_eq!(bearer(Some("Bearer abc")).unwrap(), "abc");
    assert!(bearer(None).is_err());
    assert!(bearer(Some("abc")).is_err());
    let c = Claims { sub: Some(UUID.into()), scope: Some("transfer".into()), ..claims() };
    assert_eq!(incoming_server(Ok(c)).unwrap(), ID);
    assert!(incoming_server(Ok(claims())).is_err());
    let mut s = server();
    assert!(s.incoming_transfer().is_ok());
    assert!(s.is_transferring());
    assert!(s.incoming_transfer().is_err());
    s.transferred(true);
    assert!(!s.is_transferring());
}

#[test]
fn system_facts() {
    let f = SystemFacts {
        architecture: "x86_64".into(),
        cpu_threads: 8,
        kernel_version: "6.1".into(),
        os: "linux".into(),
        os_type: "linux".into(),
        version: "1.0".into(),
    };
    let v1 = system_information(&f).compact_text();
    assert!(v1.contains(r#""cpu_count":8"#), "{v1}");
    assert!(v1.contains(r#""kernel_version":"6.1""#), "{v1}");
    let v2 = system_information_v2(&f, &None, &None).compact_text();
    assert!(v2.contains(r#""version":"1.0""#), "{v2}");
    assert_eq!(os_release_name(Some("NAME=x\nPRETTY_NAME=\"Debian 12\"\n"), "linux"), "Debian 12");
    assert_eq!(os_release_name(None, "linux"), "linux");
}

#[test]
fn updates_keep_a_token() {
    let mut current = Config::default();
    current.token = "t".into();
    current.token_id = "i".into();
    current.uuid = "u".into();
    current.path = Some("/etc/config.yml".into());
    current.api.ssl.key = "/own/key.pem".into();
    let mut update = Config::default();
    update.debug = true;
    assert!(post_update_configuration(&current, Ok(update.clone()), None, None).is_err());
    update.token = "t2".into();
    update.token_id = "i2".into();
    update.api.ssl.key = "/etc/letsencrypt/live/x/privkey.pem".into();
    let r = post_update_configuration(&current, Ok(update.clone()), None, None).unwrap().unwrap();
    assert!(r.debug);
    assert_eq!(r.token, "t2");
    assert_eq!(r.path.as_deref(), Some("/etc/config.yml"));
    assert_eq!(r.api.ssl.key, "/own/key.pem");
    assert!(post_update_configuration(&current, Ok(update.clone()), Some("other"), None).is_err());
    update.token = "file:///etc/passwd".into();
    assert!(post_update_configuration(&current, Ok(update.clone()), None, None).is_err());
    assert_eq!(
        post_update_configuration(&current, Err("no map".into()), None, None).unwrap_err(),
        AppError::BadRequest("invalid config payload: no map".into())
    );
    current.ignore_panel_config_updates = true;
    assert!(post_update_configuration(&current, Ok(update), None, None).unwrap().is_none());
    assert!(post_update_configuration(&current, Err("no map".into()), None, None).unwrap().is_none());
}

#[test]
fn uploaded_backups_are_told() {
    let mut s = server();
    s.s3_backup_done(UUID, &failed_status());
    let told = s.take_events();
    assert_eq!(told.len(), 1);
    assert_eq!(told[0].event_name(), "backup completed");
    assert_eq!(told[0].args(), vec![backup_failed_json(UUID)]);
}

#[test]
fn transfers_are_cancelled() {
    let mut s = server();
    assert!(s.delete_server_transfer().is_err());
    assert!(s.delete_incoming_transfer().is_err());
    s.set_transferring(true);
    assert!(s.delete_incoming_transfer().is_ok());
    assert!(s.delete_server_transfer().is_ok());
    assert!(!s.is_transferring());
    let mut daemon = Config::default();
    daemon.system.tmp_directory = "/tmp/x".into();
    let (directory, archive) = s.transfer_paths(&daemon);
    assert_eq!(directory, format!("/tmp/x/{UUID}.outgoing.tar.gz"));
    assert_eq!(archive, format!("/tmp/x/{UUID}.transfer.tar.gz"));
}

#[test]
fn one_socket_too_many() {
    assert_eq!(too_many(), AppError::BadRequest("Too many open websocket connections.".into()));
}

#[test]
fn a_window_lets_its_limit_through() {
    let mut r = RateLimiter::new(10, 200, 0);
    assert_eq!((0..100).filter(|i| r.allow(2 * i)).count(), 10);
    assert!(r.allow(201));
}

#[test]
fn actions_name_who_asked() {
    let mut tokens = TokenStore::with_ttl(3600);
    let mut s = server();
    s.set_state(ServerState::Running);
    let mut session = connected(&["websocket.connect", "control.stop"], &mut tokens, &s);
    let inbound = message("set state", &["stop"]);
    let o = session.handle_inbound(&inbound, &s, ID, SECRET, &mut tokens, NOW - 10, NOW_MS);
    assert!(matches!(o.action, Some(WsAction::Stop)));
    assert_eq!(o.user.as_deref(), Some("user-1"));
}

#[test]
fn incoming_archives_need_room() {
    let mut s = server();
    assert!(s.check_incoming(1 << 40).is_ok());
    s.config.build.disk_space = 1;
    assert!(s.check_incoming(1024 * 1024).is_ok());
    assert_eq!(
        s.check_incoming(1024 * 1024 + 1),
        Err(AppError::BadRequest("filesystem: not enough disk space".into()))
    );
}
