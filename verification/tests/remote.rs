use roost::error::AppError;
use roost::remote::types::ServerListMeta;
use roost::remote::{
    clipped, gave_up, is_valid_daemon_auth, next_page, refused, request_step, unreadable, PanelCall,
    PanelClient, RequestStep, FIRST_PAUSE, LONGEST_PAUSE, RETRY_LIMIT,
};

#[test]
fn panel_addresses() {
    let p = PanelClient::new("https://panel.example/", "id", "token");
    assert_eq!(p.auth_header(), "Bearer id.token");
    assert_eq!(p.address("/servers"), "https://panel.example/api/remote/servers");
    assert!(p.user_agent().contains("id"), "{}", p.user_agent());
}

#[test]
fn panel_calls() {
    assert_eq!(PanelCall::ResetServers.path(), "/servers/reset");
    assert!(PanelCall::ResetServers.is_post());
    assert_eq!(PanelCall::ListServers { page: 2, per_page: 50 }.path(), "/servers?page=2&per_page=50");
    assert!(!PanelCall::ListServers { page: 2, per_page: 50 }.is_post());
    assert_eq!(PanelCall::Server("u").path(), "/servers/u");
    assert_eq!(PanelCall::InstallScript("u").path(), "/servers/u/install");
    assert!(!PanelCall::InstallScript("u").is_post());
    assert!(PanelCall::PostInstallStatus("u").is_post());
    assert_eq!(PanelCall::BackupUploadUrls { backup: "b", size: 7 }.path(), "/backups/b?size=7");
    assert_eq!(PanelCall::PostBackupStatus("b").path(), "/backups/b");
    assert_eq!(PanelCall::SftpAuth.path(), "/sftp/auth");
    assert_eq!(PanelCall::Activity.path(), "/activity");
}

#[test]
fn outages_are_retried() {
    assert!(matches!(request_step(None, 0, FIRST_PAUSE), RequestStep::Retry { .. }));
    assert!(matches!(request_step(Some(503), 0, FIRST_PAUSE), RequestStep::Retry { .. }));
    assert!(matches!(request_step(Some(404), 0, FIRST_PAUSE), RequestStep::Fail));
    assert!(matches!(request_step(Some(200), 0, FIRST_PAUSE), RequestStep::Read));
    assert!(matches!(request_step(Some(204), 0, FIRST_PAUSE), RequestStep::Null));
    assert!(matches!(request_step(None, RETRY_LIMIT + 1, FIRST_PAUSE), RequestStep::GiveUp));
    match request_step(None, 0, LONGEST_PAUSE) {
        RequestStep::Retry { next } => assert!(next <= LONGEST_PAUSE),
        other => panic!("{other:?}"),
    }
}

#[test]
fn failures_are_told() {
    assert!(matches!(gave_up("/servers"), AppError::Remote(m) if m.contains("/servers")));
    assert!(matches!(refused("403 Forbidden", "no"), AppError::Remote(m) if m.contains("403 Forbidden") && m.contains("no")));
    assert!(matches!(unreadable("bad", "body"), AppError::Remote(m) if m.contains("bad") && m.contains("body")));
    assert_eq!(clipped("abcdef", 3), "abc");
    assert_eq!(clipped("ab", 3), "ab");
}

#[test]
fn pages() {
    let meta = ServerListMeta { current_page: 1, last_page: 3 };
    assert_eq!(next_page(&meta, false), Some(2));
    let meta = ServerListMeta { current_page: 3, last_page: 3 };
    assert_eq!(next_page(&meta, false), None);
}

#[test]
fn daemon_headers() {
    assert!(is_valid_daemon_auth("id.token", "id", "token"));
    assert!(!is_valid_daemon_auth("id.tokem", "id", "token"));
    assert!(!is_valid_daemon_auth("token", "id", "token"));
    assert!(!is_valid_daemon_auth("id.token.more", "id", "token"));
    assert!(!is_valid_daemon_auth(".", "", ""));
}
