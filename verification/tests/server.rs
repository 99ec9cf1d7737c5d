use roost::config::{Config, ConsoleThrottles};
use roost::error::AppError;
use roost::models::configuration::{OutputLineMatcher, ProcessConfig, ServerConfig};
use roost::models::resource::{cpu_deltas, memory_in_use, NetworkStats, ResourceUsage};
use roost::remote::types::RawServerData;
use roost::server::console::{read_lines, Console};
use roost::server::events::ServerEvent;
use roost::server::install::{install_log_header, normalized_script, Install, InstallStep};
use roost::server::manager::{
    cleanup_orphaned_containers, page_size, persist_states, read_states, restore_one, Restore,
    ServerManager,
};
use roost::server::power::{lock_step, signal_for, stop_plan, Boot, BootStep, LockStep, StopPlan};
use roost::server::server::{DiskSource, Server, ServerState, StatsFacts};
use roost::server::startup::{startup_done, strip_ansi};

const UUID: &str = "936da01f-9abd-4d9d-80c7-02af85c822a8";

fn server() -> Server {
    let mut settings = ServerConfig::default();
    settings.uuid = UUID.into();
    settings.meta.name = "One".into();
    settings.invocation = "java -jar server.jar".into();
    settings.environment = vec![("JAR".into(), "server.jar".into())];
    settings.crash_detection_enabled = true;
    let data = RawServerData { uuid: UUID.into(), settings, process_configuration: None };
    Server::new(data, 3, "/data/one".into(), 0)
}

fn names(events: Vec<ServerEvent>) -> Vec<(String, Vec<String>)> {
    events.into_iter().map(|e| (e.event_name().to_string(), e.args())).collect()
}

fn status(s: &str) -> (String, Vec<String>) {
    ("status".to_string(), vec![s.to_string()])
}

fn boot(s: &mut Server, first: Boot, fail_at: Option<BootStep>) -> (Vec<BootStep>, Result<(), AppError>) {
    let mut steps = vec![];
    let mut next = first;
    loop {
        match next {
            Boot::Go(step) => {
                steps.push(step);
                let outcome = if Some(step) == fail_at {
                    Err(AppError::Internal("broken".into()))
                } else {
                    Ok(())
                };
                next = s.start_unlocked(step, outcome, 0, 1000);
            }
            Boot::Return(r) => return (steps, r),
        }
    }
}

#[test]
fn a_new_server_is_offline() {
    let s = server();
    assert_eq!(s.query_state(), ServerState::Offline);
    assert!(!s.is_running());
    assert!(s.recent_logs().is_empty());
    assert_eq!(s.name, "One");
}

#[test]
fn states_are_told() {
    let mut s = server();
    s.set_state(ServerState::Running);
    assert!(s.is_running());
    assert_eq!(names(s.take_events()), vec![status("running")]);
    assert!(s.take_events().is_empty());
}

#[test]
fn a_start_goes_through_its_steps() {
    let mut s = server();
    let first = s.power_start(Ok(()));
    let (steps, r) = boot(&mut s, first, None);
    assert!(r.is_ok(), "{r:?}");
    assert_eq!(steps.first(), Some(&BootStep::Sync));
    assert!(steps.contains(&BootStep::Configure));
    assert!(steps.contains(&BootStep::Start));
    assert_ne!(s.query_state(), ServerState::Offline);
    let told = names(s.take_events());
    assert!(told.contains(&status("starting")));
}

#[test]
fn a_failed_start_ends_offline() {
    for step in [BootStep::MakeDirectory, BootStep::Recreate, BootStep::Attach, BootStep::Start] {
        let mut s = server();
        let first = s.power_start(Ok(()));
        let (steps, r) = boot(&mut s, first, Some(step));
        assert_eq!(r, Err(AppError::Internal("broken".into())));
        assert_eq!(steps.last(), Some(&step));
        assert_eq!(s.query_state(), ServerState::Offline);
    }
    for step in [
        BootStep::Sync,
        BootStep::Measure,
        BootStep::Configure,
        BootStep::Chown,
        BootStep::Pull,
        BootStep::ApplyLimits,
    ] {
        let mut s = server();
        let first = s.power_start(Ok(()));
        let (_, r) = boot(&mut s, first, Some(step));
        assert_eq!(r, Ok(()));
        assert_eq!(s.query_state(), ServerState::Running);
    }
}

#[test]
fn a_running_server_is_not_started_again() {
    let mut s = server();
    s.set_state(ServerState::Running);
    match s.power_start(Ok(())) {
        Boot::Return(r) => assert!(r.is_ok()),
        other => panic!("{other:?}"),
    }
    assert!(s.is_running());
}

/// Every power action is answered with this conflict, and changes nothing.
fn refused(s: &mut Server, message: &str) {
    s.set_state(ServerState::Running);
    s.take_events();
    let conflict = AppError::Conflict(message.into());
    assert_eq!(s.check_power_allowed(), Err(conflict.clone()));
    match s.power_start(Ok(())) {
        Boot::Return(r) => assert_eq!(r, Err(conflict.clone())),
        other => panic!("{other:?}"),
    }
    assert_eq!(s.power_stop(Ok(())), Err(conflict.clone()));
    assert_eq!(s.power_kill(), Err(conflict.clone()));
    assert_eq!(s.power_restart(Ok(())), Err(conflict));
    assert_eq!(s.query_state(), ServerState::Running);
    assert!(!s.intentional_stop);
    assert!(s.take_events().is_empty());
}

#[test]
fn busy_servers_have_no_power() {
    let mut s = server();
    assert!(s.check_power_allowed().is_ok());
    s.installing = true;
    refused(&mut s, "server is currently installing");
    let mut s = server();
    s.set_restoring(true);
    refused(&mut s, "server is currently restoring a backup");
    let mut s = server();
    s.set_transferring(true);
    refused(&mut s, "server is currently being transferred");
    let mut s = server();
    s.set_state(ServerState::Running);
    let busy = || Err(AppError::Conflict("busy".into()));
    assert_eq!(s.power_stop(busy()), Err(AppError::Conflict("busy".into())));
    assert_eq!(s.power_restart(busy()), busy());
    assert!(!s.intentional_stop);
    s.set_state(ServerState::Offline);
    assert!(matches!(s.power_start(busy()), Boot::Return(Err(_))));
    assert_eq!(s.query_state(), ServerState::Offline);
}

#[test]
fn stops_and_kills_are_wanted() {
    let mut s = server();
    assert_eq!(s.power_stop(Ok(())), Ok(false));
    assert_eq!(s.power_kill(), Ok(false));
    s.set_state(ServerState::Running);
    s.take_events();
    assert_eq!(s.power_stop(Ok(())), Ok(true));
    assert_eq!(s.query_state(), ServerState::Stopping);
    assert!(s.intentional_stop);
    assert_eq!(names(s.take_events()), vec![status("stopping")]);
    s.power_stopped();
    assert_eq!(s.query_state(), ServerState::Offline);
    assert_eq!(names(s.take_events()), vec![status("offline")]);
}

#[test]
fn ways_to_stop() {
    let mut p = ProcessConfig::default();
    p.stop.kind = "command".into();
    p.stop.value = "stop".into();
    match stop_plan(&p.stop, true) {
        StopPlan::Send(line) => assert_eq!(line, "stop"),
        other => panic!("{other:?}"),
    }
    p.stop.kind = "signal".into();
    p.stop.value = "sigint".into();
    match stop_plan(&p.stop, true) {
        StopPlan::Signal(s) => assert_eq!(s, "SIGINT"),
        other => panic!("{other:?}"),
    }
    p.stop.kind = "other".into();
    assert!(matches!(stop_plan(&p.stop, true), StopPlan::Docker));
    assert_eq!(signal_for("SIGABRT"), "SIGABRT");
}

#[test]
fn power_locks_wait() {
    assert!(matches!(lock_step(0, true, 0), LockStep::Go));
    assert!(matches!(lock_step(5, false, 0), LockStep::Retry));
    assert!(matches!(lock_step(0, false, 0), LockStep::Refused(_)));
    assert!(matches!(lock_step(1, false, 60_000), LockStep::Refused(_)));
}

#[test]
fn crashes_are_detected_once_in_a_while() {
    let mut daemon = Config::default();
    daemon.system.crash_detection.enabled = true;
    daemon.system.crash_detection.timeout = 60;
    let mut s = server();
    assert!(s.crash_detection(&daemon));
    assert!(s.handle_server_crash(Some(1), false, &daemon, 1_000_000));
    assert!(!s.handle_server_crash(Some(1), false, &daemon, 1_001_000));
    assert!(s.handle_server_crash(Some(1), true, &daemon, 1_100_000));
}

#[test]
fn clean_exits_are_no_crashes() {
    let mut daemon = Config::default();
    daemon.system.crash_detection.enabled = true;
    daemon.system.crash_detection.detect_clean_exit_as_crash = false;
    let mut s = server();
    assert!(!s.handle_server_crash(Some(0), false, &daemon, 1_000_000));
}

#[test]
fn consoles_keep_the_latest_lines() {
    let t = ConsoleThrottles { enabled: false, lines: 0, line_reset_interval: 0 };
    let mut c = Console::new(2, 0);
    c.push_console_bytes(b"a\nb\r\nc\n", &t, 0);
    assert_eq!(c.recent_logs(), vec!["b", "c"]);
    assert_eq!(read_lines(b"x\ny"), vec!["x", "y"]);
}

#[test]
fn consoles_are_throttled() {
    let t = ConsoleThrottles { enabled: true, lines: 2, line_reset_interval: 1000 };
    let mut c = Console::new(100, 0);
    let told = c.push_console_bytes(b"1\n2\n3\n4\n", &t, 1);
    assert!(c.recent_logs().len() <= 4);
    assert!(told.len() < 5);
    assert!(!told.contains(&"4".to_string()));
    let told = c.push_console_bytes(b"5\n", &t, 5_000);
    assert_eq!(told, vec!["5"]);
}

#[test]
fn console_output_is_told() {
    let daemon = Config { throttles: ConsoleThrottles { enabled: false, lines: 0, line_reset_interval: 0 }, ..Default::default() };
    let mut s = server();
    s.push_console_bytes(b"hello\n", &daemon, 0);
    assert_eq!(names(s.take_events()), vec![("console output".to_string(), vec!["hello".to_string()])]);
    assert_eq!(s.recent_logs(), vec!["hello"]);
}

#[test]
fn commands_need_an_attached_console() {
    let mut s = server();
    s.set_state(ServerState::Running);
    assert!(s.send_command(true).is_ok());
    assert!(s.send_command(false).is_err());
}

#[test]
fn events_and_their_permissions() {
    assert_eq!(ServerEvent::InstallOutput("x".into()).required_permission(), Some("admin.websocket.install"));
    assert_eq!(ServerEvent::Status("running".into()).required_permission(), None);
    assert_eq!(ServerEvent::DaemonMessage("x".into()).event_name(), "daemon message");
    assert_eq!(ServerEvent::InstallStarted.event_name(), "install started");
    assert_eq!(ServerEvent::InstallCompleted.event_name(), "install completed");
    assert_eq!(ServerEvent::TransferStatus("x".into()).event_name(), "transfer status");
}

#[test]
fn done_lines_mark_a_server_as_running() {
    let mut s = server();
    s.process_config.startup.done = vec![OutputLineMatcher::parse("Done (")];
    s.process_config.startup.strip_ansi = true;
    s.set_state(ServerState::Starting);
    s.watch_startup("loading");
    assert_eq!(s.query_state(), ServerState::Starting);
    s.watch_startup("\u{1b}[32mDone\u{1b}[0m (3s)!");
    assert_eq!(s.query_state(), ServerState::Running);
    assert_eq!(strip_ansi("\u{1b}[1;32mok\u{1b}[0m plain"), "ok plain");
    assert!(startup_done(&s.process_config.startup, "Done (1s)"));
}

#[test]
fn disks_are_counted_now_and_then() {
    let mut s = server();
    assert!(matches!(s.disk_usage_cached(0, 100), DiskSource::Unchecked));
    assert!(matches!(s.disk_usage_cached(10, 100_000), DiskSource::Count));
    s.disk_counted(42, 100_000);
    assert!(matches!(s.disk_usage_cached(10, 101_000), DiskSource::Known(42)));
    assert!(matches!(s.disk_usage_cached(10, 1_000_000), DiskSource::Count));
}

#[test]
fn disk_limits() {
    let mut s = server();
    s.config.build.disk_space = 2;
    assert!(s.has_space_available(2 * 1024 * 1024));
    assert!(!s.has_space_available(2 * 1024 * 1024 + 1));
    assert!(s.over_disk_limit(2 * 1024 * 1024 + 1));
    assert!(!s.over_disk_limit(2 * 1024 * 1024));
    s.config.build.disk_space = 0;
    assert!(s.has_space_available(1 << 40));
    assert!(!s.over_disk_limit(1 << 40));
}

#[test]
fn usage_of_a_running_server() {
    let mut s = server();
    s.set_state(ServerState::Running);
    s.started_at = Some(1_000);
    let facts = StatsFacts {
        networks: vec![(1, 2), (10, 20)],
        memory: 100,
        memory_limit: 500,
        total_inactive_file: 0,
        inactive_file: 30,
        cpu: "12.5".into(),
    };
    let u = s.snapshot_usage(&facts, 77, 11_000).unwrap();
    assert_eq!(u.network.rx_bytes, 11);
    assert_eq!(u.network.tx_bytes, 22);
    assert_eq!(u.memory_bytes, 70);
    assert_eq!(u.memory_limit_bytes, 500);
    assert_eq!(u.disk_bytes, 77);
    assert_eq!(u.uptime, 10);
    assert_eq!(u.state, "running");
    assert_eq!(s.usage().memory_bytes, 70);
}

#[test]
fn figures() {
    assert_eq!(memory_in_use(100, 20, 30), 80);
    assert_eq!(memory_in_use(100, 0, 30), 70);
    assert_eq!(memory_in_use(10, 20, 0), 10);
    assert_eq!(cpu_deltas(20, 10, 200, 100), Some((10, 100)));
    assert_eq!(cpu_deltas(10, 20, 200, 100), None);
    assert!(NetworkStats::totals(&[(u64::MAX, 0), (1, 0)]).is_none());
    let u = ResourceUsage::offline();
    assert_eq!(u.state, "offline");
    assert!(u.to_json().contains("\"state\":\"offline\""), "{}", u.to_json());
}

fn installing(s: &mut Server, fail_at: Option<InstallStep>) -> (Vec<InstallStep>, Option<(bool, bool)>) {
    let mut steps = vec![];
    let mut step = match s.install() {
        Some(step) => step,
        None => return (steps, None),
    };
    loop {
        steps.push(step);
        let outcome = if Some(step) == fail_at { Err(AppError::Internal("x".into())) } else { Ok(()) };
        match s.run_install_script(step, outcome) {
            Install::Go(next) => step = next,
            Install::Report { successful, clean_up } => return (steps, Some((successful, clean_up))),
            Install::Done => return (steps, None),
        }
    }
}

#[test]
fn installs_run_and_report() {
    let mut s = server();
    let (steps, end) = installing(&mut s, None);
    assert_eq!(end.map(|e| e.0), Some(true));
    assert!(s.is_installing());
    assert!(steps.contains(&InstallStep::Wait));
    assert!(steps.contains(&InstallStep::Remove));
    s.installed(true);
    assert!(!s.is_installing());
    let told: Vec<String> = names(s.take_events()).into_iter().map(|e| e.0).collect();
    assert_eq!(told.first().map(|s| s.as_str()), Some("install started"));
    assert_eq!(told[told.len() - 2..], ["install completed".to_string(), "status".to_string()]);
}

#[test]
fn failed_installs_are_reported() {
    let mut s = server();
    let (_, end) = installing(&mut s, Some(InstallStep::Create));
    assert_eq!(end.map(|e| e.0), Some(false));
    let mut t = server();
    let (_, end) = installing(&mut t, Some(InstallStep::Pull));
    assert_eq!(end.map(|e| e.0), Some(true));
    s.installed(false);
    assert!(!s.is_installing());
}

#[test]
fn installs_do_not_overlap() {
    let mut s = server();
    s.installing = true;
    assert!(s.install().is_none());
}

#[test]
fn install_files() {
    assert_eq!(normalized_script("a\r\nb"), "a\nb");
    let mut daemon = Config::default();
    daemon.system.log_directory = "/logs".into();
    daemon.system.tmp_directory = "/tmp/p".into();
    let s = server();
    assert!(s.install_log_path(&daemon).starts_with("/logs/install/"));
    assert!(s.install_log_path(&daemon).contains(UUID));
    assert!(s.staging(&daemon).0.contains(UUID));
    assert!(install_log_header(UUID, "debian:12", "bash").contains("debian:12"));
}

#[test]
fn servers_are_registered_by_uuid() {
    let mut m: ServerManager<&str> = ServerManager::new();
    m.register(1, Ok("one")).unwrap();
    m.insert(2, "two");
    m.register(1, Ok("uno")).unwrap();
    m.register(1, Err(AppError::PayloadTooLarge)).unwrap();
    assert_eq!(m.get(1).unwrap(), &"one");
    assert_eq!(m.register(3, Err(AppError::PayloadTooLarge)), Err(AppError::PayloadTooLarge));
    m.insert(1, "uno");
    assert_eq!(m.get(1).unwrap(), &"uno");
    assert!(matches!(m.get(3), Err(AppError::ServerNotFound)));
    let mut ids = m.all_uuids();
    ids.sort();
    assert_eq!(ids, vec![1, 2]);
    assert_eq!(m.list().len(), 2);
    m.remove(1);
    assert!(!m.contains(1));
    assert!(m.contains(2));
}

#[test]
fn servers_are_suspended_by_uuid() {
    let mut m: ServerManager<Server> = ServerManager::new();
    assert!(matches!(m.set_suspended(1, true), Err(AppError::ServerNotFound)));
    m.insert(1, server());
    m.set_suspended(1, true).unwrap();
    assert!(m.get(1).unwrap().suspended);
    m.set_suspended(1, false).unwrap();
    assert!(!m.get(1).unwrap().suspended);
}

#[test]
fn orphaned_containers() {
    let other = "936da01f-9abd-4d9d-80c7-02af85c822a9";
    let containers = vec![
        UUID.to_string(),
        other.to_string(),
        format!("{UUID}_installer"),
        format!("{other}_installer"),
    ];
    let orphans = cleanup_orphaned_containers(&containers, &vec![UUID.to_string()]);
    assert!(orphans.contains(&other.to_string()));
    assert!(!orphans.contains(&UUID.to_string()));
}

#[test]
fn states_survive_a_restart() {
    let other = "936da01f-9abd-4d9d-80c7-02af85c822a9";
    let kept = persist_states(&vec![
        (other.to_string(), ServerState::Offline),
        (UUID.to_string(), ServerState::Running),
        ("not-a-uuid".to_string(), ServerState::Running),
    ]);
    assert_eq!(
        kept,
        format!(r#"{{"{UUID}":"running","{other}":"offline","not-a-uuid":"running"}}"#)
    );
    let states = read_states(kept.as_bytes());
    assert_eq!(
        states,
        vec![
            (0x936da01f9abd4d9d80c702af85c822a8, "running".to_string()),
            (0x936da01f9abd4d9d80c702af85c822a9, "offline".to_string())
        ]
    );
    assert!(read_states(b"{").is_empty());
    assert!(read_states(br#"{"a":1}"#).is_empty());
    let twice = format!(r#"{{"{UUID}":"offline","{}":"running"}}"#, UUID.to_uppercase());
    assert_eq!(read_states(twice.as_bytes()).len(), 1);
    let numbered = format!(r#"{{"{UUID}":1,"{UUID}":"running"}}"#);
    assert!(read_states(numbered.as_bytes()).is_empty());
    assert!(matches!(restore_one(true, "offline"), Restore::Attach));
    assert!(matches!(restore_one(false, "running"), Restore::Start));
    assert!(matches!(restore_one(false, "starting"), Restore::Start));
    assert!(matches!(restore_one(false, "stopping"), Restore::Offline));
    assert_eq!(page_size(0), 1);
    assert_eq!(page_size(10), 10);
}

#[test]
fn settings_come_from_the_panel() {
    let mut s = server();
    let mut settings = ServerConfig::default();
    settings.uuid = UUID.into();
    settings.suspended = true;
    settings.build.disk_space = 10;
    settings.egg.file_denylist = vec!["*.lock".into()];
    let daemon = Config::default();
    s.sync_from_panel(settings, None, &daemon);
    assert!(s.suspended);
    assert_eq!(s.fs.max_disk(), 10 * 1024 * 1024);
    assert!(s.fs.check_denied("/a.lock").is_err());
}

#[test]
fn environments() {
    let mut cfg = server().config;
    cfg.build.memory_limit = 1024;
    cfg.allocations.default.ip = "10.0.0.1".into();
    cfg.allocations.default.port = 25565;
    cfg.environment.push(("SERVER_PORT".into(), "1".into()));
    let mut daemon = Config::default();
    daemon.system.timezone = "UTC".into();
    let env = Server::build_env(&cfg, &daemon);
    assert!(env.contains(&"STARTUP=java -jar server.jar".to_string()), "{env:?}");
    assert!(env.contains(&"SERVER_MEMORY=1024".to_string()));
    assert!(env.contains(&"SERVER_IP=10.0.0.1".to_string()));
    assert!(env.contains(&"SERVER_PORT=25565".to_string()));
    assert!(env.contains(&"TZ=UTC".to_string()));
    assert!(env.contains(&"JAR=server.jar".to_string()));
    assert!(!env.contains(&"SERVER_PORT=1".to_string()));
}

#[test]
fn websockets_are_limited() {
    let mut s = server();
    for _ in 0..30 {
        assert!(s.connect());
    }
    assert!(!s.connect());
    s.disconnect();
    assert!(s.connect());
}

#[test]
fn answers_about_a_server() {
    let s = server();
    let a = s.api_response();
    assert_eq!(a.state, "offline");
    assert!(!a.is_suspended);
    assert_eq!(a.configuration.uuid, UUID);
    assert_eq!(s.container_names().0, UUID);
    assert_eq!(s.machine_id(), format!("{}\n", UUID.replace('-', "")));
}

#[test]
fn ended_processes_are_looked_into() {
    let mut s = server();
    s.set_state(ServerState::Running);
    assert!(s.start_stats_loop());
    assert!(!s.start_stats_loop());
    s.take_events();
    assert!(s.process_exited());
    assert_eq!(s.query_state(), ServerState::Offline);
    assert!(!s.stats_running);
    assert_eq!(names(s.take_events()), vec![status("offline")]);
    s.set_state(ServerState::Running);
    s.power_restart(Ok(())).unwrap();
    assert!(!s.process_exited());
    assert!(!s.intentional_stop);
}

#[test]
fn samples_end_with_the_process() {
    let mut s = server();
    s.set_state(ServerState::Running);
    s.start_stats_loop();
    assert!(s.stats_tick(9));
    s.set_state(ServerState::Offline);
    s.take_events();
    assert!(!s.stats_tick(9));
    assert!(!s.stats_running);
    assert_eq!(s.usage().disk_bytes, 9);
    assert_eq!(s.usage().state, "offline");
    assert_eq!(names(s.take_events()), vec![("stats".to_string(), vec![s.usage().to_json()])]);
}

#[test]
fn full_disks_stop_a_server_once() {
    let mut s = server();
    s.config.build.disk_space = 1;
    s.set_state(ServerState::Running);
    s.take_events();
    assert!(!s.limit_disk(1024 * 1024, false));
    assert!(!s.limit_disk(1024 * 1024 + 1, true));
    assert!(s.limit_disk(1024 * 1024 + 1, false));
    assert!(s.intentional_stop);
    let told = names(s.take_events());
    assert_eq!(told.len(), 2);
    assert_eq!(
        told[0],
        (
            "daemon message".to_string(),
            vec!["Server is exceeding the assigned disk space limit, stopping process now.".to_string()]
        )
    );
    assert_eq!(told[1], status("stopping"));
}

#[test]
fn reattached_servers_run() {
    let mut s = server();
    s.mark_started_from_container(Some(5));
    assert_eq!(s.query_state(), ServerState::Running);
    assert_eq!(s.started_at, Some(5));
    assert_eq!(names(s.take_events()), vec![status("running")]);
}

#[test]
fn deleted_servers_are_told() {
    let mut s = server();
    s.set_transferring(true);
    s.delete_container();
    assert!(s.suspended);
    assert_eq!(
        names(s.take_events()),
        vec![
            ("transfer status".to_string(), vec!["completed".to_string()]),
            ("server deleted".to_string(), vec!["".to_string()]),
            status("stopping"),
        ]
    );
    assert_eq!(s.container_names(), (UUID.to_string(), format!("{UUID}_installer")));
}

#[test]
fn files_belong_to_the_configured_user() {
    let mut c = Config::default();
    assert_eq!(Server::boot_owner(&c), (988, 988));
    c.system.user.uid = 1000;
    c.system.user.gid = 1001;
    assert_eq!(Server::boot_owner(&c), (1000, 1001));
    c.system.user.rootless.enabled = true;
    assert_eq!(Server::boot_owner(&c), (0, 0));
}

#[test]
fn install_output_is_told() {
    let mut s = server();
    assert_eq!(s.stream_install_output(b"one\ntwo\n"), vec!["one", "two"]);
    assert_eq!(
        names(s.take_events()),
        vec![
            ("install output".to_string(), vec!["one".to_string()]),
            ("install output".to_string(), vec!["two".to_string()]),
        ]
    );
}

#[test]
fn restarts_are_apart() {
    let mut daemon = Config::default();
    daemon.system.crash_detection.enabled = true;
    daemon.system.crash_detection.timeout = 60;
    let mut s = server();
    let crashes = [0u64, 30_000, 59_999, 60_000, 100_000, 120_000];
    let restarted: Vec<u64> = crashes
        .into_iter()
        .filter(|t| s.handle_server_crash(Some(1), false, &daemon, *t))
        .collect();
    assert_eq!(restarted, vec![0, 60_000, 120_000]);
}
