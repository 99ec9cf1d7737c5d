use roost::config::{
    Config, DockerConfig, DockerNetworkConfig, Multiplier, OverheadConfig, RegistryConfig,
};
use roost::docker::cgroup::{burst_to_set, cpu_burst_microseconds, resolve_cgroup_cpu_file};
use roost::docker::client::{
    build_container_config, ensure_network, installer_container, is_mount_allowed, managed_names, pull_plan,
    registry_auth_for, rewrite_allocation_ip, split_image_tag, PullPlan, LABEL_TYPE,
    LABEL_TYPE_INSTALLER, LABEL_TYPE_SERVER,
};
use roost::docker::settings::{blkio_weight_supported, MIB};
use roost::models::configuration::{ServerBuild, ServerConfig};

fn docker_with(overhead: OverheadConfig) -> DockerConfig {
    DockerConfig { overhead, ..Default::default() }
}

fn build(memory_limit: i64) -> ServerBuild {
    ServerBuild { memory_limit, ..Default::default() }
}

fn factor(text: String) -> f32 {
    text.parse().unwrap()
}

#[test]
fn default_tiers_ignore_multipliers() {
    let mut overhead = OverheadConfig::default();
    overhead.multipliers.push(Multiplier { memory: 1, overhead: "9.9".into() });
    let docker = docker_with(overhead);
    let cases = [
        (1024, 1.15),
        (2048, 1.15),
        (2049, 1.10),
        (4096, 1.10),
        (4097, 1.05),
        (16384, 1.05),
    ];
    for (memory, want) in cases {
        let got = factor(build(memory).memory_overhead_multiplier(&docker));
        let want: f32 = want;
        assert!((got - want).abs() < 1e-6, "memory={memory} got={got} want={want}");
    }
}

#[test]
fn override_uses_multiplier_map() {
    let mut overhead = OverheadConfig {
        override_multiplier: true,
        default_multiplier: "1.05".into(),
        ..Default::default()
    };
    overhead.multipliers = vec![
        Multiplier { memory: 4096, overhead: "1.10".into() },
        Multiplier { memory: 2048, overhead: "1.15".into() },
    ];
    let docker = docker_with(overhead);
    assert!((factor(build(1024).memory_overhead_multiplier(&docker)) - 1.15).abs() < 1e-6);
    assert!((factor(build(3000).memory_overhead_multiplier(&docker)) - 1.10).abs() < 1e-6);
    assert!((factor(build(8192).memory_overhead_multiplier(&docker)) - 1.05).abs() < 1e-6);
}

fn limited(memory: i64, swap: i64, cpu: i64) -> ServerBuild {
    ServerBuild { memory_limit: memory, swap, cpu_limit: cpu, ..Default::default() }
}

#[test]
fn limits_become_container_resources() {
    let docker = DockerConfig { container_pid_limit: 512, cpu_period: 100_000, ..Default::default() };
    let b = ServerBuild { io_weight: 500, threads: "0-1".into(), ..limited(1024, 512, 200) };
    let bounded: i64 = 1177 * MIB;
    assert!(b.limits_fit(&docker, false, bounded));
    let r = b.as_container_resources(&docker, false, bounded, true);
    assert_eq!(r.memory, Some(bounded));
    assert_eq!(r.memory_reservation, Some(1024 * MIB));
    assert_eq!(r.memory_swap, Some(bounded + 512 * MIB));
    assert_eq!(r.pids_limit, Some(512));
    assert_eq!(r.cpu_quota, Some(200_000));
    assert_eq!(r.cpu_period, Some(100_000));
    assert_eq!(r.cpuset_cpus.as_deref(), Some("0-1"));
    assert_eq!(r.blkio_weight, Some(500));
    let r = b.as_container_resources(&docker, false, bounded, false);
    assert_eq!(r.blkio_weight, None);
}

#[test]
fn unlimited_swap() {
    let docker = DockerConfig::default();
    let b = limited(1024, -1, 0);
    let r = b.as_container_resources(&docker, false, 1024 * MIB, false);
    assert_eq!(r.memory_swap, Some(-1));
}

#[test]
fn bursts() {
    assert_eq!(cpu_burst_microseconds(100_000, 50), 50_000);
    assert_eq!(burst_to_set(0, true, 100), None);
    assert_eq!(burst_to_set(100_000, false, 100), None);
    assert_eq!(burst_to_set(100_000, true, 100), Some(100_000));
}

#[test]
fn cgroup_files() {
    let v2 = resolve_cgroup_cpu_file("0::/system.slice/docker-abc.scope\n", true).unwrap();
    assert_eq!(v2, "/sys/fs/cgroup/system.slice/docker-abc.scope/cpu.max.burst");
    let v1 = resolve_cgroup_cpu_file("5:memory:/m\n4:cpu,cpuacct:/docker/abc\n", false).unwrap();
    assert_eq!(v1, "/sys/fs/cgroup/cpu/docker/abc/cpu.cfs_burst_us");
    assert!(resolve_cgroup_cpu_file("5:memory:/m\n", false).is_err());
}

#[test]
fn images_and_their_tags() {
    assert_eq!(split_image_tag("debian"), ("debian".to_string(), None));
    assert_eq!(split_image_tag("debian:12"), ("debian".to_string(), Some("12".to_string())));
    assert_eq!(split_image_tag("reg.example:5000/a/b"), ("reg.example:5000/a/b".to_string(), None));
    assert!(matches!(pull_plan("~local:1", true), PullPlan::Present));
    match pull_plan("debian:12", false) {
        PullPlan::Pull(image, tag) => {
            assert_eq!((image.as_str(), tag.as_str()), ("debian", "12"));
        }
        other => panic!("{other:?}"),
    }
}

#[test]
fn registries_are_found_by_image() {
    let registries = vec![
        RegistryConfig { name: "ghcr.io".into(), username: "u".into(), password: "p".into() },
        RegistryConfig { name: "quay.io".into(), username: "u".into(), password: "p".into() },
    ];
    assert_eq!(registry_auth_for("quay.io/a/b:1", &registries), Some(1));
    assert_eq!(registry_auth_for("example.org/a", &registries), None);
}

#[test]
fn mounts_below_allowed_directories() {
    let allowed = vec!["/srv/shared".to_string()];
    assert!(is_mount_allowed("/srv/shared/maps", &allowed));
    assert!(!is_mount_allowed("/srv/sharedother", &allowed));
    assert!(!is_mount_allowed("/etc", &allowed));
}

#[test]
fn allocation_addresses() {
    assert_eq!(rewrite_allocation_ip("127.0.0.1", "172.18.0.1"), "172.18.0.1");
    assert_eq!(rewrite_allocation_ip("203.0.113.9", "172.18.0.1"), "203.0.113.9");
}

#[test]
fn containers_of_a_server() {
    let mut cfg = ServerConfig::default();
    cfg.uuid = "936da01f-9abd-4d9d-80c7-02af85c822a8".into();
    cfg.container.image = "~debian:12".into();
    cfg.allocations.mappings = vec![("127.0.0.1".into(), vec![25565])];
    let mut daemon = Config::default();
    daemon.docker.tmpfs_size = 100;
    daemon.system.user.uid = 988;
    daemon.system.user.gid = 987;
    let r = limited(0, 0, 0).as_container_resources(&daemon.docker, false, 0, false);
    let c = build_container_config(&cfg, r, &daemon, &vec!["A=1".to_string()], "172.18.0.1", "/data/x");
    assert_eq!(c.name, cfg.uuid);
    assert_eq!(c.env, vec!["A=1"]);
    assert_eq!(c.user, "988:987");
    assert!(c.readonly_rootfs);
    assert!(c.tty && c.open_stdin && !c.stdin_once);
    assert!(c.attach_stdin && c.attach_stdout && c.attach_stderr);
    assert_eq!(c.working_dir, "/home/container");
    assert!(c.mounts.iter().any(|m| m.source == "/data/x" && m.target == "/home/container" && !m.read_only));
    assert!(c.ports.iter().any(|p| p.key == "25565/tcp" && p.bindings == vec![("172.18.0.1".to_string(), "25565".to_string())]));
    assert!(c.ports.iter().any(|p| p.key == "25565/udp"));
    assert!(c.labels.contains(&(LABEL_TYPE.to_string(), LABEL_TYPE_SERVER.to_string())));
}

#[test]
fn networks_are_made_once() {
    let mut net = DockerNetworkConfig::default();
    net.name = "pterodactyl_nw".into();
    net.driver = "bridge".into();
    assert!(ensure_network(&net, true).is_none());
    let made = ensure_network(&net, false).unwrap();
    assert_eq!(made.name, "pterodactyl_nw");
    assert_eq!(made.driver, "bridge");
}

#[test]
fn managed_containers_by_name() {
    let names = managed_names(&vec![vec!["/a".to_string()], vec![], vec!["/b".to_string(), "/c".to_string()]]);
    assert_eq!(names, vec!["a", "b"]);
}

#[test]
fn weights_need_a_delegated_group() {
    assert!(blkio_weight_supported(false, false));
    assert!(!blkio_weight_supported(true, false));
    assert!(blkio_weight_supported(true, true));
}

#[test]
fn installers_of_a_server() {
    let mut cfg = ServerConfig::default();
    cfg.uuid = "936da01f-9abd-4d9d-80c7-02af85c822a8".into();
    cfg.container.image = "debian:12".into();
    let mut daemon = Config::default();
    daemon.docker.container_pid_limit = 512;
    let r = limited(512, 0, 0).as_container_resources(&daemon.docker, false, 600 * MIB, false);
    let env = vec!["A=1".to_string()];
    let c = installer_container(
        &cfg, r, &daemon, &env, "172.18.0.1", "/data/x", "/tmp/x", "alpine:3", "ash",
    );
    assert_eq!(c.name, format!("{}_installer", cfg.uuid));
    assert_eq!(c.image, "alpine:3");
    assert_eq!(c.cmd, Some(vec!["ash".to_string(), "/mnt/install/install.sh".to_string()]));
    assert_eq!(c.resources.pids_limit, None);
    assert_eq!(c.resources.memory, Some(600 * MIB));
    assert!(c.mounts.iter().any(|m| m.source == "/tmp/x" && m.target == "/mnt/install"));
    assert!(c.mounts.iter().any(|m| m.source == "/data/x" && m.target == "/mnt/server"));
    assert!(c.labels.contains(&(LABEL_TYPE.to_string(), LABEL_TYPE_INSTALLER.to_string())));
    assert!(!c.labels.contains(&(LABEL_TYPE.to_string(), LABEL_TYPE_SERVER.to_string())));
}

#[test]
fn updates_lift_a_memory_limit() {
    let docker = DockerConfig::default();
    let free = limited(0, 0, 0).as_container_resources(&docker, false, 0, false);
    assert_eq!(free.memory, None);
    assert_eq!(free.for_update().memory, Some(-1));
    let bound = limited(512, 0, 0).as_container_resources(&docker, false, 512 * MIB, false);
    assert_eq!(bound.for_update().memory, Some(512 * MIB));
}
