//! Containers, networks and images as they are asked for.
use vstd::prelude::*;
use crate::config::{Config, DockerNetworkConfig, RegistryConfig};
use crate::docker::settings::ContainerResources;
use crate::models::configuration::{bool_string, ServerConfig, ServerMount};
use crate::numbers;
use crate::parser::properties;
use crate::paths;
use crate::text;

verus! {

pub const LABEL_SERVICE: &'static str = "Service";

pub const LABEL_TYPE: &'static str = "ContainerType";

pub const LABEL_TYPE_SERVER: &'static str = "server_process";

pub const LABEL_TYPE_INSTALLER: &'static str = "server_installer";

/// A directory of the host that a container sees.
#[derive(Debug)]
pub struct MountSpec {
    pub source: String,
    pub target: String,
    pub read_only: bool,
}

/// The host addresses that a container port is bound to.
#[derive(Debug)]
pub struct PortSpec {
    /// such as "25565/tcp"
    pub key: String,
    /// host addresses and ports
    pub bindings: Vec<(String, String)>,
}

/// A container to be created.
#[derive(Debug)]
pub struct ContainerSpec {
    pub name: String,
    pub hostname: String,
    pub domainname: Option<String>,
    pub image: String,
    pub cmd: Option<Vec<String>>,
    pub env: Vec<String>,
    pub labels: Vec<(String, String)>,
    pub ports: Vec<PortSpec>,
    pub user: String,
    pub mounts: Vec<MountSpec>,
    /// the options of the in-memory `/tmp`
    pub tmpfs: String,
    pub network_mode: String,
    pub dns: Option<Vec<String>>,
    pub log_type: String,
    pub log_options: Option<Vec<(String, String)>>,
    pub userns_mode: Option<String>,
    pub cap_drop: Vec<String>,
    pub security_opt: Vec<String>,
    pub readonly_rootfs: bool,
    pub tty: bool,
    pub open_stdin: bool,
    pub attach_stdin: bool,
    pub attach_stdout: bool,
    pub attach_stderr: bool,
    pub stdin_once: bool,
    pub working_dir: String,
    pub resources: ContainerResources,
}

/// A network to be created.
#[derive(Debug)]
pub struct NetworkSpec {
    pub name: String,
    pub driver: String,
    pub internal: bool,
    pub enable_ipv6: bool,
    /// subnets with their gateways
    pub ipam: Vec<(String, Option<String>)>,
    pub options: Vec<(String, String)>,
    pub labels: Vec<(String, String)>,
}

// ---------------------------------------------------------------------------
// Definitions
// ---------------------------------------------------------------------------
/// An address that a container can bind: loopback and wildcard become the
/// network's own.
pub open spec fn bind_ip(ip: Seq<char>, network_ip: Seq<char>) -> Seq<char> {
    if ip == "127.0.0.1"@ || ip == "0.0.0.0"@ {
        network_ip
    } else {
        ip
    }
}

/// The bindings of container ports.
pub type Ports = Seq<(Seq<char>, Seq<(Seq<char>, Seq<char>)>)>;

pub open spec fn ports_view(v: Seq<PortSpec>) -> Ports {
    v.map_values(|p: PortSpec| (p.key@, text::pairs(p.bindings@)))
}

/// Position of a port; the length when it is not bound yet.
pub open spec fn port_index(p: Ports, key: Seq<char>) -> int
    decreases p.len(),
{
    if p.len() == 0 || p[0].0 == key {
        0
    } else {
        1 + port_index(p.skip(1), key)
    }
}

/// One more binding.
pub open spec fn bind(p: Ports, key: Seq<char>, binding: (Seq<char>, Seq<char>)) -> Ports {
    let i = port_index(p, key);
    if i < p.len() {
        p.update(i, (p[i].0, p[i].1.push(binding)))
    } else {
        p.push((key, seq![binding]))
    }
}

/// An allocation bound for both protocols.
pub open spec fn bind_both(p: Ports, a: (Seq<char>, u16), network_ip: Seq<char>) -> Ports {
    let port = numbers::decimal(a.1 as nat);
    let b = (bind_ip(a.0, network_ip), port);
    bind(bind(p, port + "/tcp"@, b), port + "/udp"@, b)
}

/// Every allocation bound.
pub open spec fn bound_ports(a: Seq<(Seq<char>, u16)>, network_ip: Seq<char>) -> Ports
    decreases a.len(),
{
    if a.len() == 0 {
        Seq::empty()
    } else {
        bind_both(bound_ports(a.drop_last(), network_ip), a.last(), network_ip)
    }
}

/// Labels set one after the other.
pub open spec fn with_labels(
    base: Seq<(Seq<char>, Seq<char>)>,
    more: Seq<(Seq<char>, Seq<char>)>,
) -> Seq<(Seq<char>, Seq<char>)>
    decreases more.len(),
{
    if more.len() == 0 {
        base
    } else {
        properties::put(with_labels(base, more.drop_last()), more.last().0, more.last().1)
    }
}

/// The labels of a server's container; the server's own come last and win.
pub open spec fn labels_of(uuid: Seq<char>, own: Seq<(Seq<char>, Seq<char>)>) -> Seq<
    (Seq<char>, Seq<char>),
> {
    with_labels(
        seq![
            (LABEL_SERVICE@, "Pterodactyl"@),
            (LABEL_TYPE@, LABEL_TYPE_SERVER@),
            ("pterodactyl.server_uuid"@, uuid),
        ],
        own,
    )
}

pub type MountView = (Seq<char>, Seq<char>, bool);

pub open spec fn mounts_view(v: Seq<MountSpec>) -> Seq<MountView> {
    v.map_values(|m: MountSpec| (m.source@, m.target@, m.read_only))
}

/// Whether a source lies below an allowed mount point.
pub open spec fn mount_allowed(source: Seq<char>, allowed: Seq<Seq<char>>) -> bool {
    exists|i: int| 0 <= i < allowed.len() && paths::starts_with(source, #[trigger] allowed[i])
}

/// The mounts of a server that are allowed.
pub open spec fn allowed_mounts(m: Seq<ServerMount>, allowed: Seq<Seq<char>>) -> Seq<MountView>
    decreases m.len(),
{
    if m.len() == 0 {
        Seq::empty()
    } else {
        let head = allowed_mounts(m.drop_last(), allowed);
        let l = m.last();
        if mount_allowed(l.source@, allowed) {
            head.push((l.source@, l.target@, l.read_only))
        } else {
            head
        }
    }
}

/// The user that processes in a container run as.
pub open spec fn user_text(daemon: &Config) -> Seq<char> {
    let u = daemon.system.user;
    if u.rootless.enabled {
        numbers::decimal_int(u.rootless.container_uid as int) + ":"@ + numbers::decimal_int(
            u.rootless.container_gid as int,
        )
    } else if u.uid != 0 && u.gid != 0 {
        numbers::decimal_int(u.uid as int) + ":"@ + numbers::decimal_int(u.gid as int)
    } else {
        "988:988"@
    }
}

/// Text that is given, or nothing.
pub open spec fn given(o: Option<String>, s: Seq<char>) -> bool {
    match o {
        Some(t) => s.len() > 0 && t@ == s,
        None => s.len() == 0,
    }
}

/// The capabilities that no container has.
pub open spec fn dropped_capabilities() -> Seq<Seq<char>> {
    seq![
        "setpcap"@,
        "mknod"@,
        "audit_write"@,
        "net_raw"@,
        "dac_override"@,
        "fowner"@,
        "fsetid"@,
        "net_bind_service"@,
        "sys_chroot"@,
        "setfcap"@,
    ]
}

/// What server and installer containers have in common.
pub open spec fn hardened(c: ContainerSpec, cfg: &ServerConfig, daemon: &Config, network_ip: Seq<char>) -> bool {
    let docker = daemon.docker;
    &&& c.hostname@ == cfg.uuid@
    &&& given(c.domainname, docker.domainname@)
    &&& ports_view(c.ports@) == bound_ports(cfg.bound(), network_ip)
    &&& c.user@ == user_text(daemon)
    &&& c.tmpfs@ == "rw,exec,nosuid,size="@ + numbers::decimal(
        if docker.tmpfs_size == 0 {
            1
        } else {
            docker.tmpfs_size as nat
        },
    ) + "m"@
    &&& c.network_mode@ == docker.network.network_mode@
    &&& match c.dns {
        Some(v) => docker.network.dns@.len() > 0 && text::texts(v@) == text::texts(
            docker.network.dns@,
        ),
        None => docker.network.dns@.len() == 0,
    }
    &&& c.log_type@ == (if docker.log_config.kind@.len() == 0 {
        "local"@
    } else {
        docker.log_config.kind@
    })
    &&& match c.log_options {
        Some(v) => docker.log_config.config@.len() > 0 && text::pairs(v@) == text::pairs(
            docker.log_config.config@,
        ),
        None => docker.log_config.config@.len() == 0,
    }
    &&& given(c.userns_mode, docker.userns_mode@)
    &&& text::texts(c.cap_drop@) == dropped_capabilities()
    &&& text::texts(c.security_opt@) == seq!["no-new-privileges"@]
    &&& c.readonly_rootfs
    &&& c.tty && c.open_stdin && !c.stdin_once
    &&& c.attach_stdin && c.attach_stdout && c.attach_stderr
    &&& c.working_dir@ == "/home/container"@
}

// ---------------------------------------------------------------------------
// Executable operations
// ---------------------------------------------------------------------------
/// An address that a container can bind.
pub fn rewrite_allocation_ip(ip: &str, network_ip: &str) -> (r: String)
    ensures
        r@ == bind_ip(ip@, network_ip@),
{
    if text::same(ip, "127.0.0.1") || text::same(ip, "0.0.0.0") {
        network_ip.to_owned()
    } else {
        ip.to_owned()
    }
}

/// Adds a binding.
fn add_binding(ports: &mut Vec<PortSpec>, key: String, ip: &str, port: &str)
    ensures
        ports_view(final(ports)@) == bind(ports_view(old(ports)@), key@, (ip@, port@)),
{
    let ghost before = ports_view(ports@);
    let mut i: usize = 0;
    assert(before.skip(0) =~= before);
    while i < ports.len() && !text::same(ports[i].key.as_str(), key.as_str())
        invariant
            i <= ports.len(),
            before == ports_view(ports@),
            port_index(before, key@) == i + port_index(before.skip(i as int), key@),
        decreases ports.len() - i,
    {
        assert(before.skip(i as int)[0] == before[i as int]);
        assert(before.skip(i as int).skip(1) =~= before.skip(i + 1));
        i = i + 1;
    }
    if i < ports.len() {
        assert(before.skip(i as int)[0] == before[i as int]);
        let ghost bs = text::pairs(ports@[i as int].bindings@);
        ports[i].bindings.push((ip.to_owned(), port.to_owned()));
        assert(text::pairs(ports@[i as int].bindings@) =~= bs.push((ip@, port@)));
        assert(ports_view(ports@) =~= before.update(
            i as int,
            (before[i as int].0, bs.push((ip@, port@))),
        ));
    } else {
        let mut bindings: Vec<(String, String)> = Vec::new();
        bindings.push((ip.to_owned(), port.to_owned()));
        assert(text::pairs(bindings@) =~= seq![(ip@, port@)]);
        ports.push(PortSpec { key, bindings });
        assert(ports_view(ports@) =~= before.push((key@, seq![(ip@, port@)])));
    }
}

/// The port bindings of a server.
fn port_bindings(cfg: &ServerConfig, network_ip: &str) -> (r: Vec<PortSpec>)
    ensures
        ports_view(r@) == bound_ports(cfg.bound(), network_ip@),
{
    let a = cfg.allocations();
    let ghost all = cfg.bound();
    let mut out: Vec<PortSpec> = Vec::new();
    let mut i: usize = 0;
    assert(ports_view(out@) =~= Seq::empty());
    while i < a.len()
        invariant
            i <= a.len(),
            all == crate::models::configuration::ports_view(a@),
            ports_view(out@) == bound_ports(all.take(i as int), network_ip@),
        decreases a.len() - i,
    {
        assert(all.take(i + 1).drop_last() =~= all.take(i as int));
        assert(all.take(i + 1).last() == (a@[i as int].0@, a@[i as int].1));
        let ip = rewrite_allocation_ip(a[i].0.as_str(), network_ip);
        let port = numbers::decimal_u64(a[i].1 as u64);
        add_binding(&mut out, text::cat(port.as_str(), "/tcp"), ip.as_str(), port.as_str());
        add_binding(&mut out, text::cat(port.as_str(), "/udp"), ip.as_str(), port.as_str());
        i = i + 1;
    }
    assert(all.take(i as int) =~= all);
    out
}

/// The labels of a server's container.
fn container_labels(cfg: &ServerConfig) -> (r: Vec<(String, String)>)
    ensures
        text::pairs(r@) == labels_of(cfg.uuid@, text::pairs(cfg.labels@)),
{
    let mut out: Vec<(String, String)> = Vec::new();
    out.push((LABEL_SERVICE.to_owned(), "Pterodactyl".to_owned()));
    out.push((LABEL_TYPE.to_owned(), LABEL_TYPE_SERVER.to_owned()));
    out.push(("pterodactyl.server_uuid".to_owned(), cfg.uuid.clone()));
    let ghost base = text::pairs(out@);
    assert(base =~= seq![
        (LABEL_SERVICE@, "Pterodactyl"@),
        (LABEL_TYPE@, LABEL_TYPE_SERVER@),
        ("pterodactyl.server_uuid"@, cfg.uuid@),
    ]);
    let ghost own = text::pairs(cfg.labels@);
    let mut i: usize = 0;
    while i < cfg.labels.len()
        invariant
            i <= cfg.labels.len(),
            own == text::pairs(cfg.labels@),
            text::pairs(out@) == with_labels(base, own.take(i as int)),
        decreases cfg.labels.len() - i,
    {
        assert(own.take(i + 1).drop_last() =~= own.take(i as int));
        assert(own.take(i + 1).last() == (cfg.labels@[i as int].0@, cfg.labels@[i as int].1@));
        properties::put_entry(&mut out, cfg.labels[i].0.as_str(), cfg.labels[i].1.clone());
        i = i + 1;
    }
    assert(own.take(i as int) =~= own);
    out
}

/// Whether a source lies below an allowed mount point.
pub fn is_mount_allowed(source: &str, allowed: &Vec<String>) -> (r: bool)
    ensures
        r == mount_allowed(source@, text::texts(allowed@)),
{
    let ghost all = text::texts(allowed@);
    let mut i: usize = 0;
    while i < allowed.len()
        invariant
            i <= allowed.len(),
            all == text::texts(allowed@),
            forall|k: int| 0 <= k < i ==> !paths::starts_with(source@, #[trigger] all[k]),
        decreases allowed.len() - i,
    {
        assert(all[i as int] == allowed@[i as int]@);
        if paths::is_below(source, allowed[i].as_str()) {
            return true;
        }
        i = i + 1;
    }
    false
}

/// The mounts of a server: its own files first.
fn container_mounts(cfg: &ServerConfig, daemon: &Config, data_dir: &str) -> (r: Vec<MountSpec>)
    ensures
        mounts_view(r@) == seq![(data_dir@, "/home/container"@, false)] + allowed_mounts(
            cfg.mounts@,
            text::texts(daemon.allowed_mounts@),
        ),
{
    let mut out: Vec<MountSpec> = Vec::new();
    out.push(
        MountSpec {
            source: data_dir.to_owned(),
            target: "/home/container".to_owned(),
            read_only: false,
        },
    );
    let ghost base = seq![(data_dir@, "/home/container"@, false)];
    let ghost allowed = text::texts(daemon.allowed_mounts@);
    assert(mounts_view(out@) =~= base);
    assert(base + allowed_mounts(cfg.mounts@.take(0), allowed) =~= base);
    let mut i: usize = 0;
    while i < cfg.mounts.len()
        invariant
            i <= cfg.mounts.len(),
            allowed == text::texts(daemon.allowed_mounts@),
            mounts_view(out@) == base + allowed_mounts(cfg.mounts@.take(i as int), allowed),
        decreases cfg.mounts.len() - i,
    {
        let ghost before = mounts_view(out@);
        assert(cfg.mounts@.take(i + 1).drop_last() =~= cfg.mounts@.take(i as int));
        let m = &cfg.mounts[i];
        if is_mount_allowed(m.source.as_str(), &daemon.allowed_mounts) {
            out.push(
                MountSpec {
                    source: m.source.clone(),
                    target: m.target.clone(),
                    read_only: m.read_only,
                },
            );
            assert(mounts_view(out@) =~= before.push((m.source@, m.target@, m.read_only)));
            assert(mounts_view(out@) =~= base + allowed_mounts(
                cfg.mounts@.take(i + 1),
                allowed,
            ));
        }
        i = i + 1;
    }
    assert(cfg.mounts@.take(i as int) =~= cfg.mounts@);
    out
}

/// The user that processes in a container run as.
pub fn container_user(daemon: &Config) -> (r: String)
    ensures
        r@ == user_text(daemon),
{
    let u = &daemon.system.user;
    if u.rootless.enabled {
        let a = numbers::decimal_i64(u.rootless.container_uid);
        let b = numbers::decimal_i64(u.rootless.container_gid);
        return text::cat3(a.as_str(), ":", b.as_str());
    }
    if u.uid != 0 && u.gid != 0 {
        let a = numbers::decimal_i64(u.uid);
        let b = numbers::decimal_i64(u.gid);
        return text::cat3(a.as_str(), ":", b.as_str());
    }
    "988:988".to_owned()
}

fn text_if_given(s: &str) -> (r: Option<String>)
    ensures
        given(r, s@),
{
    if s.is_empty() {
        None
    } else {
        Some(s.to_owned())
    }
}

fn capabilities() -> (r: Vec<String>)
    ensures
        text::texts(r@) == dropped_capabilities(),
{
    let mut v: Vec<String> = Vec::new();
    v.push("setpcap".to_owned());
    v.push("mknod".to_owned());
    v.push("audit_write".to_owned());
    v.push("net_raw".to_owned());
    v.push("dac_override".to_owned());
    v.push("fowner".to_owned());
    v.push("fsetid".to_owned());
    v.push("net_bind_service".to_owned());
    v.push("sys_chroot".to_owned());
    v.push("setfcap".to_owned());
    assert(text::texts(v@) =~= dropped_capabilities());
    v
}

/// The container of a server.
pub fn build_container_config(
    cfg: &ServerConfig,
    resources: ContainerResources,
    daemon: &Config,
    env: &Vec<String>,
    network_ip: &str,
    data_dir: &str,
) -> (r: ContainerSpec)
    ensures
        hardened(r, cfg, daemon, network_ip@),
        r.name@ == cfg.uuid@,
        r.image@ == cfg.container.image@,
        r.cmd is None,
        text::texts(r.env@) == text::texts(env@),
        text::pairs(r.labels@) == labels_of(cfg.uuid@, text::pairs(cfg.labels@)),
        mounts_view(r.mounts@) == seq![(data_dir@, "/home/container"@, false)] + allowed_mounts(
            cfg.mounts@,
            text::texts(daemon.allowed_mounts@),
        ),
        r.resources == resources,
{
    let docker = &daemon.docker;
    let size: u64 = if docker.tmpfs_size == 0 {
        1
    } else {
        docker.tmpfs_size
    };
    let size = numbers::decimal_u64(size);
    let mut security_opt: Vec<String> = Vec::new();
    security_opt.push("no-new-privileges".to_owned());
    assert(text::texts(security_opt@) =~= seq!["no-new-privileges"@]);
    ContainerSpec {
        name: cfg.uuid.clone(),
        hostname: cfg.uuid.clone(),
        domainname: text_if_given(docker.domainname.as_str()),
        image: cfg.container.image.clone(),
        cmd: None,
        env: text::copy_texts(env),
        labels: container_labels(cfg),
        ports: port_bindings(cfg, network_ip),
        user: container_user(daemon),
        mounts: container_mounts(cfg, daemon, data_dir),
        tmpfs: text::cat3("rw,exec,nosuid,size=", size.as_str(), "m"),
        network_mode: docker.network.network_mode.clone(),
        dns: if docker.network.dns.len() == 0 {
            None
        } else {
            Some(text::copy_texts(&docker.network.dns))
        },
        log_type: if docker.log_config.kind.as_str().is_empty() {
            "local".to_owned()
        } else {
            docker.log_config.kind.clone()
        },
        log_options: if docker.log_config.config.len() == 0 {
            None
        } else {
            Some(text::copy_pairs(&docker.log_config.config))
        },
        userns_mode: text_if_given(docker.userns_mode.as_str()),
        cap_drop: capabilities(),
        security_opt,
        readonly_rootfs: true,
        tty: true,
        open_stdin: true,
        attach_stdin: true,
        attach_stdout: true,
        attach_stderr: true,
        stdin_once: false,
        working_dir: "/home/container".to_owned(),
        resources,
    }
}

/// The temporary container that installs a server: its image and script, the
/// installer's mounts before the server's own, no limit on processes.
pub fn installer_container(
    cfg: &ServerConfig,
    resources: ContainerResources,
    daemon: &Config,
    env: &Vec<String>,
    network_ip: &str,
    data_dir: &str,
    tmp_dir: &str,
    image: &str,
    entrypoint: &str,
) -> (r: ContainerSpec)
    ensures
        hardened(r, cfg, daemon, network_ip@),
        r.name@ == cfg.uuid@ + "_installer"@,
        r.image@ == image@,
        r.cmd is Some && text::texts(r.cmd->0@) == seq![entrypoint@, "/mnt/install/install.sh"@],
        text::texts(r.env@) == text::texts(env@),
        text::pairs(r.labels@) == properties::put(
            labels_of(cfg.uuid@, text::pairs(cfg.labels@)),
            LABEL_TYPE@,
            LABEL_TYPE_INSTALLER@,
        ),
        mounts_view(r.mounts@) == seq![
            (tmp_dir@, "/mnt/install"@, false),
            (data_dir@, "/mnt/server"@, false),
            (data_dir@, "/home/container"@, false),
        ] + allowed_mounts(cfg.mounts@, text::texts(daemon.allowed_mounts@)),
        r.resources == (ContainerResources { pids_limit: None, ..resources }),
{
    let mut c = build_container_config(cfg, resources, daemon, env, network_ip, data_dir);
    c.name = text::cat(cfg.uuid.as_str(), "_installer");
    c.image = image.to_owned();
    let mut cmd: Vec<String> = Vec::new();
    cmd.push(entrypoint.to_owned());
    cmd.push("/mnt/install/install.sh".to_owned());
    assert(text::texts(cmd@) =~= seq![entrypoint@, "/mnt/install/install.sh"@]);
    c.cmd = Some(cmd);
    properties::put_entry(&mut c.labels, LABEL_TYPE, LABEL_TYPE_INSTALLER.to_owned());
    let ghost own = mounts_view(c.mounts@);
    c.mounts.insert(
        0,
        MountSpec {
            source: data_dir.to_owned(),
            target: "/mnt/server".to_owned(),
            read_only: false,
        },
    );
    c.mounts.insert(
        0,
        MountSpec {
            source: tmp_dir.to_owned(),
            target: "/mnt/install".to_owned(),
            read_only: false,
        },
    );
    assert(mounts_view(c.mounts@) =~= seq![
        (tmp_dir@, "/mnt/install"@, false),
        (data_dir@, "/mnt/server"@, false),
    ] + own);
    c.resources.pids_limit = None;
    c
}

// ---------------------------------------------------------------------------
// Ports: laws
// ---------------------------------------------------------------------------
/// No port is listed twice.
pub open spec fn distinct_ports(p: Ports) -> bool {
    forall|i: int, j: int| 0 <= i < j < p.len() ==> (#[trigger] p[i]).0 != (#[trigger] p[j]).0
}

/// A port is bound to a host address.
pub open spec fn is_bound(p: Ports, key: Seq<char>, b: (Seq<char>, Seq<char>)) -> bool {
    exists|i: int| 0 <= i < p.len() && (#[trigger] p[i]).0 == key && p[i].1.contains(b)
}

proof fn lemma_port_index(p: Ports, key: Seq<char>)
    ensures
        0 <= port_index(p, key) <= p.len(),
        port_index(p, key) < p.len() ==> p[port_index(p, key)].0 == key,
        port_index(p, key) == p.len() ==> forall|i: int|
            0 <= i < p.len() ==> (#[trigger] p[i]).0 != key,
    decreases p.len(),
{
    if p.len() > 0 && p[0].0 != key {
        lemma_port_index(p.skip(1), key);
        if port_index(p, key) == p.len() {
            assert forall|i: int| 0 <= i < p.len() implies (#[trigger] p[i]).0 != key by {
                if i > 0 {
                    assert(p.skip(1)[i - 1].0 != key);
                }
            }
        }
    }
}

proof fn lemma_bind(p: Ports, key: Seq<char>, b: (Seq<char>, Seq<char>))
    requires
        distinct_ports(p),
    ensures
        distinct_ports(bind(p, key, b)),
        is_bound(bind(p, key, b), key, b),
        forall|k: Seq<char>, c: (Seq<char>, Seq<char>)|
            is_bound(p, k, c) ==> is_bound(bind(p, key, b), k, c),
{
    lemma_port_index(p, key);
    let i = port_index(p, key);
    let q = bind(p, key, b);
    if i < p.len() {
        assert(q[i].1.last() == b);
        assert(q[i].1.contains(b));
    } else {
        assert(q[i].1[0] == b);
        assert(q[i].1.contains(b));
    }
    assert forall|k: Seq<char>, c: (Seq<char>, Seq<char>)| is_bound(p, k, c) implies is_bound(
        q,
        k,
        c,
    ) by {
        let j = choose|j: int| 0 <= j < p.len() && (#[trigger] p[j]).0 == k && p[j].1.contains(c);
        let at = choose|at: int| 0 <= at < p[j].1.len() && p[j].1[at] == c;
        assert(q[j].0 == k);
        assert(q[j].1[at] == c);
    }
}

/// Every allocation of a server is bound for TCP and for UDP, and no port is
/// listed twice.
pub proof fn law_every_allocation_is_bound(a: Seq<(Seq<char>, u16)>, network_ip: Seq<char>)
    ensures
        distinct_ports(bound_ports(a, network_ip)),
        forall|i: int|
            0 <= i < a.len() ==> ({
                let port = numbers::decimal((#[trigger] a[i]).1 as nat);
                let b = (bind_ip(a[i].0, network_ip), port);
                is_bound(bound_ports(a, network_ip), port + "/tcp"@, b) && is_bound(
                    bound_ports(a, network_ip),
                    port + "/udp"@,
                    b,
                )
            }),
    decreases a.len(),
{
    if a.len() > 0 {
        law_every_allocation_is_bound(a.drop_last(), network_ip);
        let head = bound_ports(a.drop_last(), network_ip);
        let port = numbers::decimal(a.last().1 as nat);
        let b = (bind_ip(a.last().0, network_ip), port);
        lemma_bind(head, port + "/tcp"@, b);
        lemma_bind(bind(head, port + "/tcp"@, b), port + "/udp"@, b);
        assert forall|i: int| 0 <= i < a.len() implies ({
            let port = numbers::decimal((#[trigger] a[i]).1 as nat);
            let b = (bind_ip(a[i].0, network_ip), port);
            is_bound(bound_ports(a, network_ip), port + "/tcp"@, b) && is_bound(
                bound_ports(a, network_ip),
                port + "/udp"@,
                b,
            )
        }) by {
            if i < a.len() - 1 {
                assert(a.drop_last()[i] == a[i]);
            }
        }
    }
}

proof fn lemma_allowed_mounts(m: Seq<ServerMount>, allowed: Seq<Seq<char>>)
    ensures
        forall|i: int|
            0 <= i < allowed_mounts(m, allowed).len() ==> mount_allowed(
                (#[trigger] allowed_mounts(m, allowed)[i]).0,
                allowed,
            ),
    decreases m.len(),
{
    if m.len() > 0 {
        lemma_allowed_mounts(m.drop_last(), allowed);
        let head = allowed_mounts(m.drop_last(), allowed);
        assert forall|i: int| 0 <= i < allowed_mounts(m, allowed).len() implies mount_allowed(
            (#[trigger] allowed_mounts(m, allowed)[i]).0,
            allowed,
        ) by {
            if i < head.len() {
                assert(allowed_mounts(m, allowed)[i] == head[i]);
            }
        }
    }
}

/// No container mounts a directory of the host that is not below an allowed
/// mount point, but for the files of the server itself.
pub proof fn law_mounts_are_allowed(m: Seq<ServerMount>, allowed: Seq<Seq<char>>, data_dir: Seq<char>)
    ensures
        ({
            let all = seq![(data_dir, "/home/container"@, false)] + allowed_mounts(m, allowed);
            forall|i: int|
                0 <= i < all.len() ==> (#[trigger] all[i]).0 == data_dir || mount_allowed(
                    all[i].0,
                    allowed,
                )
        }),
{
    lemma_allowed_mounts(m, allowed);
    let tail = allowed_mounts(m, allowed);
    let all = seq![(data_dir, "/home/container"@, false)] + tail;
    assert forall|i: int| 0 <= i < all.len() implies (#[trigger] all[i]).0 == data_dir
        || mount_allowed(all[i].0, allowed) by {
        if i > 0 {
            assert(all[i] == tail[i - 1]);
        }
    }
}

// ---------------------------------------------------------------------------
// Networks
// ---------------------------------------------------------------------------
pub type SubnetView = (Seq<char>, Option<Seq<char>>);

/// The views of a list of subnets.
pub open spec fn subnets_view(v: Seq<(String, Option<String>)>) -> Seq<SubnetView> {
    v.map_values(
        |s: (String, Option<String>)|
            (
                s.0@,
                match s.1 {
                    Some(g) => Some(g@),
                    None => None,
                },
            ),
    )
}

/// A subnet, where one is set, with its gateway, where one is set.
pub open spec fn subnet_of(subnet: Seq<char>, gateway: Seq<char>) -> Seq<SubnetView> {
    if subnet.len() == 0 {
        Seq::empty()
    } else if gateway.len() == 0 {
        seq![(subnet, None)]
    } else {
        seq![(subnet, Some(gateway))]
    }
}

fn add_subnet(out: &mut Vec<(String, Option<String>)>, subnet: &str, gateway: &str)
    ensures
        subnets_view(final(out)@) == subnets_view(old(out)@) + subnet_of(subnet@, gateway@),
{
    let ghost before = subnets_view(out@);
    if !subnet.is_empty() {
        out.push((subnet.to_owned(), text_if_given(gateway)));
    }
    assert(subnets_view(out@) =~= before + subnet_of(subnet@, gateway@));
}

/// The network to be created: none when one with the configured name is
/// there.
pub fn ensure_network(net: &DockerNetworkConfig, exists: bool) -> (r: Option<NetworkSpec>)
    ensures
        match r {
            None => net.name@.len() > 0 && exists,
            Some(n) => {
                &&& !(net.name@.len() > 0 && exists)
                &&& n.name@ == (if net.name@.len() == 0 {
                    "pterodactyl_nw"@
                } else {
                    net.name@
                })
                &&& n.driver@ == net.driver@
                &&& n.internal == net.is_internal
                &&& n.enable_ipv6 == (net.interfaces.v6.subnet@.len() > 0)
                &&& subnets_view(n.ipam@) == subnet_of(
                    net.interfaces.v4.subnet@,
                    net.interfaces.v4.gateway@,
                ) + subnet_of(net.interfaces.v6.subnet@, net.interfaces.v6.gateway@)
                &&& text::pairs(n.options@) == seq![
                    ("com.docker.network.bridge.name"@, "pterodactyl0"@),
                    (
                        "com.docker.network.bridge.enable_icc"@,
                        crate::models::configuration::bool_text(net.enable_icc),
                    ),
                    (
                        "com.docker.network.driver.mtu"@,
                        numbers::decimal(net.network_mtu as nat),
                    ),
                    ("com.docker.network.bridge.host_binding_ipv4"@, "0.0.0.0"@),
                ]
                &&& text::pairs(n.labels@) == seq![("Service"@, "Pterodactyl"@)]
            },
        },
{
    let named = !net.name.as_str().is_empty();
    if named && exists {
        return None;
    }
    let mut ipam: Vec<(String, Option<String>)> = Vec::new();
    assert(subnets_view(ipam@) =~= Seq::empty());
    add_subnet(
        &mut ipam,
        net.interfaces.v4.subnet.as_str(),
        net.interfaces.v4.gateway.as_str(),
    );
    add_subnet(
        &mut ipam,
        net.interfaces.v6.subnet.as_str(),
        net.interfaces.v6.gateway.as_str(),
    );
    let mut options: Vec<(String, String)> = Vec::new();
    options.push(("com.docker.network.bridge.name".to_owned(), "pterodactyl0".to_owned()));
    options.push(("com.docker.network.bridge.enable_icc".to_owned(), bool_string(net.enable_icc)));
    options.push(
        ("com.docker.network.driver.mtu".to_owned(), numbers::decimal_u64(net.network_mtu)),
    );
    options.push(
        ("com.docker.network.bridge.host_binding_ipv4".to_owned(), "0.0.0.0".to_owned()),
    );
    let mut labels: Vec<(String, String)> = Vec::new();
    labels.push(("Service".to_owned(), "Pterodactyl".to_owned()));
    Some(
        NetworkSpec {
            name: if named {
                net.name.clone()
            } else {
                "pterodactyl_nw".to_owned()
            },
            driver: net.driver.clone(),
            internal: net.is_internal,
            enable_ipv6: !net.interfaces.v6.subnet.as_str().is_empty(),
            ipam,
            options,
            labels,
        },
    )
}

// ---------------------------------------------------------------------------
// Images
// ---------------------------------------------------------------------------
/// An image without its tag, and the tag: what follows the last colon, unless
/// a slash does.
pub open spec fn image_parts(image: Seq<char>) -> (Seq<char>, Option<Seq<char>>) {
    let at = text::last_of(image, ':');
    if at >= 0 && text::first(image.skip(at + 1), '/') == image.len() - at - 1 {
        (image.take(at), Some(image.skip(at + 1)))
    } else {
        (image, None)
    }
}

/// What stands before the first slash.
pub open spec fn domain_of(name: Seq<char>) -> Seq<char> {
    name.take(text::first(name, '/'))
}

/// What stands behind the first slash.
pub open spec fn path_of(name: Seq<char>) -> Seq<char> {
    let at = text::first(name, '/');
    if at < name.len() {
        name.skip(at + 1)
    } else {
        Seq::empty()
    }
}

/// Whether an image comes from a registry of its own: a name with a slash has
/// a domain with a dot in it.
pub open spec fn has_registry(image: Seq<char>) -> bool {
    let base = image_parts(image).0;
    text::first(base, '/') == base.len() || text::first(domain_of(base), '.') < domain_of(base).len()
}

/// The path of an image that registries are matched against.
pub open spec fn image_path(image: Seq<char>) -> Seq<char> {
    let base = image_parts(image).0;
    if domain_of(base) == "docker.io"@ {
        Seq::empty()
    } else {
        path_of(base)
    }
}

/// Whether a registry serves an image: the domains agree, and the image's path
/// is the registry's or lies below it.
pub open spec fn serves(registry: Seq<char>, image: Seq<char>) -> bool {
    let rp = path_of(registry);
    &&& domain_of(registry) == domain_of(image_parts(image).0)
    &&& rp.len() == 0 || image_path(image) == rp || (rp + "/"@).is_prefix_of(image_path(image))
}

/// How specific a registry is: the length of its path.
pub open spec fn specificity(registry: Seq<char>) -> nat {
    vstd::utf8::encode_utf8(path_of(registry)).len()
}

/// The registry to use: the most specific one that serves the image, the first
/// of several.
pub open spec fn is_best(v: Seq<RegistryConfig>, image: Seq<char>, i: int) -> bool {
    &&& 0 <= i < v.len()
    &&& serves(v[i].name@, image)
    &&& forall|j: int|
        0 <= j < v.len() && serves((#[trigger] v[j]).name@, image) ==> specificity(v[j].name@)
            <= specificity(v[i].name@) && (specificity(v[j].name@) == specificity(v[i].name@) ==> i
            <= j)
}

/// An image without its tag, and the tag.
pub fn split_image_tag(image: &str) -> (r: (String, Option<String>))
    ensures
        r.0@ == image_parts(image@).0,
        match r.1 {
            Some(t) => image_parts(image@).1 == Some(t@),
            None => image_parts(image@).1 is None,
        },
{
    let a = text::chars_of(image);
    match text::rfind(a.as_slice(), ':') {
        Some(at) => {
            let slash: usize = text::find_from(a.as_slice(), at + 1, '/');
            if slash == a.len() {
                let base = text::slice_of(a.as_slice(), 0, at);
                let tag = text::slice_of(a.as_slice(), at + 1, a.len());
                assert(base@ =~= image@.take(at as int));
                assert(tag@ =~= image@.skip(at + 1));
                return (
                    text::string_of(base.as_slice()),
                    Some(text::string_of(tag.as_slice())),
                );
            }
            (image.to_owned(), None)
        },
        None => (image.to_owned(), None),
    }
}

/// What stands before and behind the first slash.
fn split_name(name: &str) -> (r: (String, String, bool))
    ensures
        r.0@ == domain_of(name@),
        r.1@ == path_of(name@),
        r.2 == (text::first(name@, '/') < name@.len()),
{
    let a = text::chars_of(name);
    assert(a@.skip(0) =~= a@);
    let at: usize = text::find_from(a.as_slice(), 0, '/');
    let domain = text::slice_of(a.as_slice(), 0, at);
    assert(domain@ =~= name@.take(at as int));
    if at < a.len() {
        let path = text::slice_of(a.as_slice(), at + 1, a.len());
        assert(path@ =~= name@.skip(at + 1));
        (text::string_of(domain.as_slice()), text::string_of(path.as_slice()), true)
    } else {
        (text::string_of(domain.as_slice()), String::new(), false)
    }
}

/// The registry whose credentials an image is pulled with, by its position in
/// the configuration.
pub fn registry_auth_for(image: &str, registries: &Vec<RegistryConfig>) -> (r: Option<usize>)
    ensures
        match r {
            Some(i) => has_registry(image@) && is_best(registries@, image@, i as int),
            None => !has_registry(image@) || forall|j: int|
                0 <= j < registries@.len() ==> !serves((#[trigger] registries@[j]).name@, image@),
        },
{
    let (base, _tag) = split_image_tag(image);
    let (domain, rest, has_slash) = split_name(base.as_str());
    let d = text::chars_of(domain.as_str());
    assert(d@.skip(0) =~= d@);
    proof {
        text::lemma_first(base@, '/');
    }
    if has_slash && text::find_from(d.as_slice(), 0, '.') == d.len() {
        return None;
    }
    let path = if text::same(domain.as_str(), "docker.io") {
        String::new()
    } else {
        rest
    };
    let mut best: Option<(usize, usize)> = None;
    let mut i: usize = 0;
    while i < registries.len()
        invariant
            i <= registries.len(),
            domain@ == domain_of(image_parts(image@).0),
            path@ == image_path(image@),
            match best {
                Some((b, score)) => b < i && serves(registries@[b as int].name@, image@) && score
                    == specificity(registries@[b as int].name@) && forall|j: int|
                    0 <= j < i && serves((#[trigger] registries@[j]).name@, image@)
                        ==> specificity(registries@[j].name@) <= score && (specificity(
                        registries@[j].name@,
                    ) == score ==> b <= j),
                None => forall|j: int|
                    0 <= j < i ==> !serves((#[trigger] registries@[j]).name@, image@),
            },
        decreases registries.len() - i,
    {
        let (rd, rp, _s) = split_name(registries[i].name.as_str());
        let below = text::cat(rp.as_str(), "/");
        let serves_it = text::same(rd.as_str(), domain.as_str()) && (rp.as_str().is_empty()
            || text::same(path.as_str(), rp.as_str()) || text::starts_with(
            path.as_str(),
            below.as_str(),
        ));
        assert(serves_it == serves(registries@[i as int].name@, image@));
        if serves_it {
            let bytes = text::bytes_of(rp.as_str());
            let score: usize = bytes.len();
            match best {
                Some((_b, s)) => {
                    if score > s {
                        best = Some((i, score));
                    }
                },
                None => {
                    best = Some((i, score));
                },
            }
        }
        i = i + 1;
    }
    match best {
        Some((b, _s)) => Some(b),
        None => None,
    }
}

/// What is done to have an image.
#[derive(Debug)]
pub enum PullPlan {
    /// it is a local one, or already there
    Present,
    /// it is pulled, by name and tag
    Pull(String, String),
}

/// Decides whether an image is pulled: not when its name starts with `~`, and
/// not when it is there.
pub fn pull_plan(image: &str, exists: bool) -> (r: PullPlan)
    ensures
        match r {
            PullPlan::Present => (image@.len() > 0 && image@[0] == '~') || exists,
            PullPlan::Pull(from, tag) => !((image@.len() > 0 && image@[0] == '~') || exists) && from@
                == image_parts(image@).0 && tag@ == (match image_parts(image@).1 {
                Some(t) => t,
                None => Seq::empty(),
            }),
        },
{
    let a = text::chars_of(image);
    if (a.len() > 0 && a[0] == '~') || exists {
        return PullPlan::Present;
    }
    let (from, tag) = split_image_tag(image);
    PullPlan::Pull(
        from,
        match tag {
            Some(t) => t,
            None => String::new(),
        },
    )
}

/// The first name of every container that has one, without leading slashes.
pub open spec fn first_names(v: Seq<Vec<String>>) -> Seq<Seq<char>>
    decreases v.len(),
{
    if v.len() == 0 {
        Seq::empty()
    } else if v.last()@.len() == 0 {
        first_names(v.drop_last())
    } else {
        first_names(v.drop_last()).push(text::trim_start_of(v.last()@[0]@, '/'))
    }
}

/// The names of the containers that the engine lists.
pub fn managed_names(containers: &Vec<Vec<String>>) -> (r: Vec<String>)
    ensures
        text::texts(r@) == first_names(containers@),
{
    let mut out: Vec<String> = Vec::new();
    let mut i: usize = 0;
    assert(text::texts(out@) =~= Seq::empty());
    while i < containers.len()
        invariant
            i <= containers.len(),
            text::texts(out@) == first_names(containers@.take(i as int)),
        decreases containers.len() - i,
    {
        let ghost before = text::texts(out@);
        assert(containers@.take(i + 1).drop_last() =~= containers@.take(i as int));
        assert(containers@.take(i + 1).last() == containers@[i as int]);
        if containers[i].len() > 0 {
            let n = text::trimmed_start_of(containers[i][0].as_str(), '/');
            out.push(n);
            assert(text::texts(out@) =~= before.push(n@));
        }
        i = i + 1;
    }
    assert(containers@.take(i as int) =~= containers@);
    out
}

// ---------------------------------------------------------------------------
// Containers: laws
// ---------------------------------------------------------------------------
/// `r` holds, in order, the mounts of `m` at the positions `at`, which are those
/// whose source lies below an allowed mount point.
pub open spec fn selects(
    m: Seq<ServerMount>,
    allowed: Seq<Seq<char>>,
    r: Seq<MountView>,
    at: Seq<int>,
) -> bool {
    &&& at.len() == r.len()
    &&& forall|j: int, k: int| 0 <= j < k < at.len() ==> #[trigger] at[j] < #[trigger] at[k]
    &&& forall|j: int|
        0 <= j < at.len() ==> 0 <= #[trigger] at[j] < m.len() && r[j] == (
            m[at[j]].source@,
            m[at[j]].target@,
            m[at[j]].read_only,
        )
    &&& forall|i: int|
        0 <= i < m.len() ==> (at.contains(i) <==> exists|k: int|
            0 <= k < allowed.len() && paths::components(#[trigger] allowed[k]).is_prefix_of(
                paths::components((#[trigger] m[i]).source@),
            ))
}

/// A mount is one of those configured, below an allowed mount point.
pub open spec fn is_configured(
    m: Seq<ServerMount>,
    allowed: Seq<Seq<char>>,
    v: MountView,
) -> bool {
    exists|i: int|
        0 <= i < m.len() && mount_allowed(v.0, allowed) && v == (
            (#[trigger] m[i]).source@,
            m[i].target@,
            m[i].read_only,
        )
}

proof fn lemma_selected(m: Seq<ServerMount>, allowed: Seq<Seq<char>>) -> (at: Seq<int>)
    ensures
        selects(m, allowed, allowed_mounts(m, allowed), at),
    decreases m.len(),
{
    if m.len() == 0 {
        Seq::empty()
    } else {
        let rest = m.drop_last();
        let n = rest.len() as int;
        let before = lemma_selected(rest, allowed);
        let r = allowed_mounts(m, allowed);
        let head = allowed_mounts(rest, allowed);
        let below = mount_allowed(m.last().source@, allowed);
        let at = if below {
            before.push(n)
        } else {
            before
        };
        assert forall|j: int| 0 <= j < before.len() implies at[j] == before[j] && r[j] == head[j]
            && rest[at[j]] == m[at[j]] by {}
        assert forall|i: int| 0 <= i < m.len() implies (at.contains(i) <==> exists|k: int|
            0 <= k < allowed.len() && paths::components(#[trigger] allowed[k]).is_prefix_of(
                paths::components((#[trigger] m[i]).source@),
            )) by {
            if i < n {
                assert(rest[i] == m[i]);
                if before.contains(i) {
                    let j = choose|j: int| 0 <= j < before.len() && before[j] == i;
                    assert(at[j] == i);
                }
                if at.contains(i) {
                    let j = choose|j: int| 0 <= j < at.len() && at[j] == i;
                    assert(before[j] == i);
                }
            } else {
                assert(m[i] == m.last());
                if below {
                    assert(at[before.len() as int] == i);
                    let k = choose|k: int|
                        0 <= k < allowed.len() && paths::starts_with(
                            m.last().source@,
                            #[trigger] allowed[k],
                        );
                    assert(paths::components(allowed[k]).is_prefix_of(
                        paths::components(m[i].source@),
                    ));
                } else {
                    if at.contains(i) {
                        let j = choose|j: int| 0 <= j < at.len() && at[j] == i;
                        assert(before[j] == i);
                    }
                    assert forall|k: int|
                        0 <= k < allowed.len() implies !paths::components(
                        #[trigger] allowed[k],
                    ).is_prefix_of(paths::components(m[i].source@)) by {
                        assert(!paths::starts_with(m.last().source@, allowed[k]));
                    }
                }
            }
        }
        at
    }
}

/// A container sees the files of its server, and then, in order, exactly those
/// mounts of the server whose source is an allowed mount point or lies below one,
/// each with its own source, target and `read_only`.
pub proof fn law_mounts_are_as_configured(m: Seq<ServerMount>, allowed: Seq<Seq<char>>)
    ensures
        exists|at: Seq<int>| selects(m, allowed, allowed_mounts(m, allowed), at),
        forall|i: int|
            0 <= i < m.len() && mount_allowed((#[trigger] m[i]).source@, allowed)
                ==> allowed_mounts(m, allowed).contains(
                (m[i].source@, m[i].target@, m[i].read_only),
            ),
        forall|j: int|
            0 <= j < allowed_mounts(m, allowed).len() ==> is_configured(
                m,
                allowed,
                #[trigger] allowed_mounts(m, allowed)[j],
            ),
{
    let at = lemma_selected(m, allowed);
    let r = allowed_mounts(m, allowed);
    assert(selects(m, allowed, r, at));
    assert forall|i: int|
        0 <= i < m.len() && mount_allowed((#[trigger] m[i]).source@, allowed) implies r.contains(
        (m[i].source@, m[i].target@, m[i].read_only),
    ) by {
        let k = choose|k: int|
            0 <= k < allowed.len() && paths::starts_with(m[i].source@, #[trigger] allowed[k]);
        assert(paths::components(allowed[k]).is_prefix_of(paths::components(m[i].source@)));
        assert(at.contains(i));
        let j = choose|j: int| 0 <= j < at.len() && at[j] == i;
        assert(r[j] == (m[i].source@, m[i].target@, m[i].read_only));
    }
    lemma_allowed_mounts(m, allowed);
    assert forall|j: int| 0 <= j < r.len() implies is_configured(
        m,
        allowed,
        #[trigger] r[j],
    ) by {
        let i = at[j];
        assert(mount_allowed(m[i].source@, allowed));
    }
}

/// An allocation of this machine alone, or of all its addresses, is bound to the address
/// of the network, any other to its own.
pub proof fn law_addresses_that_are_bound(ip: Seq<char>, network_ip: Seq<char>)
    ensures
        bind_ip("127.0.0.1"@, network_ip) == network_ip,
        bind_ip("0.0.0.0"@, network_ip) == network_ip,
        ip != "127.0.0.1"@ && ip != "0.0.0.0"@ ==> bind_ip(ip, network_ip) == ip,
{
}

proof fn lemma_bind_adds_one(
    p: Ports,
    key: Seq<char>,
    b: (Seq<char>, Seq<char>),
    k: Seq<char>,
    c: (Seq<char>, Seq<char>),
)
    requires
        is_bound(bind(p, key, b), k, c),
    ensures
        is_bound(p, k, c) || (k == key && c == b),
{
    lemma_port_index(p, key);
    let i = port_index(p, key);
    let q = bind(p, key, b);
    let j = choose|j: int| 0 <= j < q.len() && (#[trigger] q[j]).0 == k && q[j].1.contains(c);
    let at = choose|at: int| 0 <= at < q[j].1.len() && q[j].1[at] == c;
    if i < p.len() {
        if j == i {
            if at < p[i].1.len() {
                assert(p[i].1[at] == c);
                assert(p[i].0 == k && p[i].1.contains(c));
            }
        } else {
            assert(p[j] == q[j]);
        }
    } else if j < p.len() {
        assert(p[j] == q[j]);
    }
}

/// What is bound is an allocation, for TCP or for UDP, on its own port.
pub proof fn law_only_allocations_are_bound(
    a: Seq<(Seq<char>, u16)>,
    network_ip: Seq<char>,
    k: Seq<char>,
    c: (Seq<char>, Seq<char>),
)
    requires
        is_bound(bound_ports(a, network_ip), k, c),
    ensures
        exists|i: int|
            0 <= i < a.len() && c.1 == numbers::decimal((#[trigger] a[i]).1 as nat) && (k == c.1
                + "/tcp"@ || k == c.1 + "/udp"@) && (c.0 == a[i].0 || c.0 == network_ip),
    decreases a.len(),
{
    if a.len() > 0 {
        let rest = a.drop_last();
        let head = bound_ports(rest, network_ip);
        let port = numbers::decimal(a.last().1 as nat);
        let b = (bind_ip(a.last().0, network_ip), port);
        let mid = bind(head, port + "/tcp"@, b);
        lemma_bind_adds_one(mid, port + "/udp"@, b, k, c);
        if is_bound(mid, k, c) {
            lemma_bind_adds_one(head, port + "/tcp"@, b, k, c);
        }
        if is_bound(head, k, c) {
            law_only_allocations_are_bound(rest, network_ip, k, c);
            let i = choose|i: int|
                0 <= i < rest.len() && c.1 == numbers::decimal((#[trigger] rest[i]).1 as nat) && (k
                    == c.1 + "/tcp"@ || k == c.1 + "/udp"@) && (c.0 == rest[i].0 || c.0
                    == network_ip);
            assert(a[i] == rest[i]);
        } else {
            assert(a[a.len() - 1] == a.last());
        }
    }
}

/// Processes run as the user inside the container where the engine is rootless, else as
/// the configured user and group, and as 988 unless both are set.
pub proof fn law_users_of_containers(daemon: &Config)
    ensures
        ({
            let u = daemon.system.user;
            &&& u.rootless.enabled ==> user_text(daemon) == numbers::decimal_int(
                u.rootless.container_uid as int,
            ) + ":"@ + numbers::decimal_int(u.rootless.container_gid as int)
            &&& !u.rootless.enabled && u.uid != 0 && u.gid != 0 ==> user_text(daemon)
                == numbers::decimal_int(u.uid as int) + ":"@ + numbers::decimal_int(u.gid as int)
            &&& !u.rootless.enabled && (u.uid == 0 || u.gid == 0) ==> user_text(daemon)
                == "988:988"@
        }),
{
}

/// No container can gain privileges or write to its own files outside of its mounts; it
/// has none of these capabilities, and the user, the name and the network that are
/// configured.
pub proof fn law_containers_are_confined(
    c: ContainerSpec,
    cfg: &ServerConfig,
    daemon: &Config,
    network_ip: Seq<char>,
)
    requires
        hardened(c, cfg, daemon, network_ip),
    ensures
        c.readonly_rootfs,
        c.security_opt@.len() == 1 && c.security_opt@[0]@ == "no-new-privileges"@,
        text::texts(c.cap_drop@) == seq![
            "setpcap"@,
            "mknod"@,
            "audit_write"@,
            "net_raw"@,
            "dac_override"@,
            "fowner"@,
            "fsetid"@,
            "net_bind_service"@,
            "sys_chroot"@,
            "setfcap"@,
        ],
        c.user@ == user_text(daemon),
        c.hostname@ == cfg.uuid@,
        c.network_mode@ == daemon.docker.network.network_mode@,
        c.working_dir@ == "/home/container"@,
        c.tty && c.open_stdin && !c.stdin_once && c.attach_stdin && c.attach_stdout
            && c.attach_stderr,
        daemon.docker.tmpfs_size > 0 ==> c.tmpfs@ == "rw,exec,nosuid,size="@ + numbers::decimal(
            daemon.docker.tmpfs_size as nat,
        ) + "m"@,
        daemon.docker.domainname@.len() == 0 ==> c.domainname is None,
        daemon.docker.domainname@.len() > 0 ==> (c.domainname matches Some(d) && d@
            == daemon.docker.domainname@),
        daemon.docker.userns_mode@.len() > 0 ==> (c.userns_mode matches Some(d) && d@
            == daemon.docker.userns_mode@),
        daemon.docker.userns_mode@.len() == 0 ==> c.userns_mode is None,
        daemon.docker.network.dns@.len() > 0 ==> (c.dns matches Some(v) && text::texts(v@)
            == text::texts(daemon.docker.network.dns@)),
        daemon.docker.log_config.kind@.len() == 0 ==> c.log_type@ == "local"@,
        daemon.docker.log_config.kind@.len() > 0 ==> c.log_type@ == daemon.docker.log_config.kind@,
        ports_view(c.ports@) == bound_ports(cfg.bound(), network_ip),
{
    assert(text::texts(c.security_opt@).len() == c.security_opt@.len());
    assert(text::texts(c.security_opt@)[0] == c.security_opt@[0]@);
}

/// The value of a label, by the first entry that has it.
pub open spec fn label(v: Seq<(Seq<char>, Seq<char>)>, k: Seq<char>) -> Option<Seq<char>> {
    let i = properties::key_index(v, k);
    if i < v.len() {
        Some(v[i].1)
    } else {
        None
    }
}

proof fn lemma_label_put(v: Seq<(Seq<char>, Seq<char>)>, k: Seq<char>, x: Seq<char>, other: Seq<char>)
    ensures
        label(properties::put(v, k, x), k) == Some(x),
        other != k ==> label(properties::put(v, k, x), other) == label(v, other),
{
    properties::lemma_put(v, k, x);
    if other != k {
        properties::lemma_put_others(v, k, x, other);
    }
}

/// A container is labelled as one of a server, with the server's identifier; the labels
/// that the server is given are set as well, and win.
pub proof fn law_labels(uuid: Seq<char>, own: Seq<(Seq<char>, Seq<char>)>, k: Seq<char>, x: Seq<char>)
    ensures
        label(labels_of(uuid, Seq::empty()), "Service"@) == Some("Pterodactyl"@),
        label(labels_of(uuid, Seq::empty()), "ContainerType"@) == Some("server_process"@),
        label(labels_of(uuid, Seq::empty()), "pterodactyl.server_uuid"@) == Some(uuid),
        label(labels_of(uuid, own.push((k, x))), k) == Some(x),
        forall|other: Seq<char>|
            other != k ==> #[trigger] label(labels_of(uuid, own.push((k, x))), other) == label(
                labels_of(uuid, own),
                other,
            ),
{
    let base = seq![
        (LABEL_SERVICE@, "Pterodactyl"@),
        (LABEL_TYPE@, LABEL_TYPE_SERVER@),
        ("pterodactyl.server_uuid"@, uuid),
    ];
    assert(own.push((k, x)).drop_last() =~= own);
    let before = with_labels(base, own);
    assert(with_labels(base, own.push((k, x))) == properties::put(before, k, x));
    lemma_label_put(before, k, x, k);
    assert forall|other: Seq<char>| other != k implies #[trigger] label(
        labels_of(uuid, own.push((k, x))),
        other,
    ) == label(labels_of(uuid, own), other) by {
        lemma_label_put(before, k, x, other);
    }
    reveal_strlit("Service");
    reveal_strlit("ContainerType");
    reveal_strlit("pterodactyl.server_uuid");
    assert("Service"@.len() == 7 && "ContainerType"@.len() == 13
        && "pterodactyl.server_uuid"@.len() == 23);
    assert(with_labels(base, Seq::empty()) == base);
    let one = base.skip(1);
    let two = one.skip(1);
    assert(one[0] == base[1] && two[0] == base[2]);
    assert(properties::key_index(base, "Service"@) == 0);
    assert(properties::key_index(one, "ContainerType"@) == 0);
    assert(properties::key_index(base, "ContainerType"@) == 1);
    assert(properties::key_index(two, "pterodactyl.server_uuid"@) == 0);
    assert(properties::key_index(one, "pterodactyl.server_uuid"@) == 1);
    assert(properties::key_index(base, "pterodactyl.server_uuid"@) == 2);
}

/// An image is parted from its tag at the last colon, unless that is the one of a port.
pub proof fn law_tags_of_images(name: Seq<char>, tag: Seq<char>, rest: Seq<char>)
    requires
        forall|i: int| 0 <= i < tag.len() ==> #[trigger] tag[i] != ':' && tag[i] != '/',
        forall|i: int| 0 <= i < rest.len() ==> #[trigger] rest[i] != ':',
    ensures
        image_parts(name + seq![':'] + tag) == (name, Some(tag)),
        image_parts(name + seq![':'] + tag + seq!['/'] + rest) == (
            name + seq![':'] + tag + seq!['/'] + rest,
            None::<Seq<char>>,
        ),
        image_parts(rest) == (rest, None::<Seq<char>>),
{
    let a = name + seq![':'] + tag;
    text::law_last_of(name, ':', tag);
    assert(a.take(name.len() as int) =~= name);
    assert(a.skip(name.len() as int + 1) =~= tag);
    text::law_first(tag, '/', rest);
    let tail = tag + seq!['/'] + rest;
    let b = name + seq![':'] + tag + seq!['/'] + rest;
    assert(b =~= name + seq![':'] + tail);
    assert forall|i: int| 0 <= i < tail.len() implies #[trigger] tail[i] != ':' by {
        if i < tag.len() {
            assert(tail[i] == tag[i]);
        } else if i > tag.len() {
            assert(tail[i] == rest[i - tag.len() - 1]);
        }
    }
    text::law_last_of(name, ':', tail);
    assert(b.skip(name.len() as int + 1) =~= tail);
    text::law_last_of(rest, ':', rest);
}

/// A registry serves the images of its domain that lie at its path or below it; one
/// without a path all of them.
pub proof fn law_registries(domain: Seq<char>, path: Seq<char>, more: Seq<char>, other: Seq<char>)
    requires
        forall|i: int| 0 <= i < domain.len() ==> #[trigger] domain[i] != '/' && domain[i] != ':',
        forall|i: int| 0 <= i < path.len() ==> #[trigger] path[i] != ':',
        forall|i: int| 0 <= i < more.len() ==> #[trigger] more[i] != ':',
        forall|i: int| 0 <= i < other.len() ==> #[trigger] other[i] != '/',
        path.len() > 0,
        domain != "docker.io"@,
    ensures
        serves(domain, domain + seq!['/'] + path),
        serves(domain + seq!['/'] + path, domain + seq!['/'] + path),
        serves(domain + seq!['/'] + path, domain + seq!['/'] + path + seq!['/'] + more),
        other != domain ==> !serves(other, domain + seq!['/'] + path),
        !serves(domain + seq!['/'] + path + seq!['/'] + more, domain + seq!['/'] + path),
        has_registry(domain + seq!['/'] + path) <==> domain.contains('.'),
{
    reveal_strlit("/");
    assert("/"@ =~= seq!['/']);
    let image = domain + seq!['/'] + path;
    let deep = image + seq!['/'] + more;
    let rest = path + seq!['/'] + more;
    assert(deep =~= domain + seq!['/'] + rest);
    assert forall|i: int| 0 <= i < image.len() implies #[trigger] image[i] != ':' by {
        if i < domain.len() {
            assert(image[i] == domain[i]);
        } else if i > domain.len() {
            assert(image[i] == path[i - domain.len() - 1]);
        }
    }
    assert forall|i: int| 0 <= i < deep.len() implies #[trigger] deep[i] != ':' by {
        if i < image.len() {
            assert(deep[i] == image[i]);
        } else if i > image.len() {
            assert(deep[i] == more[i - image.len() - 1]);
        }
    }
    text::law_last_of(image, ':', image);
    text::law_last_of(deep, ':', deep);
    text::law_first(domain, '/', path);
    text::law_first(domain, '/', rest);
    text::law_first(other, '/', path);
    assert(image.take(domain.len() as int) =~= domain);
    assert(deep.take(domain.len() as int) =~= domain);
    assert(image.skip(domain.len() as int + 1) =~= path);
    assert(deep.skip(domain.len() as int + 1) =~= rest);
    assert(domain.take(domain.len() as int) =~= domain);
    assert(other.take(other.len() as int) =~= other);
    assert(path + "/"@ =~= rest.subrange(0, path.len() as int + 1));
    assert(domain_of(image) == domain && domain_of(deep) == domain && domain_of(domain) == domain);
    assert(rest.len() > path.len());
    text::lemma_first(domain, '.');
    let f = text::first(domain, '.');
    if f < domain.len() {
        assert(domain[f] == '.');
    }
    if domain.contains('.') {
        let i = choose|i: int| 0 <= i < domain.len() && domain[i] == '.';
        assert(f <= i);
    }
}

/// A network has a subnet where one is set, with its gateway where that is set.
pub proof fn law_subnets(subnet: Seq<char>, gateway: Seq<char>)
    requires
        subnet.len() > 0,
        gateway.len() > 0,
    ensures
        subnet_of(subnet, gateway) == seq![(subnet, Some(gateway))],
        subnet_of(subnet, Seq::empty()) == seq![(subnet, None::<Seq<char>>)],
        subnet_of(Seq::empty(), gateway).len() == 0,
{
}

/// Containers are listed by their first names, without the slash; those without a name
/// are passed over.
pub proof fn law_names_of_containers(v: Seq<Vec<String>>, c: Vec<String>)
    ensures
        c@.len() == 0 ==> first_names(v.push(c)) == first_names(v),
        c@.len() > 0 ==> first_names(v.push(c)) == first_names(v).push(
            text::trim_start_of(c@[0]@, '/'),
        ),
        first_names(Seq::empty()).len() == 0,
{
    assert(v.push(c).drop_last() =~= v);
}

/// The registry that is used serves the image, and no other that does is more specific;
/// of several alike it is the first.
pub proof fn law_best_registry(v: Seq<RegistryConfig>, image: Seq<char>, i: int, j: int)
    requires
        is_best(v, image, i),
        0 <= j < v.len(),
    ensures
        serves(v[i].name@, image),
        serves(v[j].name@, image) ==> vstd::utf8::encode_utf8(path_of(v[j].name@)).len()
            <= vstd::utf8::encode_utf8(path_of(v[i].name@)).len(),
        serves(v[j].name@, image) && j < i ==> vstd::utf8::encode_utf8(path_of(v[j].name@)).len()
            < vstd::utf8::encode_utf8(path_of(v[i].name@)).len(),
        is_best(v, image, j) ==> i == j,
{
}

/// What stands before and behind the first slash of a name.
pub proof fn law_domains_and_paths(domain: Seq<char>, path: Seq<char>)
    requires
        forall|i: int| 0 <= i < domain.len() ==> #[trigger] domain[i] != '/',
    ensures
        domain_of(domain + seq!['/'] + path) == domain,
        path_of(domain + seq!['/'] + path) == path,
        domain_of(domain) == domain,
        path_of(domain).len() == 0,
{
    text::law_first(domain, '/', path);
    let s = domain + seq!['/'] + path;
    assert(s.take(domain.len() as int) =~= domain);
    assert(s.skip(domain.len() as int + 1) =~= path);
    assert(domain.take(domain.len() as int) =~= domain);
}

/// Images of the common registry have no path of their own there: only a registry
/// without one serves them.
pub proof fn law_common_registry(path: Seq<char>, own: Seq<char>)
    requires
        forall|i: int| 0 <= i < path.len() ==> #[trigger] path[i] != ':',
        own.len() > 0,
    ensures
        serves("docker.io"@, "docker.io"@ + seq!['/'] + path),
        !serves("docker.io"@ + seq!['/'] + own, "docker.io"@ + seq!['/'] + path),
{
    reveal_strlit("docker.io");
    reveal_strlit("/");
    let domain = "docker.io"@;
    let image = domain + seq!['/'] + path;
    assert forall|i: int| 0 <= i < domain.len() implies #[trigger] domain[i] != '/' && domain[i]
        != ':' by {}
    assert forall|i: int| 0 <= i < image.len() implies #[trigger] image[i] != ':' by {
        if i < domain.len() {
            assert(image[i] == domain[i]);
        } else if i > domain.len() {
            assert(image[i] == path[i - domain.len() - 1]);
        }
    }
    text::law_last_of(image, ':', image);
    law_domains_and_paths(domain, path);
    law_domains_and_paths(domain, own);
}

} // verus!
