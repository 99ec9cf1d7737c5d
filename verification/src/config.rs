//! The daemon configuration.
use vstd::prelude::*;
use crate::json;
use crate::json::Json;
use crate::numbers;
use crate::paths;
use crate::text;

verus! {

/// The daemon configuration, as the panel writes it into `config.yml`.
#[derive(Debug, Clone, Default)]
pub struct Config {
    pub debug: bool,
    pub app_name: String,
    pub uuid: String,
    pub token_id: String,
    pub token: String,
    pub api: ApiConfig,
    pub system: SystemConfig,
    pub docker: DockerConfig,
    pub throttles: ConsoleThrottles,
    pub remote: String,
    pub remote_query: RemoteQueryConfig,
    pub allowed_mounts: Vec<String>,
    pub allowed_origins: Vec<String>,
    pub allow_cors_private_network: bool,
    pub ignore_panel_config_updates: bool,
    /// where the configuration was read from
    pub path: Option<String>,
}

#[derive(Debug, Clone, Default)]
pub struct ApiConfig {
    pub host: String,
    pub port: u16,
    pub ssl: SslConfig,
    pub disable_remote_download: bool,
    pub upload_limit: u64,
    pub trusted_proxies: Vec<String>,
}

#[derive(Debug, Clone, Default)]
pub struct SslConfig {
    pub enabled: bool,
    pub cert: String,
    pub key: String,
}

#[derive(Debug, Clone, Default)]
pub struct SystemConfig {
    pub root_directory: String,
    pub log_directory: String,
    pub data: String,
    pub archive_directory: String,
    pub backup_directory: String,
    pub tmp_directory: String,
    pub username: String,
    pub timezone: String,
    pub disk_check_interval: u64,
    pub websocket_log_count: usize,
    pub check_permissions_on_boot: bool,
    pub enable_log_rotate: bool,
    pub openat_mode: String,
    pub activity_send_interval: u64,
    pub activity_send_count: usize,
    pub user: UserConfig,
    pub passwd: PasswdConfig,
    pub machine_id: MachineIdConfig,
    pub backups: BackupsConfig,
    pub transfers: TransfersConfig,
    pub sftp: SftpConfig,
    pub crash_detection: CrashDetectionConfig,
}

#[derive(Debug, Clone)]
pub struct SftpConfig {
    pub bind_address: String,
    pub bind_port: u16,
    pub read_only: bool,
}

impl Default for SftpConfig {
    fn default() -> (r: Self)
        ensures
            r.bind_address@ == "0.0.0.0"@,
            r.bind_port == 2022,
            !r.read_only,
    {
        SftpConfig { bind_address: "0.0.0.0".to_owned(), bind_port: 2022, read_only: false }
    }
}

#[derive(Debug, Clone)]
pub struct CrashDetectionConfig {
    pub enabled: bool,
    pub detect_clean_exit_as_crash: bool,
    pub timeout: u64,
}

impl Default for CrashDetectionConfig {
    fn default() -> (r: Self)
        ensures
            r.enabled,
            r.detect_clean_exit_as_crash,
            r.timeout == 60,
    {
        CrashDetectionConfig { enabled: true, detect_clean_exit_as_crash: true, timeout: 60 }
    }
}

#[derive(Debug, Clone)]
pub struct ConsoleThrottles {
    pub enabled: bool,
    pub lines: u64,
    pub line_reset_interval: u64,
}

impl Default for ConsoleThrottles {
    fn default() -> (r: Self)
        ensures
            r.enabled,
            r.lines == 2000,
            r.line_reset_interval == 100,
    {
        ConsoleThrottles { enabled: true, lines: 2000, line_reset_interval: 100 }
    }
}

#[derive(Debug, Clone, Default)]
pub struct UserConfig {
    pub uid: i64,
    pub gid: i64,
    pub rootless: RootlessConfig,
}

#[derive(Debug, Clone, Default)]
pub struct RootlessConfig {
    pub enabled: bool,
    pub container_uid: i64,
    pub container_gid: i64,
}

#[derive(Debug, Clone)]
pub struct PasswdConfig {
    pub enabled: bool,
    pub directory: String,
}

impl Default for PasswdConfig {
    fn default() -> (r: Self)
        ensures
            !r.enabled,
            r.directory@ == "/run/wings/etc"@,
    {
        PasswdConfig { enabled: false, directory: "/run/wings/etc".to_owned() }
    }
}

#[derive(Debug, Clone)]
pub struct MachineIdConfig {
    pub enabled: bool,
    pub directory: String,
}

impl Default for MachineIdConfig {
    fn default() -> (r: Self)
        ensures
            r.enabled,
            r.directory@ == "/run/wings/machine-id"@,
    {
        MachineIdConfig { enabled: true, directory: "/run/wings/machine-id".to_owned() }
    }
}

#[derive(Debug, Clone, Default)]
pub struct BackupsConfig {
    pub write_limit: i64,
    pub compression_level: String,
    pub restore_host_allowlist: Vec<String>,
}

#[derive(Debug, Clone, Default)]
pub struct TransfersConfig {
    pub download_limit: i64,
}

#[derive(Debug, Clone, Default)]
pub struct DockerConfig {
    pub network: DockerNetworkConfig,
    pub domainname: String,
    pub registries: Vec<RegistryConfig>,
    pub tmpfs_size: u64,
    pub container_pid_limit: i64,
    pub installer_limits: InstallerLimits,
    pub cpu_period: u64,
    pub cpu_burst: CpuBurstConfig,
    pub cpu_shares: u64,
    pub overhead: OverheadConfig,
    pub use_performant_inspect: bool,
    pub userns_mode: String,
    pub log_config: LogConfig,
}

#[derive(Debug, Clone)]
pub struct CpuBurstConfig {
    pub enabled: bool,
    pub percent: i64,
}

impl Default for CpuBurstConfig {
    fn default() -> (r: Self)
        ensures
            r.enabled,
            r.percent == 100,
    {
        CpuBurstConfig { enabled: true, percent: 100 }
    }
}

#[derive(Debug, Clone, Default)]
pub struct DockerNetworkConfig {
    pub interface: String,
    pub dns: Vec<String>,
    pub name: String,
    pub ispn: bool,
    pub driver: String,
    pub network_mode: String,
    pub is_internal: bool,
    pub enable_icc: bool,
    pub network_mtu: u64,
    pub interfaces: NetworkInterfaces,
}

#[derive(Debug, Clone, Default)]
pub struct NetworkInterfaces {
    pub v4: NetworkInterface,
    pub v6: NetworkInterface,
}

#[derive(Debug, Clone, Default)]
pub struct NetworkInterface {
    pub subnet: String,
    pub gateway: String,
}

#[derive(Debug, Clone, Default)]
pub struct RegistryConfig {
    pub name: String,
    pub username: String,
    pub password: String,
}

#[derive(Debug, Clone, Default)]
pub struct InstallerLimits {
    pub memory: i64,
    pub cpu: i64,
}

/// Memory overhead factors, kept as the decimal text they are written in.
#[derive(Debug, Clone, Default)]
pub struct OverheadConfig {
    pub override_multiplier: bool,
    pub default_multiplier: String,
    pub multipliers: Vec<Multiplier>,
}

/// The factor for servers of up to `memory` MB.
#[derive(Debug, Clone, Default)]
pub struct Multiplier {
    pub memory: i64,
    pub overhead: String,
}

#[derive(Debug, Clone, Default)]
pub struct LogConfig {
    pub kind: String,
    pub config: Vec<(String, String)>,
}

#[derive(Debug, Clone, Default)]
pub struct RemoteQueryConfig {
    pub timeout: u64,
    pub boot_servers_per_page: u64,
}

/// Switches that are on unless a configuration says otherwise.
pub fn default_true() -> (r: bool)
    ensures
        r,
{
    true
}

// ---------------------------------------------------------------------------
// Addresses and directories
// ---------------------------------------------------------------------------
/// A directory: the one that is set, else a default one.
pub open spec fn dir_or(set: Seq<char>, default: Seq<char>) -> Seq<char> {
    if set.len() == 0 {
        default
    } else {
        set
    }
}

fn directory_or(set: &str, default: String) -> (r: String)
    ensures
        r@ == dir_or(set@, default@),
{
    if set.is_empty() {
        default
    } else {
        set.to_owned()
    }
}

/// A directory to be made.
#[derive(Debug)]
pub struct DirectoryPlan {
    /// directories that only the daemon may read, in the order they are made
    pub private: Vec<String>,
    /// other directories
    pub shared: Vec<String>,
    /// files to be written, with their content
    pub files: Vec<(String, String)>,
}

/// The `group` file of a container.
pub open spec fn group_text(gid: i64) -> Seq<char> {
    "root:x:0:\ncontainer:x:"@ + numbers::decimal_int(gid as int) + ":\nnogroup:x:65534:\n"@
}

/// The `passwd` file of a container.
pub open spec fn passwd_text(uid: i64, gid: i64) -> Seq<char> {
    "root:x:0:0::/root:/bin/sh\ncontainer:x:"@ + numbers::decimal_int(uid as int) + ":"@
        + numbers::decimal_int(gid as int)
        + "::/home/container:/bin/sh\nnobody:x:65534:65534::/var/empty:/bin/sh\n"@
}

/// The rotation rule for a log file.
pub open spec fn logrotate_text(log_file: Seq<char>) -> Seq<char> {
    log_file
        + " {\n    size 10M\n    copytruncate\n    compress\n    delaycompress\n    dateext\n    maxage 7\n    missingok\n    notifempty\n}\n"@
}

impl Config {
    pub open spec fn tmp_dir_text(&self) -> Seq<char> {
        dir_or(self.system.tmp_directory@, "/tmp/pterodactyl"@)
    }

    pub open spec fn log_dir_text(&self) -> Seq<char> {
        dir_or(self.system.log_directory@, paths::join(self.system.root_directory@, "logs"@))
    }

    pub open spec fn archive_dir_text(&self) -> Seq<char> {
        dir_or(
            self.system.archive_directory@,
            paths::join(self.system.root_directory@, "archives"@),
        )
    }

    pub open spec fn backup_dir_text(&self) -> Seq<char> {
        dir_or(self.system.backup_directory@, paths::join(self.system.root_directory@, "backups"@))
    }

    /// The address that the API server listens on.
    pub fn bind_address(&self) -> (r: String)
        ensures
            r@ == self.api.host@ + ":"@ + numbers::decimal(self.api.port as nat),
    {
        let port = numbers::decimal_u64(self.api.port as u64);
        text::cat3(self.api.host.as_str(), ":", port.as_str())
    }

    /// The address of the panel, without trailing slashes.
    pub fn panel_url(&self) -> (r: String)
        ensures
            r@ == text::trim_end_of(self.remote@, '/'),
    {
        text::trimmed_end_of(self.remote.as_str(), '/')
    }

    /// Where the files of a server are.
    pub fn data_dir(&self, server_uuid: &str) -> (r: String)
        ensures
            r@ == paths::join(self.system.data@, server_uuid@),
    {
        paths::join_path(self.system.data.as_str(), server_uuid)
    }

    pub fn tmp_dir(&self) -> (r: String)
        ensures
            r@ == self.tmp_dir_text(),
    {
        directory_or(self.system.tmp_directory.as_str(), "/tmp/pterodactyl".to_owned())
    }

    pub fn log_dir(&self) -> (r: String)
        ensures
            r@ == self.log_dir_text(),
    {
        directory_or(
            self.system.log_directory.as_str(),
            paths::join_path(self.system.root_directory.as_str(), "logs"),
        )
    }

    pub fn archive_dir(&self) -> (r: String)
        ensures
            r@ == self.archive_dir_text(),
    {
        directory_or(
            self.system.archive_directory.as_str(),
            paths::join_path(self.system.root_directory.as_str(), "archives"),
        )
    }

    pub fn backup_dir(&self) -> (r: String)
        ensures
            r@ == self.backup_dir_text(),
    {
        directory_or(
            self.system.backup_directory.as_str(),
            paths::join_path(self.system.root_directory.as_str(), "backups"),
        )
    }

    /// Where the states of the servers are kept over a restart.
    pub fn states_path(&self) -> (r: String)
        ensures
            r@ == paths::join(self.system.root_directory@, "states.json"@),
    {
        paths::join_path(self.system.root_directory.as_str(), "states.json")
    }

    /// The rotation rule to be written, if one is wanted: rotation is enabled,
    /// the system has a directory for rules, and none is there for the daemon.
    pub fn log_rotation(&self, rules_directory: bool, rule_present: bool) -> (r: Option<String>)
        ensures
            match r {
                Some(t) => self.system.enable_log_rotate && rules_directory && !rule_present && t@
                    == logrotate_text(paths::join(self.log_dir_text(), "roost.log"@)),
                None => !(self.system.enable_log_rotate && rules_directory && !rule_present),
            },
    {
        if self.system.enable_log_rotate && rules_directory && !rule_present {
            let dir = self.log_dir();
            let file = paths::join_path(dir.as_str(), "roost.log");
            Some(
                text::cat(
                    file.as_str(),
                    " {\n    size 10M\n    copytruncate\n    compress\n    delaycompress\n    dateext\n    maxage 7\n    missingok\n    notifempty\n}\n",
                ),
            )
        } else {
            None
        }
    }

    /// The directories the daemon needs, and the files that containers see as
    /// their `/etc/group` and `/etc/passwd` where that is enabled.
    pub fn directory_plan(&self) -> (r: DirectoryPlan)
        ensures
            text::texts(r.private@) == seq![
                self.tmp_dir_text(),
                self.log_dir_text(),
                self.archive_dir_text(),
                self.backup_dir_text(),
            ] + (if self.system.data@.len() > 0 {
                seq![self.system.data@]
            } else {
                Seq::empty()
            }),
            text::texts(r.shared@) == (if self.system.passwd.enabled {
                seq![self.system.passwd.directory@]
            } else {
                Seq::empty()
            }) + (if self.system.machine_id.enabled {
                seq![self.system.machine_id.directory@]
            } else {
                Seq::empty()
            }),
            text::pairs(r.files@) == (if self.system.passwd.enabled {
                seq![
                    (
                        paths::join(self.system.passwd.directory@, "group"@),
                        group_text(self.system.user.gid),
                    ),
                    (
                        paths::join(self.system.passwd.directory@, "passwd"@),
                        passwd_text(self.system.user.uid, self.system.user.gid),
                    ),
                ]
            } else {
                Seq::empty()
            }),
    {
        let mut private: Vec<String> = Vec::new();
        private.push(self.tmp_dir());
        private.push(self.log_dir());
        private.push(self.archive_dir());
        private.push(self.backup_dir());
        if !self.system.data.as_str().is_empty() {
            private.push(self.system.data.clone());
        }
        let mut shared: Vec<String> = Vec::new();
        let mut files: Vec<(String, String)> = Vec::new();
        if self.system.passwd.enabled {
            let dir = self.system.passwd.directory.as_str();
            shared.push(dir.to_owned());
            let uid = numbers::decimal_i64(self.system.user.uid);
            let gid = numbers::decimal_i64(self.system.user.gid);
            let group = text::cat3(
                "root:x:0:\ncontainer:x:",
                gid.as_str(),
                ":\nnogroup:x:65534:\n",
            );
            let mut passwd = text::cat3(
                "root:x:0:0::/root:/bin/sh\ncontainer:x:",
                uid.as_str(),
                ":",
            );
            passwd.append(gid.as_str());
            passwd.append("::/home/container:/bin/sh\nnobody:x:65534:65534::/var/empty:/bin/sh\n");
            files.push((paths::join_path(dir, "group"), group));
            files.push((paths::join_path(dir, "passwd"), passwd));
        }
        if self.system.machine_id.enabled {
            shared.push(self.system.machine_id.directory.clone());
        }
        DirectoryPlan { private, shared, files }
    }
}

// ---------------------------------------------------------------------------
// Tokens
// ---------------------------------------------------------------------------
/// Where a configured value comes from.
#[derive(Debug)]
pub enum Expansion {
    /// the file at this path
    File(String),
    /// the environment variable with this name
    Variable(String),
    /// the value itself
    Literal,
}

pub open spec fn is_name_char(c: char) -> bool {
    ('0' <= c && c <= '9') || ('a' <= c && c <= 'z') || ('A' <= c && c <= 'Z') || c == '_'
}

/// The leading characters of `s` that can stand in a variable's name.
pub open spec fn name_prefix(s: Seq<char>) -> Seq<char>
    decreases s.len(),
{
    if s.len() > 0 && is_name_char(s[0]) {
        seq![s[0]] + name_prefix(s.skip(1))
    } else {
        Seq::empty()
    }
}

/// The variable that the text behind a `$` names: up to the closing brace, or
/// as far as it is made of letters, digits and underscores.
pub open spec fn variable_name(rest: Seq<char>) -> Seq<char> {
    if rest.len() > 0 && rest[0] == '{' {
        let braced = rest.skip(1);
        braced.take(text::first(braced, '}'))
    } else {
        name_prefix(rest)
    }
}

/// Where a value, already without white space around it, comes from.
pub open spec fn expansion_is(input: Seq<char>, e: Expansion) -> bool {
    let tag = "file://"@;
    if tag.is_prefix_of(input) {
        e matches Expansion::File(p) && p@ == input.skip(tag.len() as int)
    } else if input.len() > 0 && input[0] == '$' && variable_name(input.skip(1)).len() > 0 {
        e matches Expansion::Variable(n) && n@ == variable_name(input.skip(1))
    } else {
        e is Literal
    }
}

/// A value once its source has been read. `found` is what the file or the
/// variable held: a file that cannot be read leaves the value as it is, a
/// variable that is not set leaves it empty.
pub open spec fn expanded(input: Seq<char>, e: Expansion, found: Option<Seq<char>>) -> Seq<char> {
    match e {
        Expansion::File(_) => match found {
            Some(s) => text::trim(s),
            None => text::trim(input),
        },
        Expansion::Variable(_) => match found {
            Some(s) => s,
            None => Seq::empty(),
        },
        Expansion::Literal => text::trim(input),
    }
}

/// The variable that the text behind a `$` names.
fn read_variable_name(rest: &[char]) -> (r: Vec<char>)
    ensures
        r@ == variable_name(rest@),
{
    if rest.len() > 0 && rest[0] == '{' {
        let end: usize = text::find_from(rest, 1, '}');
        let out = text::slice_of(rest, 1, end);
        assert(out@ =~= rest@.skip(1).take(end - 1));
        return out;
    }
    let mut out: Vec<char> = Vec::new();
    let mut i: usize = 0;
    assert(rest@.skip(0) =~= rest@);
    assert(out@ + name_prefix(rest@) =~= name_prefix(rest@));
    while i < rest.len()
        invariant
            i <= rest.len(),
            !(rest@.len() > 0 && rest@[0] == '{'),
            out@ + name_prefix(rest@.skip(i as int)) == name_prefix(rest@),
        decreases rest.len() - i,
    {
        let c: char = rest[i];
        let ghost before = out@;
        assert(rest@.skip(i as int)[0] == c);
        assert(rest@.skip(i as int).skip(1) =~= rest@.skip(i + 1));
        if !(('0' <= c && c <= '9') || ('a' <= c && c <= 'z') || ('A' <= c && c <= 'Z') || c == '_') {
            assert(out@ + Seq::<char>::empty() =~= out@);
            return out;
        }
        out.push(c);
        assert(out@ + name_prefix(rest@.skip(i + 1)) =~= before + name_prefix(rest@.skip(i as int)));
        i = i + 1;
    }
    assert(out@ + name_prefix(rest@.skip(i as int)) =~= out@);
    out
}

/// Where a configured value comes from: `file://path`, `$VAR` or `${VAR}`, or
/// the value itself.
pub fn expansion(input: &str) -> (r: Expansion)
    ensures
        expansion_is(text::trim(input@), r),
{
    let t = text::trimmed(input);
    if let Some(path) = text::strip_prefix(t.as_str(), "file://") {
        return Expansion::File(path);
    }
    let a = text::chars_of(t.as_str());
    if a.len() > 0 && a[0] == '$' {
        let rest = text::slice_of(a.as_slice(), 1, a.len());
        assert(rest@ =~= t@.skip(1));
        let name = read_variable_name(rest.as_slice());
        if name.len() > 0 {
            return Expansion::Variable(text::string_of(name.as_slice()));
        }
    }
    Expansion::Literal
}

/// A value once its source has been read.
pub fn expand_value(input: &str, source: &Expansion, found: Option<String>) -> (r: String)
    ensures
        r@ == expanded(
            input@,
            *source,
            (match found {
                Some(s) => Some(s@),
                None => None,
            }),
        ),
{
    match source {
        Expansion::File(_) => match found {
            Some(s) => text::trimmed(s.as_str()),
            None => text::trimmed(input),
        },
        Expansion::Variable(_) => match found {
            Some(s) => s,
            None => String::new(),
        },
        Expansion::Literal => text::trimmed(input),
    }
}

impl Config {
    /// Takes the token and its id: the environment's where it has one, else the
    /// configured ones. All four are already expanded.
    pub fn resolve_token(
        &mut self,
        token: String,
        token_id: String,
        env_token: Option<String>,
        env_token_id: Option<String>,
    )
        ensures
            final(self).token@ == (match env_token {
                Some(t) => t@,
                None => token@,
            }),
            final(self).token_id@ == (match env_token_id {
                Some(t) => t@,
                None => token_id@,
            }),
            *final(self) == (Config {
                token: final(self).token,
                token_id: final(self).token_id,
                ..*old(self)
            }),
    {
        self.token = match env_token {
            Some(t) => t,
            None => token,
        };
        self.token_id = match env_token_id {
            Some(t) => t,
            None => token_id,
        };
    }
}

// ---------------------------------------------------------------------------
// Shapes that a configuration may have
// ---------------------------------------------------------------------------
/// The number that a document holds, as text.
pub open spec fn number_text(d: json::Doc) -> Option<Seq<char>> {
    match d {
        json::Doc::Number(n) => Some(n),
        _ => None,
    }
}

/// One member of the map form: a memory limit and its factor.
pub open spec fn multiplier_member(m: (Seq<char>, json::Doc)) -> Option<(int, Seq<char>)> {
    match (numbers::parse_signed(m.0), number_text(m.1)) {
        (Some(memory), Some(overhead)) => Some((memory, overhead)),
        _ => None,
    }
}

/// The memory limit in an element of the sequence form; zero when it is not
/// given.
pub open spec fn memory_of(d: json::Doc) -> Option<int> {
    match d {
        json::Doc::Object(m) => match json::lookup(m, "memory"@) {
            None => Some(0int),
            Some(json::Doc::Number(n)) => numbers::parse_signed(n),
            Some(_) => None,
        },
        _ => None,
    }
}

/// The factor in an element of the sequence form; zero when it is not given.
pub open spec fn overhead_of(d: json::Doc) -> Option<Seq<char>> {
    match d {
        json::Doc::Object(m) => match json::lookup(m, "overhead"@) {
            None => Some("0"@),
            Some(v) => number_text(v),
        },
        _ => None,
    }
}

pub open spec fn multiplier_item(d: json::Doc) -> Option<(int, Seq<char>)> {
    match (memory_of(d), overhead_of(d)) {
        (Some(memory), Some(overhead)) => Some((memory, overhead)),
        _ => None,
    }
}

/// The switch that makes `docker.overhead` take its own factors, under either
/// of its two keys; off when neither is given. Both at once are refused.
pub open spec fn override_doc(d: json::Doc) -> Option<bool> {
    match d {
        json::Doc::Object(m) => match (
            json::lookup(m, "override"@),
            json::lookup(m, "override_multiplier"@),
        ) {
            (None, None) => Some(false),
            (Some(json::Doc::Bool(b)), None) => Some(b),
            (None, Some(json::Doc::Bool(b))) => Some(b),
            _ => None,
        },
        _ => None,
    }
}

/// The factors a document holds, in its order: a map from memory limits to
/// factors, or a sequence of pairs.
pub open spec fn multipliers_doc(d: json::Doc) -> Option<Seq<(int, Seq<char>)>> {
    match d {
        json::Doc::Object(m) => if forall|i: int|
            0 <= i < m.len() ==> (#[trigger] multiplier_member(m[i])) is Some {
            Some(Seq::new(m.len(), |i: int| multiplier_member(m[i])->0))
        } else {
            None
        },
        json::Doc::Array(a) => if forall|i: int|
            0 <= i < a.len() ==> (#[trigger] multiplier_item(a[i])) is Some {
            Some(Seq::new(a.len(), |i: int| multiplier_item(a[i])->0))
        } else {
            None
        },
        _ => None,
    }
}

/// The views of a list of factors.
pub open spec fn multipliers_view(v: Seq<Multiplier>) -> Seq<(int, Seq<char>)> {
    v.map_values(|m: Multiplier| (m.memory as int, m.overhead@))
}

/// Reads one member of the map form.
fn read_multiplier_member(key: &str, value: &Json) -> (r: Option<Multiplier>)
    ensures
        match r {
            Some(m) => multiplier_member((key@, json::doc(*value))) == Some(
                (m.memory as int, m.overhead@),
            ),
            None => multiplier_member((key@, json::doc(*value))) is None,
        },
{
    match (numbers::read_i64(key), value) {
        (Some(memory), Json::Number(n)) => Some(Multiplier { memory, overhead: n.clone() }),
        _ => None,
    }
}

/// Reads one element of the sequence form.
fn read_multiplier_item(value: &Json) -> (r: Option<Multiplier>)
    ensures
        match r {
            Some(m) => multiplier_item(json::doc(*value)) == Some((m.memory as int, m.overhead@)),
            None => multiplier_item(json::doc(*value)) is None,
        },
{
    match value {
        Json::Object(m) => {
            proof {
                json::lemma_doc_object(*m);
            }
            let (i, has_memory) = json::place(m, "memory");
            let memory: i64 = if has_memory {
                match &m[i].1 {
                    Json::Number(n) => match numbers::read_i64(n.as_str()) {
                        Some(v) => v,
                        None => {
                            return None;
                        },
                    },
                    _ => {
                        return None;
                    },
                }
            } else {
                0
            };
            let (j, has_overhead) = json::place(m, "overhead");
            let overhead = if has_overhead {
                match &m[j].1 {
                    Json::Number(n) => n.clone(),
                    _ => {
                        return None;
                    },
                }
            } else {
                "0".to_owned()
            };
            Some(Multiplier { memory, overhead })
        },
        _ => None,
    }
}

/// Reads the switch of `docker.overhead`: `override`, or the older
/// `override_multiplier`.
pub fn override_from(d: &Json) -> (r: Option<bool>)
    ensures
        r == override_doc(json::doc(*d)),
{
    match d {
        Json::Object(m) => {
            proof {
                json::lemma_doc_object(*m);
            }
            let (i, has_new) = json::place(m, "override");
            let (j, has_old) = json::place(m, "override_multiplier");
            if has_new && has_old {
                None
            } else if has_new {
                match &m[i].1 {
                    Json::Bool(b) => Some(*b),
                    _ => None,
                }
            } else if has_old {
                match &m[j].1 {
                    Json::Bool(b) => Some(*b),
                    _ => None,
                }
            } else {
                Some(false)
            }
        },
        _ => None,
    }
}

/// Reads `docker.overhead.multipliers` in either of its shapes.
pub fn multipliers_from(d: &Json) -> (r: Option<Vec<Multiplier>>)
    ensures
        match r {
            Some(v) => multipliers_doc(json::doc(*d)) == Some(multipliers_view(v@)),
            None => multipliers_doc(json::doc(*d)) is None,
        },
{
    let mut out: Vec<Multiplier> = Vec::new();
    match d {
        Json::Object(m) => {
            let ghost all = json::members(m@);
            proof {
                json::lemma_doc_object(*m);
            }
            let mut i: usize = 0;
            while i < m.len()
                invariant
                    i <= m.len(),
                    all == json::members(m@),
                    json::doc(*d) == json::Doc::Object(all),
                    out@.len() == i,
                    forall|k: int|
                        0 <= k < i ==> (#[trigger] multiplier_member(all[k])) == Some(
                            multipliers_view(out@)[k],
                        ),
                decreases m.len() - i,
            {
                let ghost before = out@;
                assert(all[i as int] == (m@[i as int].0@, json::doc(m@[i as int].1)));
                match read_multiplier_member(m[i].0.as_str(), &m[i].1) {
                    Some(x) => {
                        out.push(x);
                    },
                    None => {
                        assert(multiplier_member(all[i as int]) is None);
                        return None;
                    },
                }
                assert(multipliers_view(out@) =~= multipliers_view(before).push(
                    multiplier_member(all[i as int])->0,
                ));
                i = i + 1;
            }
            assert(multipliers_view(out@) =~= Seq::new(
                all.len(),
                |k: int| multiplier_member(all[k])->0,
            ));
            Some(out)
        },
        Json::Array(a) => {
            let ghost all = json::docs(a@);
            proof {
                json::lemma_doc_array(*a);
            }
            let mut i: usize = 0;
            while i < a.len()
                invariant
                    i <= a.len(),
                    all == json::docs(a@),
                    json::doc(*d) == json::Doc::Array(all),
                    out@.len() == i,
                    forall|k: int|
                        0 <= k < i ==> (#[trigger] multiplier_item(all[k])) == Some(
                            multipliers_view(out@)[k],
                        ),
                decreases a.len() - i,
            {
                let ghost before = out@;
                assert(all[i as int] == json::doc(a@[i as int]));
                match read_multiplier_item(&a[i]) {
                    Some(x) => {
                        out.push(x);
                    },
                    None => {
                        assert(multiplier_item(all[i as int]) is None);
                        return None;
                    },
                }
                assert(multipliers_view(out@) =~= multipliers_view(before).push(
                    multiplier_item(all[i as int])->0,
                ));
                i = i + 1;
            }
            assert(multipliers_view(out@) =~= Seq::new(
                all.len(),
                |k: int| multiplier_item(all[k])->0,
            ));
            Some(out)
        },
        _ => None,
    }
}

/// A text member that may be absent.
pub open spec fn text_member(m: Seq<(Seq<char>, json::Doc)>, k: Seq<char>) -> Option<Seq<char>> {
    match json::lookup(m, k) {
        None => Some(Seq::empty()),
        Some(json::Doc::Str(s)) => Some(s),
        Some(_) => None,
    }
}

/// The credentials for one registry.
pub open spec fn credentials(d: json::Doc) -> Option<(Seq<char>, Seq<char>)> {
    match d {
        json::Doc::Object(m) => match (text_member(m, "username"@), text_member(m, "password"@)) {
            (Some(u), Some(p)) => Some((u, p)),
            _ => None,
        },
        _ => None,
    }
}

/// One element of the sequence form: name, user and password.
pub open spec fn registry_item(d: json::Doc) -> Option<(Seq<char>, Seq<char>, Seq<char>)> {
    match d {
        json::Doc::Object(m) => match (text_member(m, "name"@), credentials(d)) {
            (Some(n), Some(c)) => Some((n, c.0, c.1)),
            _ => None,
        },
        _ => None,
    }
}

/// One member of the map form.
pub open spec fn registry_member(m: (Seq<char>, json::Doc)) -> Option<
    (Seq<char>, Seq<char>, Seq<char>),
> {
    match credentials(m.1) {
        Some(c) => Some((m.0, c.0, c.1)),
        None => None,
    }
}

/// The registries a document holds: a map from hosts to credentials, or a
/// sequence.
pub open spec fn registries_doc(d: json::Doc) -> Option<Seq<(Seq<char>, Seq<char>, Seq<char>)>> {
    match d {
        json::Doc::Object(m) => if forall|i: int|
            0 <= i < m.len() ==> (#[trigger] registry_member(m[i])) is Some {
            Some(Seq::new(m.len(), |i: int| registry_member(m[i])->0))
        } else {
            None
        },
        json::Doc::Array(a) => if forall|i: int|
            0 <= i < a.len() ==> (#[trigger] registry_item(a[i])) is Some {
            Some(Seq::new(a.len(), |i: int| registry_item(a[i])->0))
        } else {
            None
        },
        _ => None,
    }
}

/// The views of a list of registries.
pub open spec fn registries_view(v: Seq<RegistryConfig>) -> Seq<
    (Seq<char>, Seq<char>, Seq<char>),
> {
    v.map_values(|r: RegistryConfig| (r.name@, r.username@, r.password@))
}

/// Reads a text member that may be absent.
pub(crate) fn read_text_member(m: &Vec<(String, Json)>, k: &str) -> (r: Option<String>)
    ensures
        match r {
            Some(s) => text_member(json::members(m@), k@) == Some(s@),
            None => text_member(json::members(m@), k@) is None,
        },
{
    let (i, found) = json::place(m, k);
    if !found {
        return Some(String::new());
    }
    match &m[i].1 {
        Json::Str(s) => Some(s.clone()),
        _ => None,
    }
}

/// Reads the credentials for one registry.
fn read_credentials(d: &Json) -> (r: Option<(String, String)>)
    ensures
        match r {
            Some(c) => credentials(json::doc(*d)) == Some((c.0@, c.1@)),
            None => credentials(json::doc(*d)) is None,
        },
{
    match d {
        Json::Object(m) => {
            proof {
                json::lemma_doc_object(*m);
            }
            match (read_text_member(m, "username"), read_text_member(m, "password")) {
                (Some(u), Some(p)) => Some((u, p)),
                _ => None,
            }
        },
        _ => None,
    }
}

/// Reads one element of the sequence form.
fn read_registry_item(d: &Json) -> (r: Option<RegistryConfig>)
    ensures
        match r {
            Some(c) => registry_item(json::doc(*d)) == Some((c.name@, c.username@, c.password@)),
            None => registry_item(json::doc(*d)) is None,
        },
{
    match d {
        Json::Object(m) => {
            proof {
                json::lemma_doc_object(*m);
            }
            match (read_text_member(m, "name"), read_credentials(d)) {
                (Some(name), Some((username, password))) => Some(
                    RegistryConfig { name, username, password },
                ),
                _ => None,
            }
        },
        _ => None,
    }
}

/// Reads `docker.registries` in either of its shapes.
pub fn registries_from(d: &Json) -> (r: Option<Vec<RegistryConfig>>)
    ensures
        match r {
            Some(v) => registries_doc(json::doc(*d)) == Some(registries_view(v@)),
            None => registries_doc(json::doc(*d)) is None,
        },
{
    let mut out: Vec<RegistryConfig> = Vec::new();
    match d {
        Json::Object(m) => {
            let ghost all = json::members(m@);
            proof {
                json::lemma_doc_object(*m);
            }
            let mut i: usize = 0;
            while i < m.len()
                invariant
                    i <= m.len(),
                    all == json::members(m@),
                    json::doc(*d) == json::Doc::Object(all),
                    out@.len() == i,
                    forall|k: int|
                        0 <= k < i ==> (#[trigger] registry_member(all[k])) == Some(
                            registries_view(out@)[k],
                        ),
                decreases m.len() - i,
            {
                let ghost before = out@;
                assert(all[i as int] == (m@[i as int].0@, json::doc(m@[i as int].1)));
                match read_credentials(&m[i].1) {
                    Some((username, password)) => {
                        out.push(RegistryConfig { name: m[i].0.clone(), username, password });
                    },
                    None => {
                        assert(registry_member(all[i as int]) is None);
                        return None;
                    },
                }
                assert(registries_view(out@) =~= registries_view(before).push(
                    registry_member(all[i as int])->0,
                ));
                i = i + 1;
            }
            assert(registries_view(out@) =~= Seq::new(
                all.len(),
                |k: int| registry_member(all[k])->0,
            ));
            Some(out)
        },
        Json::Array(a) => {
            let ghost all = json::docs(a@);
            proof {
                json::lemma_doc_array(*a);
            }
            let mut i: usize = 0;
            while i < a.len()
                invariant
                    i <= a.len(),
                    all == json::docs(a@),
                    json::doc(*d) == json::Doc::Array(all),
                    out@.len() == i,
                    forall|k: int|
                        0 <= k < i ==> (#[trigger] registry_item(all[k])) == Some(
                            registries_view(out@)[k],
                        ),
                decreases a.len() - i,
            {
                let ghost before = out@;
                assert(all[i as int] == json::doc(a@[i as int]));
                match read_registry_item(&a[i]) {
                    Some(x) => {
                        out.push(x);
                    },
                    None => {
                        assert(registry_item(all[i as int]) is None);
                        return None;
                    },
                }
                assert(registries_view(out@) =~= registries_view(before).push(
                    registry_item(all[i as int])->0,
                ));
                i = i + 1;
            }
            assert(registries_view(out@) =~= Seq::new(
                all.len(),
                |k: int| registry_item(all[k])->0,
            ));
            Some(out)
        },
        _ => None,
    }
}

/// Factors in ascending order of memory, with one more put behind those of at
/// most its memory.
pub open spec fn insert_multiplier(v: Seq<(int, Seq<char>)>, m: (int, Seq<char>)) -> Seq<
    (int, Seq<char>),
>
    decreases v.len(),
{
    if v.len() == 0 || v.last().0 <= m.0 {
        v.push(m)
    } else {
        insert_multiplier(v.drop_last(), m).push(v.last())
    }
}

/// Factors in ascending order of memory, equal ones in the order given.
pub open spec fn sorted_multipliers(v: Seq<(int, Seq<char>)>) -> Seq<(int, Seq<char>)>
    decreases v.len(),
{
    if v.len() == 0 {
        v
    } else {
        insert_multiplier(sorted_multipliers(v.drop_last()), v.last())
    }
}

pub open spec fn is_sorted(v: Seq<(int, Seq<char>)>) -> bool {
    forall|i: int, j: int| 0 <= i < j < v.len() ==> (#[trigger] v[i]).0 <= (#[trigger] v[j]).0
}

proof fn lemma_insert_multiplier(v: Seq<(int, Seq<char>)>, m: (int, Seq<char>))
    requires
        is_sorted(v),
    ensures
        is_sorted(insert_multiplier(v, m)),
        insert_multiplier(v, m).to_multiset() == v.to_multiset().insert(m),
        insert_multiplier(v, m).len() == v.len() + 1,
        forall|i: int|
            0 <= i < insert_multiplier(v, m).len() ==> (#[trigger] insert_multiplier(v, m)[i]).0
                <= m.0 || (v.len() > 0 && insert_multiplier(v, m)[i].0 <= v.last().0),
    decreases v.len(),
{
    broadcast use vstd::seq_lib::group_to_multiset_ensures;

    if v.len() > 0 && v.last().0 > m.0 {
        let head = v.drop_last();
        lemma_insert_multiplier(head, m);
        let r = insert_multiplier(head, m);
        assert forall|i: int| 0 <= i < r.len() implies (#[trigger] r[i]).0 <= v.last().0 by {
            if !(r[i].0 <= m.0) {
                assert(head.last().0 <= v.last().0);
            }
        }
        assert(v =~= head.push(v.last()));
    }
}

/// Sorting keeps the factors and puts them in order.
pub proof fn law_sorted_multipliers(v: Seq<(int, Seq<char>)>)
    ensures
        is_sorted(sorted_multipliers(v)),
        sorted_multipliers(v).to_multiset() == v.to_multiset(),
    decreases v.len(),
{
    broadcast use vstd::seq_lib::group_to_multiset_ensures;

    if v.len() > 0 {
        law_sorted_multipliers(v.drop_last());
        lemma_insert_multiplier(sorted_multipliers(v.drop_last()), v.last());
        assert(v =~= v.drop_last().push(v.last()));
    }
}

/// The factors in the order they are written: by memory.
pub fn multipliers_to_write(v: &Vec<Multiplier>) -> (r: Vec<Multiplier>)
    ensures
        multipliers_view(r@) == sorted_multipliers(multipliers_view(v@)),
{
    let ghost all = multipliers_view(v@);
    let mut out: Vec<Multiplier> = Vec::new();
    let mut i: usize = 0;
    assert(multipliers_view(out@) =~= sorted_multipliers(all.take(0)));
    while i < v.len()
        invariant
            i <= v.len(),
            all == multipliers_view(v@),
            multipliers_view(out@) == sorted_multipliers(all.take(i as int)),
        decreases v.len() - i,
    {
        assert(all.take(i + 1).drop_last() =~= all.take(i as int));
        assert(all.take(i + 1).last() == all[i as int]);
        let m = Multiplier { memory: v[i].memory, overhead: v[i].overhead.clone() };
        let ghost sorted = multipliers_view(out@);
        let mut at: usize = out.len();
        assert(sorted.take(at as int) =~= sorted);
        assert(sorted.skip(at as int) =~= Seq::empty());
        assert(insert_multiplier(sorted, all[i as int]) =~= insert_multiplier(
            sorted.take(at as int),
            all[i as int],
        ) + sorted.skip(at as int));
        while at > 0 && out[at - 1].memory > m.memory
            invariant
                at <= out.len(),
                sorted == multipliers_view(out@),
                insert_multiplier(sorted, (m.memory as int, m.overhead@)) == insert_multiplier(
                    sorted.take(at as int),
                    (m.memory as int, m.overhead@),
                ) + sorted.skip(at as int),
            decreases at,
        {
            let ghost head = sorted.take(at as int);
            assert(head.last() == sorted[at - 1]);
            assert(head.drop_last() =~= sorted.take(at - 1));
            assert(insert_multiplier(head, (m.memory as int, m.overhead@)) + sorted.skip(at as int)
                =~= insert_multiplier(sorted.take(at - 1), (m.memory as int, m.overhead@))
                + sorted.skip(at - 1));
            at = at - 1;
        }
        proof {
            if at > 0 {
                assert(sorted.take(at as int).last() == sorted[at - 1]);
            }
            assert(insert_multiplier(sorted.take(at as int), (m.memory as int, m.overhead@))
                =~= sorted.take(at as int).push((m.memory as int, m.overhead@)));
        }
        out.insert(at, m);
        assert(multipliers_view(out@) =~= sorted.take(at as int).push(
            (m.memory as int, m.overhead@),
        ) + sorted.skip(at as int));
        i = i + 1;
    }
    assert(all.take(i as int) =~= all);
    out
}

/// Directories are those that are set, or below the root.
pub proof fn law_directories(c: &Config)
    ensures
        c.system.tmp_directory@.len() > 0 ==> c.tmp_dir_text() == c.system.tmp_directory@,
        c.system.tmp_directory@.len() == 0 ==> c.tmp_dir_text() == "/tmp/pterodactyl"@,
        c.system.log_directory@.len() > 0 ==> c.log_dir_text() == c.system.log_directory@,
        c.system.log_directory@.len() == 0 ==> c.log_dir_text() == paths::join(
            c.system.root_directory@,
            "logs"@,
        ),
        c.system.archive_directory@.len() > 0 ==> c.archive_dir_text()
            == c.system.archive_directory@,
        c.system.archive_directory@.len() == 0 ==> c.archive_dir_text() == paths::join(
            c.system.root_directory@,
            "archives"@,
        ),
        c.system.backup_directory@.len() > 0 ==> c.backup_dir_text() == c.system.backup_directory@,
        c.system.backup_directory@.len() == 0 ==> c.backup_dir_text() == paths::join(
            c.system.root_directory@,
            "backups"@,
        ),
{
}

proof fn lemma_name_prefix(name: Seq<char>, rest: Seq<char>)
    requires
        forall|i: int| 0 <= i < name.len() ==> is_name_char(#[trigger] name[i]),
        rest.len() == 0 || !is_name_char(rest[0]),
    ensures
        name_prefix(name + rest) == name,
    decreases name.len(),
{
    let s = name + rest;
    if name.len() == 0 {
        assert(s =~= rest);
        assert(name_prefix(s) =~= name);
    } else {
        assert(s[0] == name[0]);
        assert(s.skip(1) =~= name.skip(1) + rest);
        assert forall|i: int| 0 <= i < name.skip(1).len() implies is_name_char(
            #[trigger] name.skip(1)[i],
        ) by {
            assert(name.skip(1)[i] == name[i + 1]);
        }
        lemma_name_prefix(name.skip(1), rest);
        assert(name_prefix(s) =~= name);
    }
}

/// A value is taken from a file behind `file://`, from a variable behind `$`, with or
/// without braces; any other stands for itself.
pub proof fn law_where_values_come_from(
    name: Seq<char>,
    rest: Seq<char>,
    path: Seq<char>,
    literal: Seq<char>,
    e: Expansion,
)
    requires
        name.len() > 0,
        forall|i: int| 0 <= i < name.len() ==> is_name_char(#[trigger] name[i]),
        rest.len() == 0 || !is_name_char(rest[0]),
        literal.len() > 0 ==> literal[0] != '$',
        !("file://"@).is_prefix_of(literal),
    ensures
        expansion_is("file://"@ + path, e) <==> (e matches Expansion::File(p) && p@ == path),
        expansion_is(seq!['$'] + name + rest, e) <==> (e matches Expansion::Variable(n) && n@
            == name),
        expansion_is(seq!['$', '{'] + name + seq!['}'] + rest, e) <==> (
        e matches Expansion::Variable(n) && n@ == name),
        expansion_is(literal, e) <==> e is Literal,
{
    let tag = "file://"@;
    reveal_strlit("file://");
    let f = tag + path;
    assert(tag =~= f.subrange(0, tag.len() as int));
    assert(f.skip(tag.len() as int) =~= path);
    let a = seq!['$'] + name + rest;
    assert(a.skip(1) =~= name + rest);
    lemma_name_prefix(name, rest);
    assert((name + rest)[0] == name[0]);
    assert(is_name_char(name[0]));
    if tag.is_prefix_of(a) {
        assert(tag[0] == a.subrange(0, tag.len() as int)[0]);
    }
    let b = seq!['$', '{'] + name + seq!['}'] + rest;
    assert(b.skip(1).skip(1) =~= name + seq!['}'] + rest);
    assert forall|i: int| 0 <= i < name.len() implies #[trigger] name[i] != '}' by {
        assert(is_name_char(name[i]));
    }
    text::law_first(name, '}', rest);
    assert((name + seq!['}'] + rest).take(name.len() as int) =~= name);
    if tag.is_prefix_of(b) {
        assert(tag[0] == b.subrange(0, tag.len() as int)[0]);
    }
}

/// What is read from a file is trimmed, what a variable holds is not; a file that
/// cannot be read leaves the value as it is, a variable that is not set leaves it empty.
pub proof fn law_values_are_expanded(input: Seq<char>, found: Seq<char>, s: String)
    ensures
        expanded(input, Expansion::File(s), Some(found)) == text::trim(found),
        expanded(input, Expansion::File(s), None) == text::trim(input),
        expanded(input, Expansion::Variable(s), Some(found)) == found,
        expanded(input, Expansion::Variable(s), None).len() == 0,
        expanded(input, Expansion::Literal, None) == text::trim(input),
{
}

/// Factors are a map from limits to factors, or a list of pairs; one that is neither,
/// or has a member that is no number, is refused.
pub proof fn law_factors_are_read(memory: i64, factor: Seq<char>, k: Seq<char>, d: json::Doc)
    ensures
        multipliers_doc(
            json::Doc::Object(
                seq![(numbers::decimal_int(memory as int), json::Doc::Number(factor))],
            ),
        ) == Some(seq![(memory as int, factor)]),
        !(d is Number) ==> multipliers_doc(json::Doc::Object(seq![(k, d)])) is None,
        numbers::parse_signed(k) is None ==> multipliers_doc(json::Doc::Object(seq![(k, d)])) is None,
        !(d is Object) && !(d is Array) ==> multipliers_doc(d) is None,
        !(d is Object) ==> multipliers_doc(json::Doc::Array(seq![d])) is None,
{
    numbers::law_signed_reads_back(memory);
    let m = seq![(numbers::decimal_int(memory as int), json::Doc::Number(factor))];
    assert(multiplier_member(m[0]) == Some((memory as int, factor)));
    assert forall|i: int| 0 <= i < m.len() implies (#[trigger] multiplier_member(m[i])) is Some by {
        assert(i == 0);
    }
    assert(multipliers_doc(json::Doc::Object(m))->0 =~= seq![(memory as int, factor)]);
    let n = seq![(k, d)];
    if !(d is Number) || numbers::parse_signed(k) is None {
        assert(multiplier_member(n[0]) is None);
    }
    if !(d is Object) {
        let a = seq![d];
        assert(multiplier_item(a[0]) is None);
    }
}

/// The users and groups that a container knows.
pub proof fn law_files_of_containers(uid: i64, gid: i64, log: Seq<char>)
    ensures
        group_text(gid) == "root:x:0:\ncontainer:x:"@ + numbers::decimal_int(gid as int)
            + ":\nnogroup:x:65534:\n"@,
        passwd_text(uid, gid) == "root:x:0:0::/root:/bin/sh\ncontainer:x:"@ + numbers::decimal_int(
            uid as int,
        ) + ":"@ + numbers::decimal_int(gid as int)
            + "::/home/container:/bin/sh\nnobody:x:65534:65534::/var/empty:/bin/sh\n"@,
        log.is_prefix_of(logrotate_text(log)),
{
    assert(log =~= logrotate_text(log).subrange(0, log.len() as int));
}

/// The switch is given under one of its two names, or is off; both at once are refused,
/// and so is anything but a boolean.
pub proof fn law_switches(m: Seq<(Seq<char>, json::Doc)>, b: bool, d: json::Doc)
    ensures
        json::lookup(m, "override"@) is None && json::lookup(m, "override_multiplier"@) is None
            ==> override_doc(json::Doc::Object(m)) == Some(false),
        json::lookup(m, "override"@) == Some(json::Doc::Bool(b)) && json::lookup(
            m,
            "override_multiplier"@,
        ) is None ==> override_doc(json::Doc::Object(m)) == Some(b),
        json::lookup(m, "override"@) is None && json::lookup(m, "override_multiplier"@) == Some(
            json::Doc::Bool(b),
        ) ==> override_doc(json::Doc::Object(m)) == Some(b),
        json::lookup(m, "override"@) is Some && json::lookup(m, "override_multiplier"@) is Some
            ==> override_doc(json::Doc::Object(m)) is None,
        json::lookup(m, "override"@) == Some(d) && !(d is Bool) ==> override_doc(
            json::Doc::Object(m),
        ) is None,
{
}

/// Registries are a map from hosts to credentials, or a list of them with names; what
/// is missing is empty, and what is no text is refused.
pub proof fn law_registries_are_read(
    host: Seq<char>,
    m: Seq<(Seq<char>, json::Doc)>,
    user: Seq<char>,
    password: Seq<char>,
    d: json::Doc,
)
    requires
        json::lookup(m, "username"@) == Some(json::Doc::Str(user)),
        json::lookup(m, "password"@) == Some(json::Doc::Str(password)),
    ensures
        registries_doc(json::Doc::Object(seq![(host, json::Doc::Object(m))])) == Some(
            seq![(host, user, password)],
        ),
        json::lookup(m, "name"@) == Some(json::Doc::Str(host)) ==> registries_doc(
            json::Doc::Array(seq![json::Doc::Object(m)]),
        ) == Some(seq![(host, user, password)]),
        !(d is Object) ==> registries_doc(json::Doc::Object(seq![(host, d)])) is None,
        !(d is Object) && !(d is Array) ==> registries_doc(d) is None,
        json::lookup(m, host) is None ==> text_member(m, host) == Some(Seq::<char>::empty()),
        json::lookup(m, host) == Some(d) && !(d is Str) ==> text_member(m, host) is None,
{
    let e = seq![(host, json::Doc::Object(m))];
    assert(registry_member(e[0]) == Some((host, user, password)));
    assert forall|i: int| 0 <= i < e.len() implies (#[trigger] registry_member(e[i])) is Some by {
        assert(i == 0);
    }
    assert(registries_doc(json::Doc::Object(e))->0 =~= seq![(host, user, password)]);
    let a = seq![json::Doc::Object(m)];
    if json::lookup(m, "name"@) == Some(json::Doc::Str(host)) {
        assert(registry_item(a[0]) == Some((host, user, password)));
        assert forall|i: int| 0 <= i < a.len() implies (#[trigger] registry_item(a[i])) is Some by {
            assert(i == 0);
        }
        assert(registries_doc(json::Doc::Array(a))->0 =~= seq![(host, user, password)]);
    }
    if !(d is Object) {
        let f = seq![(host, d)];
        assert(registry_member(f[0]) is None);
    }
}

/// An element of a list of factors gives its memory and its factor; what is missing is
/// zero.
pub proof fn law_factors_of_lists(m: Seq<(Seq<char>, json::Doc)>, memory: i64, factor: Seq<char>)
    ensures
        json::lookup(m, "memory"@) == Some(json::Doc::Number(numbers::decimal_int(memory as int)))
            && json::lookup(m, "overhead"@) == Some(json::Doc::Number(factor)) ==> multiplier_item(
            json::Doc::Object(m),
        ) == Some((memory as int, factor)),
        json::lookup(m, "memory"@) is None && json::lookup(m, "overhead"@) is None
            ==> multiplier_item(json::Doc::Object(m)) == Some((0int, "0"@)),
{
    numbers::law_signed_reads_back(memory);
}

} // verus!
