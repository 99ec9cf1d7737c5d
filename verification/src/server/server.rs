//! One server: its state, what it may do, and how it is run.
use vstd::prelude::*;
use crate::config::{Config, UserConfig};
use crate::error::{AppError, AppResult};
use crate::models::configuration::{
    OutputLineMatcher, PatternConfig, ProcessConfig, ProcessStartup, ProcessStop, ServerConfig,
};
use crate::models::resource;
use crate::models::resource::{NetworkStats, ResourceUsage};
use crate::remote::types::RawServerData;
use crate::server::console::{Console, ConsoleView};
use crate::server::console;
use crate::server::events;
use crate::server::events::{Frame, ServerEvent};
use crate::server::files::Filesystem;
use crate::text;

verus! {

/// How many clients may listen to one server.
pub const MAX_WEBSOCKETS_PER_SERVER: usize = 30;

/// The state of a server, as the panel knows it.
#[derive(Debug, Clone, Copy, PartialEq, Eq, Structural)]
pub enum ServerState {
    Offline,
    Starting,
    Running,
    Stopping,
}

impl ServerState {
    /// The name of the state.
    pub open spec fn text(self) -> Seq<char> {
        match self {
            ServerState::Offline => "offline"@,
            ServerState::Starting => "starting"@,
            ServerState::Running => "running"@,
            ServerState::Stopping => "stopping"@,
        }
    }

    /// The name of the state.
    pub fn as_str(self) -> (r: &'static str)
        ensures
            r@ == self.text(),
    {
        match self {
            ServerState::Offline => "offline",
            ServerState::Starting => "starting",
            ServerState::Running => "running",
            ServerState::Stopping => "stopping",
        }
    }
}

/// One server of this node. Times are in milliseconds.
#[derive(Debug)]
pub struct Server {
    pub uuid: String,
    pub name: String,
    pub state: ServerState,
    pub config: ServerConfig,
    pub process_config: ProcessConfig,
    pub suspended: bool,
    pub installing: bool,
    /// a backup is being restored
    pub restoring: bool,
    /// the next exit of the process is wanted
    pub intentional_stop: bool,
    /// the server is being moved to another node
    pub transferring: bool,
    pub fs: Filesystem,
    pub console: Console,
    pub usage: ResourceUsage,
    pub started_at: Option<u64>,
    pub stats_running: bool,
    pub ws_connections: usize,
    pub last_crash: Option<u64>,
    /// what the files took when they were last counted
    pub disk_used: u64,
    /// when they were last counted
    pub disk_checked: u64,
    /// what listeners have not been told yet
    pub outbox: Vec<ServerEvent>,
}

/// What the panel is told of a server.
#[derive(Debug)]
pub struct ApiResponse<'a> {
    pub state: &'static str,
    pub is_suspended: bool,
    pub utilization: ResourceUsage,
    pub configuration: &'a ServerConfig,
}

/// Whether nothing is said of how a process is run.
pub open spec fn is_unknown(p: ProcessConfig) -> bool {
    &&& p.startup.done@ == Seq::<OutputLineMatcher>::empty()
    &&& p.startup.user_interaction@ == Seq::<String>::empty()
    &&& !p.startup.strip_ansi
    &&& p.stop.kind@ == ""@
    &&& p.stop.value@ == ""@
    &&& p.configs@ == Seq::<PatternConfig>::empty()
}

/// How a process is run when the panel says nothing of it.
pub fn unknown_process() -> (r: ProcessConfig)
    ensures
        is_unknown(r),
{
    ProcessConfig {
        startup: ProcessStartup {
            done: Vec::new(),
            user_interaction: Vec::new(),
            strip_ansi: false,
        },
        stop: ProcessStop { kind: "".to_owned(), value: "".to_owned() },
        configs: Vec::new(),
    }
}

/// Whom the files of a server belong to.
pub open spec fn owner_of(u: UserConfig) -> (i64, i64) {
    if u.rootless.enabled {
        (u.rootless.container_uid, u.rootless.container_gid)
    } else if u.uid != 0 && u.gid != 0 {
        (u.uid, u.gid)
    } else {
        (988, 988)
    }
}

/// Whom the files of a server belong to: user and group.
pub fn owner(u: &UserConfig) -> (r: (i64, i64))
    ensures
        r == owner_of(*u),
{
    if u.rootless.enabled {
        (u.rootless.container_uid, u.rootless.container_gid)
    } else if u.uid != 0 && u.gid != 0 {
        (u.uid, u.gid)
    } else {
        (988, 988)
    }
}

/// Whether a server with a disk limit in MB has room left.
pub open spec fn within(limit: i64, used: u64) -> bool {
    limit <= 0 || used <= limit * 1048576
}

/// What docker says of the use of a container.
#[derive(Debug)]
pub struct StatsFacts {
    /// received and sent bytes of each interface
    pub networks: Vec<(u64, u64)>,
    pub memory: u64,
    pub memory_limit: u64,
    pub total_inactive_file: u64,
    pub inactive_file: u64,
    /// the share of the processor, as a decimal text
    pub cpu: String,
}

/// Where the size of the files comes from.
#[derive(Debug, Clone, Copy, PartialEq, Eq, Structural)]
pub enum DiskSource {
    /// they are not counted at all
    Unchecked,
    /// they were counted lately
    Known(u64),
    /// they have to be counted
    Count,
}

impl Server {
    /// What listeners have not been told yet.
    pub open spec fn said(&self) -> Seq<Frame> {
        events::frames(self.outbox@)
    }

    /// Whether the process is there or on its way.
    pub open spec fn running(&self) -> bool {
        self.state == ServerState::Running || self.state == ServerState::Starting
    }

    /// Only the messages to listeners differ.
    pub open spec fn same_but_outbox(&self, other: Server) -> bool {
        *self == (Server { outbox: self.outbox, ..other })
    }

    /// A server as the panel describes it, which does not run yet.
    pub fn new(data: RawServerData, log_count: usize, data_dir: String, now: u64) -> (r: Self)
        ensures
            r.uuid@ == data.uuid@,
            r.name@ == data.settings.meta.name@,
            r.state == ServerState::Offline,
            r.config == data.settings,
            data.process_configuration matches Some(p) ==> r.process_config == p,
            data.process_configuration is None ==> is_unknown(r.process_config),
            !r.suspended && !r.installing && !r.restoring && !r.intentional_stop && !r.transferring,
            r.fs.base() == data_dir@,
            r.fs.deny() == text::texts(data.settings.egg.file_denylist@),
            r.fs.limit() == 0,
            r.fs.owner() == (-1i32, -1i32),
            r.console@ == (ConsoleView {
                lines: Seq::empty(),
                limit: log_count,
                count: 0,
                last: now,
                struck: false,
            }),
            r.usage.is_idle(0),
            r.started_at is None && r.last_crash is None && !r.stats_running,
            r.ws_connections == 0,
            r.disk_used == 0 && r.disk_checked == now,
            r.outbox@.len() == 0,
    {
        let denylist = text::copy_texts(&data.settings.egg.file_denylist);
        let name = data.settings.meta.name.clone();
        Server {
            uuid: data.uuid,
            name,
            state: ServerState::Offline,
            config: data.settings,
            process_config: match data.process_configuration {
                Some(p) => p,
                None => unknown_process(),
            },
            suspended: false,
            installing: false,
            restoring: false,
            intentional_stop: false,
            transferring: false,
            fs: Filesystem::new(data_dir, denylist),
            console: Console::new(log_count, now),
            usage: ResourceUsage::offline(),
            started_at: None,
            stats_running: false,
            ws_connections: 0,
            last_crash: None,
            disk_used: 0,
            disk_checked: now,
            outbox: Vec::new(),
        }
    }

    /// Tells all listeners.
    pub fn publish(&mut self, event: ServerEvent)
        ensures
            final(self).same_but_outbox(*old(self)),
            final(self).said() == old(self).said().push(event.frame()),
    {
        let ghost before = self.outbox@;
        self.outbox.push(event);
        assert(events::frames(self.outbox@) =~= events::frames(before).push(event.frame()));
    }

    /// Takes what listeners have not been told yet.
    pub fn take_events(&mut self) -> (r: Vec<ServerEvent>)
        ensures
            r@ == old(self).outbox@,
            *final(self) == (Server { outbox: final(self).outbox, ..*old(self) }),
            final(self).outbox@.len() == 0,
    {
        let mut out: Vec<ServerEvent> = Vec::new();
        std::mem::swap(&mut out, &mut self.outbox);
        out
    }

    /// Goes to a state, and tells all listeners.
    pub fn set_state(&mut self, state: ServerState)
        ensures
            final(self).same_but_outbox((Server { state, ..*old(self) })),
            final(self).said() == old(self).said().push(events::status_frame(state.text())),
    {
        self.state = state;
        self.publish(ServerEvent::Status(state.as_str().to_owned()));
    }

    pub fn query_state(&self) -> (r: ServerState)
        ensures
            r == self.state,
    {
        self.state
    }

    pub fn is_running(&self) -> (r: bool)
        ensures
            r == self.running(),
    {
        match self.state {
            ServerState::Running => true,
            ServerState::Starting => true,
            _ => false,
        }
    }

    pub fn is_installing(&self) -> (r: bool)
        ensures
            r == self.installing,
    {
        self.installing
    }

    pub fn is_transferring(&self) -> (r: bool)
        ensures
            r == self.transferring,
    {
        self.transferring
    }

    pub fn set_transferring(&mut self, value: bool)
        ensures
            *final(self) == (Server { transferring: value, ..*old(self) }),
    {
        self.transferring = value;
    }

    pub fn is_restoring(&self) -> (r: bool)
        ensures
            r == self.restoring,
    {
        self.restoring
    }

    pub fn set_restoring(&mut self, value: bool)
        ensures
            *final(self) == (Server { restoring: value, ..*old(self) }),
    {
        self.restoring = value;
    }

    /// Tells all listeners something on behalf of the daemon.
    pub fn publish_daemon_message(&mut self, msg: String)
        ensures
            final(self).same_but_outbox(*old(self)),
            final(self).said() == old(self).said().push(events::message_frame(msg@)),
    {
        self.publish(ServerEvent::DaemonMessage(msg));
    }

    // -- console -----------------------------------------------------------
    /// Takes what the container printed: keeps the lines, and tells listeners.
    pub fn push_console_bytes(&mut self, bytes: &[u8], daemon: &Config, now: u64)
        ensures
            ({
                let (after, out) = console::fed_all(
                    old(self).console@,
                    console::console_lines(bytes@),
                    daemon.throttles,
                    now,
                );
                &&& final(self).console@ == after
                &&& final(self).said() == old(self).said() + out.map_values(
                    |l: Seq<char>| events::console_frame(l),
                )
            }),
            *final(self) == (Server {
                outbox: final(self).outbox,
                console: final(self).console,
                ..*old(self)
            }),
    {
        let lines = self.console.push_console_bytes(bytes, &daemon.throttles, now);
        let ghost all = text::texts(lines@);
        let ghost after = self.console;
        let ghost shown = |l: Seq<char>| events::console_frame(l);
        let mut i: usize = 0;
        assert(all.take(0).map_values(shown) =~= Seq::empty());
        assert(self.said() + all.take(0).map_values(shown) =~= self.said());
        while i < lines.len()
            invariant
                i <= lines.len(),
                all == text::texts(lines@),
                shown == (|l: Seq<char>| events::console_frame(l)),
                self.said() == old(self).said() + all.take(i as int).map_values(shown),
                *self == (Server { outbox: self.outbox, console: after, ..*old(self) }),
            decreases lines.len() - i,
        {
            let ghost before = self.said();
            self.publish(ServerEvent::ConsoleOutput(lines[i].clone()));
            proof {
                assert(all.take(i + 1).map_values(shown) =~= all.take(i as int).map_values(
                    shown,
                ).push(events::console_frame(all[i as int])));
                assert(self.said() =~= old(self).said() + all.take(i + 1).map_values(shown));
            }
            i = i + 1;
        }
        assert(all.take(i as int) =~= all);
    }

    pub fn recent_logs(&self) -> (r: Vec<String>)
        ensures
            text::texts(r@) == self.console@.lines,
    {
        self.console.recent_logs()
    }

    /// Whether a command can be handed to the process. `attached` tells whether
    /// its console is there.
    pub fn send_command(&self, attached: bool) -> (r: AppResult<()>)
        ensures
            match r {
                Ok(_) => self.running() && attached,
                Err(AppError::BadGateway(m)) => !self.running() && m@
                    == "Cannot send commands to a stopped server instance."@,
                Err(e) => self.running() && !attached && crate::error::is_bad_request(
                    e,
                    "console stream is not attached"@,
                ),
            },
    {
        if !self.is_running() {
            return Err(
                AppError::BadGateway(
                    "Cannot send commands to a stopped server instance.".to_owned(),
                ),
            );
        }
        if attached {
            Ok(())
        } else {
            Err(AppError::BadRequest("console stream is not attached".to_owned()))
        }
    }

    // -- resource usage ----------------------------------------------------
    pub fn usage(&self) -> (r: ResourceUsage)
        ensures
            r.equals(self.usage),
    {
        self.usage.copy()
    }

    /// What the disk usage is taken from at `now`, when it is counted at most
    /// once in `interval` seconds. An interval of 0 switches counting off.
    pub open spec fn disk_source(&self, interval: u64, now: u64) -> DiskSource {
        if interval == 0 {
            DiskSource::Unchecked
        } else if console::since(self.disk_checked, now) / 1000 >= interval {
            DiskSource::Count
        } else {
            DiskSource::Known(self.disk_used)
        }
    }

    /// Where the disk usage comes from.
    pub fn disk_usage_cached(&self, interval: u64, now: u64) -> (r: DiskSource)
        ensures
            r == self.disk_source(interval, now),
    {
        if interval == 0 {
            return DiskSource::Unchecked;
        }
        let elapsed: u64 = if now >= self.disk_checked {
            now - self.disk_checked
        } else {
            0
        };
        if elapsed / 1000 >= interval {
            DiskSource::Count
        } else {
            DiskSource::Known(self.disk_used)
        }
    }

    /// Remembers what was counted.
    pub fn disk_counted(&mut self, bytes: u64, now: u64)
        ensures
            *final(self) == (Server { disk_used: bytes, disk_checked: now, ..*old(self) }),
    {
        self.disk_used = bytes;
        self.disk_checked = now;
    }

    /// Whether there is room when the files take `used` bytes. A limit that is
    /// not positive is none.
    pub fn has_space_available(&self, used: u64) -> (r: bool)
        ensures
            r == within(self.config.build.disk_space, used),
    {
        let limit = self.config.build.disk_space;
        limit <= 0 || used as i128 <= limit as i128 * 1048576
    }

    /// Whether `disk_bytes` are more than the server may have.
    pub fn over_disk_limit(&self, disk_bytes: u64) -> (r: bool)
        ensures
            r == !within(self.config.build.disk_space, disk_bytes),
    {
        !self.has_space_available(disk_bytes)
    }

    /// What docker says, as the usage of the server. There is none when the
    /// traffic cannot be counted.
    pub fn snapshot_usage(&mut self, facts: &StatsFacts, disk: u64, now: u64) -> (r: Option<
        ResourceUsage,
    >)
        ensures
            match r {
                Some(u) => {
                    &&& final(self).usage.equals(u)
                    &&& *final(self) == (Server { usage: final(self).usage, ..*old(self) })
                    &&& u.network.rx_bytes == resource::received(facts.networks@)
                    &&& u.network.tx_bytes == resource::sent(facts.networks@)
                    &&& u.cpu_absolute@ == facts.cpu@
                    &&& u.memory_limit_bytes == facts.memory_limit
                    &&& u.memory_bytes == (if 0 < facts.total_inactive_file < facts.memory {
                        facts.memory - facts.total_inactive_file
                    } else if facts.inactive_file < facts.memory {
                        facts.memory - facts.inactive_file
                    } else {
                        facts.memory as int
                    })
                    &&& u.uptime == (match old(self).started_at {
                        Some(t) => console::since(t, now) / 1000,
                        None => 0,
                    })
                    &&& u.state@ == old(self).state.text()
                    &&& u.disk_bytes == disk
                },
                None => *final(self) == *old(self) && (resource::received(facts.networks@)
                    > u64::MAX || resource::sent(facts.networks@) > u64::MAX),
            },
    {
        let network = match NetworkStats::totals(facts.networks.as_slice()) {
            Some(n) => n,
            None => {
                return None;
            },
        };
        let uptime: u64 = match self.started_at {
            Some(t) => if now >= t {
                (now - t) / 1000
            } else {
                0
            },
            None => 0,
        };
        let usage = ResourceUsage {
            memory_bytes: resource::memory_in_use(
                facts.memory,
                facts.total_inactive_file,
                facts.inactive_file,
            ),
            memory_limit_bytes: facts.memory_limit,
            cpu_absolute: facts.cpu.clone(),
            network,
            uptime,
            state: self.state.as_str().to_owned(),
            disk_bytes: disk,
        };
        self.usage = usage.copy();
        Some(usage)
    }

    /// Whether a loop that samples the usage may begin: there is only one.
    pub fn start_stats_loop(&mut self) -> (r: bool)
        ensures
            r == !old(self).stats_running,
            *final(self) == (Server { stats_running: true, ..*old(self) }),
    {
        let first = !self.stats_running;
        self.stats_running = true;
        first
    }

    /// One turn of the loop: whether to take a sample. When the server does not
    /// run any more, the loop ends and listeners get an empty usage.
    pub fn stats_tick(&mut self, disk: u64) -> (r: bool)
        ensures
            r == old(self).running(),
            r ==> *final(self) == *old(self),
            !r ==> {
                &&& *final(self) == (Server {
                    stats_running: false,
                    usage: final(self).usage,
                    outbox: final(self).outbox,
                    ..*old(self)
                })
                &&& final(self).usage.is_idle(disk)
                &&& final(self).said() == old(self).said().push(
                    ("stats"@, seq![final(self).usage.json()]),
                )
            },
    {
        if self.is_running() {
            return true;
        }
        self.stats_running = false;
        let mut offline = ResourceUsage::offline();
        offline.disk_bytes = disk;
        self.usage = offline.copy();
        self.publish(ServerEvent::Stats(offline));
        false
    }

    /// Whether the server has to be stopped because its files take too much
    /// room. Listeners are told, and the stop counts as wanted. `fired` tells
    /// whether that already happened since the server was started.
    pub fn limit_disk(&mut self, disk_bytes: u64, fired: bool) -> (r: bool)
        ensures
            r == (!fired && !within(old(self).config.build.disk_space, disk_bytes)),
            !r ==> *final(self) == *old(self),
            r ==> {
                &&& final(self).same_but_outbox(
                    (Server {
                        intentional_stop: true,
                        state: ServerState::Stopping,
                        ..*old(self)
                    }),
                )
                &&& final(self).said() == old(self).said().push(
                    events::message_frame(
                        "Server is exceeding the assigned disk space limit, stopping process now."@,
                    ),
                ).push(events::status_frame("stopping"@))
            },
    {
        if fired || !self.over_disk_limit(disk_bytes) {
            return false;
        }
        self.publish_daemon_message(
            "Server is exceeding the assigned disk space limit, stopping process now.".to_owned(),
        );
        self.intentional_stop = true;
        self.set_state(ServerState::Stopping);
        true
    }
}

/// The names of the states.
pub proof fn law_state_names()
    ensures
        ServerState::Offline.text() == "offline"@,
        ServerState::Starting.text() == "starting"@,
        ServerState::Running.text() == "running"@,
        ServerState::Stopping.text() == "stopping"@,
{
}

/// Files belong to the user inside the container where the engine is rootless, else to
/// the configured user and group, and to 988 unless both are set.
pub proof fn law_owners(u: UserConfig)
    ensures
        u.rootless.enabled ==> owner_of(u) == (u.rootless.container_uid, u.rootless.container_gid),
        !u.rootless.enabled && u.uid != 0 && u.gid != 0 ==> owner_of(u) == (u.uid, u.gid),
        !u.rootless.enabled && (u.uid == 0 || u.gid == 0) ==> owner_of(u) == (988i64, 988i64),
{
}

/// A limit is counted in units of 2^20 bytes, and none is no limit.
pub proof fn law_room(limit: i64, used: u64)
    ensures
        limit <= 0 ==> within(limit, used),
        limit > 0 ==> (within(limit, used) <==> used <= limit * 1048576),
{
}

/// Files are counted once an interval, in seconds, is over; in between the last count
/// stands, and an interval of 0 asks for none.
pub proof fn law_files_are_counted_now_and_then(s: &Server, interval: u64, now: u64)
    requires
        s.disk_checked <= now,
    ensures
        s.disk_source(0, now) == DiskSource::Unchecked,
        interval > 0 && now - s.disk_checked >= interval * 1000 ==> s.disk_source(interval, now)
            == DiskSource::Count,
        interval > 0 && now - s.disk_checked < interval * 1000 ==> s.disk_source(interval, now)
            == DiskSource::Known(s.disk_used),
{
}

/// Two servers that differ in their messages alone are the same in all else.
pub proof fn law_same_but_outbox(a: &Server, b: Server)
    requires
        a.same_but_outbox(b),
    ensures
        a.state == b.state && a.config == b.config && a.suspended == b.suspended && a.installing
            == b.installing && a.transferring == b.transferring && a.restoring == b.restoring
            && a.started_at == b.started_at && a.last_crash == b.last_crash && a.intentional_stop
            == b.intentional_stop && a.disk_used == b.disk_used && a.disk_checked
            == b.disk_checked,
{
}

/// Nothing is said of how a process is run if there are neither lines that tell of its
/// start nor a way to stop it nor files to rewrite.
pub proof fn law_unknown_processes(p: ProcessConfig)
    requires
        is_unknown(p),
    ensures
        p.startup.done@.len() == 0 && p.startup.user_interaction@.len() == 0
            && !p.startup.strip_ansi,
        p.stop.kind@ == ""@ && p.stop.value@ == ""@,
        p.configs@.len() == 0,
{
}

} // verus!
