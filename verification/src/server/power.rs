//! How servers are started and stopped, and what happens when they crash.
use vstd::prelude::*;
use crate::config::Config;
use crate::error::{AppError, AppResult};
use crate::models::configuration::{
    bool_string, bool_text, ProcessConfig, ProcessStop, ServerConfig,
};
use crate::numbers;
use crate::server::console;
use crate::server::events;
use crate::server::events::ServerEvent;
use crate::server::server::{
    is_unknown, owner, owner_of, unknown_process, within, Server, ServerState,
};
use crate::text;

verus! {

// ---------------------------------------------------------------------------
// Who may act
// ---------------------------------------------------------------------------
/// Why a server may not be started or stopped now.
pub open spec fn power_refusal(s: &Server) -> Option<Seq<char>> {
    if s.installing {
        Some("server is currently installing"@)
    } else if s.transferring {
        Some("server is currently being transferred"@)
    } else if s.restoring {
        Some("server is currently restoring a backup"@)
    } else {
        None
    }
}

/// What follows an attempt to take the lock that serialises power actions.
#[derive(Debug)]
pub enum LockStep {
    /// the lock is taken
    Go,
    /// try again in a moment
    Retry,
    Refused(AppError),
}

/// What is refused when the lock cannot be had.
pub open spec fn lock_message(wait: u32) -> Seq<char> {
    if wait > 0 {
        "could not acquire lock on power action after "@ + numbers::decimal(wait as nat)
            + " seconds"@
    } else {
        "failed to acquire exclusive lock for power actions"@
    }
}

/// What follows an attempt to take the lock: `waited` milliseconds have gone by
/// of the `wait` seconds that the caller is ready to wait.
pub fn lock_step(wait: u32, acquired: bool, waited: u64) -> (r: LockStep)
    ensures
        match r {
            LockStep::Go => acquired,
            LockStep::Retry => !acquired && wait > 0 && waited < wait * 1000,
            LockStep::Refused(e) => !acquired && (wait == 0 || waited >= wait * 1000)
                && crate::error::is_conflict(e, lock_message(wait)),
        },
{
    if acquired {
        LockStep::Go
    } else if wait > 0 {
        if waited >= wait as u64 * 1000 {
            LockStep::Refused(
                AppError::Conflict(
                    text::cat3(
                        "could not acquire lock on power action after ",
                        numbers::decimal_u64(wait as u64).as_str(),
                        " seconds",
                    ),
                ),
            )
        } else {
            LockStep::Retry
        }
    } else {
        LockStep::Refused(
            AppError::Conflict("failed to acquire exclusive lock for power actions".to_owned()),
        )
    }
}

// ---------------------------------------------------------------------------
// Stopping
// ---------------------------------------------------------------------------
/// The upper case of a text (`str::to_uppercase`).
pub uninterp spec fn uppercase(s: Seq<char>) -> Seq<char>;

/// The upper case of a text (`str::to_uppercase`), which depends on the text
/// alone.
#[verifier::external_body]
fn to_uppercase(s: &str) -> (r: String)
    ensures
        r@ == uppercase(s@),
{
    s.to_uppercase()
}

/// How a process is asked to stop.
#[derive(Debug)]
pub enum StopPlan {
    /// send it a signal
    Signal(&'static str),
    /// write a line to its console
    Send(String),
    /// nothing is sent, only waited for
    Wait,
    /// leave it to docker
    Docker,
}

/// The signal for the name of one, in upper case.
pub open spec fn signal_named(upper: Seq<char>) -> Seq<char> {
    if upper == "SIGABRT"@ {
        "SIGABRT"@
    } else if upper == "SIGINT"@ || upper == "C"@ {
        "SIGINT"@
    } else if upper == "SIGTERM"@ {
        "SIGTERM"@
    } else {
        "SIGKILL"@
    }
}

/// The signal for the name of one, in upper case.
pub fn signal_for(upper: &str) -> (r: &'static str)
    ensures
        r@ == signal_named(upper@),
{
    if text::same(upper, "SIGABRT") {
        "SIGABRT"
    } else if text::same(upper, "SIGINT") || text::same(upper, "C") {
        "SIGINT"
    } else if text::same(upper, "SIGTERM") {
        "SIGTERM"
    } else {
        "SIGKILL"
    }
}

/// How a process is asked to stop. `attached` tells whether its console is
/// there.
pub fn stop_plan(stop: &ProcessStop, attached: bool) -> (r: StopPlan)
    ensures
        if stop.kind@ == "signal"@ {
            r matches StopPlan::Signal(s) && s@ == signal_named(uppercase(stop.value@))
        } else if stop.kind@ == "command"@ && attached {
            if stop.value@.len() == 0 {
                r is Wait
            } else {
                r matches StopPlan::Send(s) && s@ == stop.value@
            }
        } else {
            r is Docker
        },
{
    if text::same(stop.kind.as_str(), "signal") {
        let upper = to_uppercase(stop.value.as_str());
        StopPlan::Signal(signal_for(upper.as_str()))
    } else if text::same(stop.kind.as_str(), "command") && attached {
        if stop.value.as_str().is_empty() {
            StopPlan::Wait
        } else {
            StopPlan::Send(stop.value.clone())
        }
    } else {
        StopPlan::Docker
    }
}

// ---------------------------------------------------------------------------
// Starting
// ---------------------------------------------------------------------------
/// What is done to start a server, in this order.
#[derive(Debug, Clone, Copy, PartialEq, Eq, Structural)]
pub enum BootStep {
    /// fetch the settings from the panel
    Sync,
    /// count the files
    Measure,
    /// make the data directory
    MakeDirectory,
    /// rewrite the configuration files of the egg
    Configure,
    /// give the files to their owner
    Chown,
    /// remove the container and make it anew
    Recreate,
    /// pull the image
    Pull,
    /// attach to the console
    Attach,
    /// start the process
    Start,
    /// set the limits of the running container
    ApplyLimits,
}

/// What follows.
#[derive(Debug)]
pub enum Boot {
    Go(BootStep),
    Return(AppResult<()>),
}

/// The step after a step that went well.
pub open spec fn step_after(step: BootStep) -> Option<BootStep> {
    match step {
        BootStep::Sync => Some(BootStep::Measure),
        BootStep::Measure => Some(BootStep::MakeDirectory),
        BootStep::MakeDirectory => Some(BootStep::Configure),
        BootStep::Configure => Some(BootStep::Chown),
        BootStep::Chown => Some(BootStep::Recreate),
        BootStep::Recreate => Some(BootStep::Pull),
        BootStep::Pull => Some(BootStep::Attach),
        BootStep::Attach => Some(BootStep::Start),
        BootStep::Start => Some(BootStep::ApplyLimits),
        BootStep::ApplyLimits => None,
    }
}

/// Whether a start ends with a step. The settings, the configuration files, the
/// owner, the image and the limits may fail; a suspended server, and one without room, do not start.
pub open spec fn boot_ends(step: BootStep, failed: bool, suspended: bool, room: bool) -> bool {
    match step {
        BootStep::Sync => suspended,
        BootStep::Measure => !room,
        BootStep::MakeDirectory | BootStep::Recreate | BootStep::Attach
        | BootStep::Start => failed,
        BootStep::Configure | BootStep::Chown | BootStep::Pull | BootStep::ApplyLimits => false,
    }
}

/// The state of a server after a step of its start.
pub open spec fn boot_state(state: ServerState, step: BootStep, ends: bool) -> ServerState {
    if ends {
        ServerState::Offline
    } else if step == BootStep::Start {
        ServerState::Running
    } else {
        state
    }
}

/// A start has begun: one that runs is left alone, any other is starting.
pub open spec fn start_begun(before: Server, after: Server, r: Boot) -> bool {
    if before.running() {
        r == Boot::Return(Ok(())) && after == before
    } else {
        &&& r == Boot::Go(BootStep::Sync)
        &&& after.same_but_outbox((Server { state: ServerState::Starting, ..before }))
        &&& after.said() == before.said().push(events::status_frame("starting"@))
    }
}

/// A stop has begun: one that does not run is left alone, and the exit of any other
/// counts as wanted.
pub open spec fn stop_begun(before: Server, after: Server) -> bool {
    if before.running() {
        &&& after.same_but_outbox(
            (Server { intentional_stop: true, state: ServerState::Stopping, ..before }),
        )
        &&& after.said() == before.said().push(events::status_frame("stopping"@))
    } else {
        after == before
    }
}

/// What became of a start.
pub struct BootRun {
    pub state: ServerState,
    /// the next step, if there is one
    pub step: Option<BootStep>,
    /// whether the start ended with an error
    pub failed: bool,
}

/// A start that has gone through some steps, each of which ended it or not.
pub open spec fn boot_run(ends: Seq<bool>) -> BootRun
    decreases ends.len(),
{
    if ends.len() == 0 {
        BootRun { state: ServerState::Starting, step: Some(BootStep::Sync), failed: false }
    } else {
        let before = boot_run(ends.drop_last());
        match before.step {
            None => before,
            Some(step) => BootRun {
                state: boot_state(before.state, step, ends.last()),
                step: if ends.last() {
                    None
                } else {
                    step_after(step)
                },
                failed: ends.last(),
            },
        }
    }
}

/// A start that is over has left the server running, or offline when it failed.
/// While it lasts, the server is starting until its process is there.
pub proof fn law_start_ends_running_or_offline(ends: Seq<bool>)
    ensures
        boot_run(ends).step is None ==> boot_run(ends).state == (if boot_run(ends).failed {
            ServerState::Offline
        } else {
            ServerState::Running
        }),
        boot_run(ends).step matches Some(step) ==> boot_run(ends).state == (if step
            == BootStep::ApplyLimits {
            ServerState::Running
        } else {
            ServerState::Starting
        }),
        boot_run(ends).step is Some ==> !boot_run(ends).failed,
    decreases ends.len(),
{
    if ends.len() > 0 {
        law_start_ends_running_or_offline(ends.drop_last());
    }
}

impl Server {
    /// Refuses power actions while a server is installed, moved or restored.
    pub fn check_power_allowed(&self) -> (r: AppResult<()>)
        ensures
            match r {
                Ok(_) => power_refusal(self) is None,
                Err(e) => power_refusal(self) matches Some(m) && crate::error::is_conflict(e, m),
            },
    {
        if self.installing {
            return Err(AppError::Conflict("server is currently installing".to_owned()));
        }
        if self.transferring {
            return Err(AppError::Conflict("server is currently being transferred".to_owned()));
        }
        if self.restoring {
            return Err(AppError::Conflict("server is currently restoring a backup".to_owned()));
        }
        Ok(())
    }

    /// Starts a server, unless it is installed, moved or restored. `lock` tells
    /// whether the lock on power actions was taken.
    pub fn power_start(&mut self, lock: AppResult<()>) -> (r: Boot)
        ensures
            match (power_refusal(old(self)), lock) {
                (Some(m), _) => *final(self) == *old(self) && (r matches Boot::Return(Err(e))
                    && crate::error::is_conflict(e, m)),
                (None, Err(e)) => *final(self) == *old(self) && r == Boot::Return(Err(e)),
                (None, Ok(_)) => start_begun(*old(self), *final(self), r),
            },
    {
        if let Err(e) = self.check_power_allowed() {
            return Boot::Return(Err(e));
        }
        match lock {
            Ok(_) => self.begin_start(),
            Err(e) => Boot::Return(Err(e)),
        }
    }

    /// Begins a start, whatever else is going on. One that runs is left alone.
    pub fn begin_start(&mut self) -> (r: Boot)
        ensures
            start_begun(*old(self), *final(self), r),
    {
        if self.is_running() {
            return Boot::Return(Ok(()));
        }
        self.set_state(ServerState::Starting);
        Boot::Go(BootStep::Sync)
    }

    /// What follows a step of a start. `used` is what the files take, as far as
    /// the step counted them.
    pub fn start_unlocked(&mut self, step: BootStep, outcome: AppResult<()>, used: u64, now: u64) -> (r:
        Boot)
        ensures
            ({
                let ends = boot_ends(
                    step,
                    outcome is Err,
                    old(self).suspended,
                    within(old(self).config.build.disk_space, used),
                );
                let after = Server {
                    state: boot_state(old(self).state, step, ends),
                    started_at: if !ends && step == BootStep::Start {
                        Some(now)
                    } else {
                        old(self).started_at
                    },
                    ..*old(self)
                };
                &&& final(self).same_but_outbox(after)
                &&& final(self).said() == (if ends {
                    old(self).said().push(events::status_frame("offline"@))
                } else if step == BootStep::Start {
                    old(self).said().push(events::status_frame("running"@))
                } else {
                    old(self).said()
                })
                &&& if ends {
                    r matches Boot::Return(Err(e)) && (match step {
                        BootStep::Sync => crate::error::is_bad_request(
                            e,
                            "Cannot start or restart a server that is suspended."@,
                        ),
                        BootStep::Measure => crate::error::is_bad_request(
                            e,
                            "Cannot start server, server has run out of disk space."@,
                        ),
                        _ => outcome == Err::<(), AppError>(e),
                    })
                } else {
                    match step_after(step) {
                        Some(next) => r == Boot::Go(next),
                        None => r == Boot::Return(Ok(())),
                    }
                }
            }),
            step == BootStep::Sync && old(self).suspended ==> (r matches Boot::Return(Err(_)))
                && final(self).state == ServerState::Offline,
            step == BootStep::Measure && old(self).config.build.disk_space > 0 && used > old(self).config.build.disk_space * 1048576 ==> (r matches Boot::Return(Err(_)))
                && final(self).state == ServerState::Offline,
            step == BootStep::Measure && (old(self).config.build.disk_space <= 0 || used <= old(self).config.build.disk_space * 1048576) ==> r == Boot::Go(BootStep::MakeDirectory),
            outcome is Err && (step == BootStep::MakeDirectory || step == BootStep::Recreate || step
                == BootStep::Attach || step == BootStep::Start) ==> r == Boot::Return(outcome)
                && final(self).state == ServerState::Offline,
            step == BootStep::Start && outcome is Ok ==> final(self).state == ServerState::Running
                && final(self).started_at == Some(now),
    {
        match step {
            BootStep::Sync => {
                if self.suspended {
                    self.set_state(ServerState::Offline);
                    return Boot::Return(
                        Err(
                            AppError::BadRequest(
                                "Cannot start or restart a server that is suspended.".to_owned(),
                            ),
                        ),
                    );
                }
                Boot::Go(BootStep::Measure)
            },
            BootStep::Measure => {
                if !self.has_space_available(used) {
                    self.set_state(ServerState::Offline);
                    return Boot::Return(
                        Err(
                            AppError::BadRequest(
                                "Cannot start server, server has run out of disk space.".to_owned(),
                            ),
                        ),
                    );
                }
                Boot::Go(BootStep::MakeDirectory)
            },
            BootStep::Configure => Boot::Go(BootStep::Chown),
            BootStep::Chown => Boot::Go(BootStep::Recreate),
            BootStep::Pull => Boot::Go(BootStep::Attach),
            BootStep::ApplyLimits => Boot::Return(Ok(())),
            BootStep::MakeDirectory => match outcome {
                Ok(_) => Boot::Go(BootStep::Configure),
                Err(e) => {
                    self.set_state(ServerState::Offline);
                    Boot::Return(Err(e))
                },
            },
            BootStep::Recreate => match outcome {
                Ok(_) => Boot::Go(BootStep::Pull),
                Err(e) => {
                    self.set_state(ServerState::Offline);
                    Boot::Return(Err(e))
                },
            },
            BootStep::Attach => match outcome {
                Ok(_) => Boot::Go(BootStep::Start),
                Err(e) => {
                    self.set_state(ServerState::Offline);
                    Boot::Return(Err(e))
                },
            },
            BootStep::Start => match outcome {
                Ok(_) => {
                    self.started_at = Some(now);
                    self.set_state(ServerState::Running);
                    Boot::Go(BootStep::ApplyLimits)
                },
                Err(e) => {
                    self.set_state(ServerState::Offline);
                    Boot::Return(Err(e))
                },
            },
        }
    }

    /// Stops a server, unless it is installed, moved or restored. `lock` tells
    /// whether the lock on power actions was taken. Tells whether there is anything
    /// to stop.
    pub fn power_stop(&mut self, lock: AppResult<()>) -> (r: AppResult<bool>)
        ensures
            match (power_refusal(old(self)), lock) {
                (Some(m), _) => *final(self) == *old(self) && r is Err && crate::error::is_conflict(
                    r->Err_0,
                    m,
                ),
                (None, Err(e)) => *final(self) == *old(self) && r == Err::<bool, AppError>(e),
                (None, Ok(_)) => r == Ok::<bool, AppError>(old(self).running()) && stop_begun(
                    *old(self),
                    *final(self),
                ),
            },
    {
        self.check_power_allowed()?;
        match lock {
            Ok(_) => Ok(self.begin_stop()),
            Err(e) => Err(e),
        }
    }

    /// Kills a server, unless it is installed, moved or restored; no lock is needed
    /// for that. Tells whether there is anything to kill.
    pub fn power_kill(&mut self) -> (r: AppResult<bool>)
        ensures
            match power_refusal(old(self)) {
                Some(m) => *final(self) == *old(self) && r is Err && crate::error::is_conflict(
                    r->Err_0,
                    m,
                ),
                None => r == Ok::<bool, AppError>(old(self).running()) && stop_begun(
                    *old(self),
                    *final(self),
                ),
            },
    {
        self.check_power_allowed()?;
        Ok(self.begin_stop())
    }

    /// Begins to stop or kill a server, whatever else is going on. Tells whether
    /// there is anything to stop; the exit then counts as wanted.
    pub fn begin_stop(&mut self) -> (r: bool)
        ensures
            r == old(self).running(),
            stop_begun(*old(self), *final(self)),
    {
        if !self.is_running() {
            return false;
        }
        self.intentional_stop = true;
        self.set_state(ServerState::Stopping);
        true
    }

    /// Ends a stop, however it went.
    pub fn power_stopped(&mut self)
        ensures
            final(self).same_but_outbox((Server { state: ServerState::Offline, ..*old(self) })),
            final(self).said() == old(self).said().push(events::status_frame("offline"@)),
    {
        self.set_state(ServerState::Offline);
    }

    /// Restarts a server, unless it is installed, moved or restored. `lock` tells
    /// whether the lock on power actions was taken. The exit counts as wanted.
    pub fn power_restart(&mut self, lock: AppResult<()>) -> (r: AppResult<()>)
        ensures
            match (power_refusal(old(self)), lock) {
                (Some(m), _) => *final(self) == *old(self) && r is Err && crate::error::is_conflict(
                    r->Err_0,
                    m,
                ),
                (None, Err(e)) => *final(self) == *old(self) && r == Err::<(), AppError>(e),
                (None, Ok(_)) => r is Ok && *final(self) == (Server {
                    intentional_stop: true,
                    ..*old(self)
                }),
            },
    {
        self.check_power_allowed()?;
        match lock {
            Ok(_) => {
                self.intentional_stop = true;
                Ok(())
            },
            Err(e) => Err(e),
        }
    }

    /// The process has ended. Tells whether nobody wanted that.
    pub fn process_exited(&mut self) -> (r: bool)
        ensures
            r == !old(self).intentional_stop,
            final(self).same_but_outbox(
                (Server {
                    state: ServerState::Offline,
                    stats_running: false,
                    intentional_stop: false,
                    ..*old(self)
                }),
            ),
            final(self).said() == old(self).said().push(events::status_frame("offline"@)),
    {
        self.set_state(ServerState::Offline);
        self.stats_running = false;
        let wanted = self.intentional_stop;
        self.intentional_stop = false;
        !wanted
    }

    // -- crashes -----------------------------------------------------------
    /// Whether an exit is looked at as a crash at all.
    pub open spec fn watches_crashes(&self, daemon: &Config) -> bool {
        self.config.crash_detection_enabled && daemon.system.crash_detection.enabled
            && !self.installing && !self.suspended
    }

    /// Whether an exit is looked at as a crash at all.
    pub fn crash_detection(&self, daemon: &Config) -> (r: bool)
        ensures
            r == self.watches_crashes(daemon),
    {
        self.config.crash_detection_enabled && daemon.system.crash_detection.enabled
            && !self.installing && !self.suspended
    }

    /// Whether an exit was a crash.
    pub open spec fn is_crash(&self, code: i64, oom: bool, daemon: &Config) -> bool {
        self.watches_crashes(daemon) && (code != 0 || oom
            || daemon.system.crash_detection.detect_clean_exit_as_crash)
    }

    /// Whether the last crash is too near to restart the server by itself.
    pub open spec fn crashed_lately(&self, daemon: &Config, now: u64) -> bool {
        too_near(self.last_crash, daemon.system.crash_detection.timeout, now)
    }

    /// What users are told of a crash.
    pub open spec fn crash_frames(code: i64, oom: bool, timeout: u64, again: bool) -> Seq<
        events::Frame,
    > {
        seq![
            events::message_frame(
                "---------- Detected server process in a crashed state! ----------"@,
            ),
            events::message_frame("Exit code: "@ + numbers::decimal_int(code as int)),
            events::message_frame("Out of memory: "@ + bool_text(oom)),
            if again {
                events::message_frame(
                    "Aborting automatic restart, last crash occurred less than "@
                        + numbers::decimal(timeout as nat) + " seconds ago."@,
                )
            } else {
                events::message_frame("Restarting server process after crash..."@)
            },
        ]
    }

    /// Decides what follows the exit of a process that nobody stopped: whether
    /// to start the server again. Users are told of a crash.
    pub fn handle_server_crash(&mut self, exit_code: Option<i64>, oom: bool, daemon: &Config, now: u64) -> (r:
        bool)
        ensures
            ({
                let code = match exit_code {
                    Some(c) => c,
                    None => 0,
                };
                let crash = old(self).is_crash(code, oom, daemon);
                let again = old(self).crashed_lately(daemon, now);
                &&& r == (crash && !again)
                &&& final(self).same_but_outbox(
                    (Server {
                        last_crash: if r {
                            Some(now)
                        } else {
                            old(self).last_crash
                        },
                        ..*old(self)
                    }),
                )
                &&& final(self).said() == (if crash {
                    old(self).said() + Server::crash_frames(
                        code,
                        oom,
                        daemon.system.crash_detection.timeout,
                        again,
                    )
                } else {
                    old(self).said()
                })
            }),
            ({
                let how = daemon.system.crash_detection;
                let watched = old(self).config.crash_detection_enabled && how.enabled && !old(self).installing && !old(self).suspended;
                let failed = oom || (exit_code matches Some(c) && c != 0);
                let apart = how.timeout == 0 || (old(self).last_crash matches Some(t) ==> now >= t
                    && now - t >= how.timeout * 1000);
                &&& r == (watched && (failed || how.detect_clean_exit_as_crash) && apart)
                &&& r ==> final(self).last_crash == Some(now)
                &&& watched && (failed || how.detect_clean_exit_as_crash) ==> final(self).said().len() == old(self).said().len() + 4
                &&& !(watched && (failed || how.detect_clean_exit_as_crash)) ==> final(self).said()
                    == old(self).said()
            }),
    {
        if !self.crash_detection(daemon) {
            return false;
        }
        let code: i64 = match exit_code {
            Some(c) => c,
            None => 0,
        };
        if code == 0 && !oom && !daemon.system.crash_detection.detect_clean_exit_as_crash {
            return false;
        }
        let ghost before = self.said();
        self.publish_daemon_message(
            "---------- Detected server process in a crashed state! ----------".to_owned(),
        );
        self.publish_daemon_message(
            text::cat("Exit code: ", numbers::decimal_i64(code).as_str()),
        );
        self.publish_daemon_message(text::cat("Out of memory: ", bool_string(oom).as_str()));
        let timeout = daemon.system.crash_detection.timeout;
        let again = match self.last_crash {
            Some(t) => {
                let elapsed: u64 = if now >= t {
                    now - t
                } else {
                    0
                };
                timeout != 0 && (elapsed as u128) < timeout as u128 * 1000
            },
            None => false,
        };
        if again {
            self.publish_daemon_message(
                text::cat3(
                    "Aborting automatic restart, last crash occurred less than ",
                    numbers::decimal_u64(timeout).as_str(),
                    " seconds ago.",
                ),
            );
        } else {
            self.last_crash = Some(now);
            self.publish_daemon_message("Restarting server process after crash...".to_owned());
        }
        assert(self.said() =~= before + Server::crash_frames(code, oom, timeout, again));
        !again
    }

    // -- settings ----------------------------------------------------------
    /// Whether the disk limit can be counted in bytes.
    pub open spec fn limit_counts(cfg: &ServerConfig) -> bool {
        cfg.build.disk_space <= 8796093022207
    }

    /// Takes new settings from the panel: what may be run, how much room there
    /// is, which files are denied, and whom files belong to. Tells whether the
    /// server is suspended, so that its clients have to go.
    pub fn sync_from_panel(
        &mut self,
        settings: ServerConfig,
        process: Option<ProcessConfig>,
        daemon: &Config,
    ) -> (r: bool)
        requires
            Server::limit_counts(&settings),
        ensures
            r == settings.suspended,
            *final(self) == (Server {
                suspended: settings.suspended,
                config: settings,
                process_config: final(self).process_config,
                fs: final(self).fs,
                ..*old(self)
            }),
            process matches Some(p) ==> final(self).process_config == p,
            process is None ==> is_unknown(final(self).process_config),
            final(self).fs.base() == old(self).fs.base(),
            final(self).fs.deny() == text::texts(settings.egg.file_denylist@),
            final(self).fs.limit() == (if settings.build.disk_space > 0 {
                settings.build.disk_space * 1048576
            } else {
                0
            }),
            final(self).fs.owner() == (
                owner_of(daemon.system.user).0 as i32,
                owner_of(daemon.system.user).1 as i32,
            ),
    {
        self.suspended = settings.suspended;
        self.config = settings;
        self.process_config = match process {
            Some(p) => p,
            None => unknown_process(),
        };
        let denylist = text::copy_texts(&self.config.egg.file_denylist);
        self.fs.set_denylist(denylist);
        let mb = self.config.build.disk_space;
        self.fs.set_disk_limit(
            if mb > 0 {
                mb * 1048576
            } else {
                0
            },
        );
        let ids = owner(&daemon.system.user);
        self.fs.set_chown_ids(ids.0 as i32, ids.1 as i32);
        self.suspended
    }

    /// Whom the files are given to before a start.
    pub fn boot_owner(daemon: &Config) -> (r: (u32, u32))
        ensures
            r == (
                owner_of(daemon.system.user).0 as u32,
                owner_of(daemon.system.user).1 as u32,
            ),
    {
        let ids = owner(&daemon.system.user);
        (ids.0 as u32, ids.1 as u32)
    }

    /// The address that a process is told to listen on.
    pub open spec fn server_ip(cfg: &ServerConfig, daemon: &Config) -> Seq<char> {
        if cfg.allocations.default.ip@ == "127.0.0.1"@ {
            daemon.docker.network.interface@
        } else {
            cfg.allocations.default.ip@
        }
    }

    /// What the daemon itself tells a process.
    pub open spec fn own_variables(cfg: &ServerConfig, daemon: &Config) -> Seq<Seq<char>> {
        seq![
            "TZ="@ + (if daemon.system.timezone@.len() == 0 {
                "UTC"@
            } else {
                daemon.system.timezone@
            }),
            "STARTUP="@ + cfg.invocation@,
            "SERVER_MEMORY="@ + numbers::decimal_int(cfg.build.memory_limit as int),
            "SERVER_IP="@ + Server::server_ip(cfg, daemon),
            "SERVER_PORT="@ + numbers::decimal(cfg.allocations.default.port as nat),
        ]
    }

    /// The environment of a process.
    pub open spec fn environment_of(cfg: &ServerConfig, daemon: &Config) -> Seq<Seq<char>> {
        Server::own_variables(cfg, daemon) + egg_variables(text::pairs(cfg.environment@)) + seq![
            "PTERODACTYL_SERVER_UUID="@ + cfg.uuid@,
        ]
    }

    /// The environment of the process: what the daemon says of it, and then the
    /// variables of the egg that do not say the same.
    pub fn build_env(cfg: &ServerConfig, daemon: &Config) -> (r: Vec<String>)
        ensures
            text::texts(r@) == Server::environment_of(cfg, daemon),
    {
        let mut env: Vec<String> = Vec::new();
        let tz = if daemon.system.timezone.as_str().is_empty() {
            "UTC"
        } else {
            daemon.system.timezone.as_str()
        };
        let allocation = cfg.default_allocation();
        let ip = if text::same(allocation.ip.as_str(), "127.0.0.1") {
            daemon.docker.network.interface.as_str()
        } else {
            allocation.ip.as_str()
        };
        env.push(text::cat("TZ=", tz));
        env.push(text::cat("STARTUP=", cfg.invocation.as_str()));
        env.push(
            text::cat(
                "SERVER_MEMORY=",
                numbers::decimal_i64(cfg.build.memory_limit).as_str(),
            ),
        );
        env.push(text::cat("SERVER_IP=", ip));
        env.push(
            text::cat("SERVER_PORT=", numbers::decimal_u64(allocation.port as u64).as_str()),
        );
        let ghost own = Server::own_variables(cfg, daemon);
        assert(text::texts(env@) =~= own);
        let ghost all = text::pairs(cfg.environment@);
        let mut i: usize = 0;
        assert(all.take(0) =~= Seq::empty());
        assert(own + egg_variables(all.take(0)) =~= own);
        while i < cfg.environment.len()
            invariant
                i <= cfg.environment.len(),
                all == text::pairs(cfg.environment@),
                text::texts(env@) == own + egg_variables(all.take(i as int)),
            decreases cfg.environment.len() - i,
        {
            let ghost before = env@;
            assert(all.take(i + 1).drop_last() =~= all.take(i as int));
            let key = cfg.environment[i].0.as_str();
            if !reserved_name(key) {
                let v = text::cat3(key, "=", cfg.environment[i].1.as_str());
                env.push(v);
                assert(text::texts(env@) =~= text::texts(before).push(v@));
                assert(text::texts(env@) =~= own + egg_variables(all.take(i + 1)));
            }
            i = i + 1;
        }
        assert(all.take(i as int) =~= all);
        let ghost before = env@;
        env.push(text::cat("PTERODACTYL_SERVER_UUID=", cfg.uuid.as_str()));
        assert(text::texts(env@) =~= Server::environment_of(cfg, daemon));
        env
    }

    /// The machine id of a server, which is its UUID without hyphens, and a
    /// line end.
    pub fn machine_id(&self) -> (r: String)
        ensures
            r@ == text::replaced(self.uuid@, '-', ""@) + "\n"@,
    {
        text::cat(text::replace_char(self.uuid.as_str(), '-', "").as_str(), "\n")
    }

    /// What the panel is told of a server.
    pub fn api_response(&self) -> (r: crate::server::server::ApiResponse<'_>)
        ensures
            r.state@ == self.state.text(),
            r.is_suspended == self.suspended,
            r.configuration == self.config,
            r.utilization.state@ == self.state.text(),
            r.utilization.memory_bytes == self.usage.memory_bytes,
            r.utilization.memory_limit_bytes == self.usage.memory_limit_bytes,
            r.utilization.cpu_absolute@ == self.usage.cpu_absolute@,
            r.utilization.network == self.usage.network,
            r.utilization.uptime == self.usage.uptime,
            r.utilization.disk_bytes == self.usage.disk_bytes,
    {
        let mut usage = self.usage();
        usage.state = self.state.as_str().to_owned();
        crate::server::server::ApiResponse {
            state: self.state.as_str(),
            is_suspended: self.suspended,
            utilization: usage,
            configuration: &self.config,
        }
    }

    // -- removal and clients -----------------------------------------------
    /// Begins to remove a server, whatever it does: it is suspended, listeners
    /// are told, and its exit counts as wanted.
    pub fn delete_container(&mut self)
        ensures
            final(self).same_but_outbox(
                (Server {
                    suspended: true,
                    intentional_stop: true,
                    state: ServerState::Stopping,
                    ..*old(self)
                }),
            ),
            final(self).said() == (if old(self).transferring {
                old(self).said().push(("transfer status"@, seq!["completed"@]))
            } else {
                old(self).said()
            }).push(("server deleted"@, seq![""@])).push(events::status_frame("stopping"@)),
    {
        self.suspended = true;
        if self.transferring {
            self.publish(ServerEvent::TransferStatus("completed".to_owned()));
        }
        self.publish(ServerEvent::Deleted);
        self.intentional_stop = true;
        self.set_state(ServerState::Stopping);
    }

    /// The containers of a server: the one of its process and the one of its
    /// installation.
    pub fn container_names(&self) -> (r: (String, String))
        ensures
            r.0@ == self.uuid@,
            r.1@ == self.uuid@ + "_installer"@,
    {
        (self.uuid.clone(), text::cat(self.uuid.as_str(), "_installer"))
    }

    /// Counts one more client, unless there are too many already.
    pub fn connect(&mut self) -> (r: bool)
        ensures
            r == (old(self).ws_connections
                < crate::server::server::MAX_WEBSOCKETS_PER_SERVER),
            *final(self) == (Server {
                ws_connections: if r {
                    (old(self).ws_connections + 1) as usize
                } else {
                    old(self).ws_connections
                },
                ..*old(self)
            }),
    {
        if self.ws_connections >= crate::server::server::MAX_WEBSOCKETS_PER_SERVER {
            return false;
        }
        self.ws_connections = self.ws_connections + 1;
        true
    }

    /// One client is gone.
    pub fn disconnect(&mut self)
        ensures
            *final(self) == (Server {
                ws_connections: if old(self).ws_connections > 0 {
                    (old(self).ws_connections - 1) as usize
                } else {
                    0
                },
                ..*old(self)
            }),
    {
        if self.ws_connections > 0 {
            self.ws_connections = self.ws_connections - 1;
        }
    }
}

/// The names that the daemon itself sets.
pub open spec fn is_reserved(name: Seq<char>) -> bool {
    name == "TZ"@ || name == "STARTUP"@ || name == "SERVER_MEMORY"@ || name == "SERVER_IP"@ || name
        == "SERVER_PORT"@
}

fn reserved_name(name: &str) -> (r: bool)
    ensures
        r == is_reserved(name@),
{
    text::same(name, "TZ") || text::same(name, "STARTUP") || text::same(name, "SERVER_MEMORY")
        || text::same(name, "SERVER_IP") || text::same(name, "SERVER_PORT")
}

/// The variables of an egg, without those that the daemon sets.
pub open spec fn egg_variables(v: Seq<(Seq<char>, Seq<char>)>) -> Seq<Seq<char>>
    decreases v.len(),
{
    if v.len() == 0 {
        Seq::empty()
    } else if is_reserved(v.last().0) {
        egg_variables(v.drop_last())
    } else {
        egg_variables(v.drop_last()).push(v.last().0 + "="@ + v.last().1)
    }
}

/// No variable of an egg stands in for one that the daemon sets: every variable
/// it adds is one of its own, under a name that is not reserved.
pub proof fn law_egg_keeps_off_reserved_names(v: Seq<(Seq<char>, Seq<char>)>, i: int)
    requires
        0 <= i < egg_variables(v).len(),
    ensures
        exists|j: int|
            0 <= j < v.len() && !is_reserved((#[trigger] v[j]).0) && egg_variables(v)[i] == v[j].0
                + "="@ + v[j].1,
    decreases v.len(),
{
    if v.len() > 0 {
        let rest = v.drop_last();
        if i < egg_variables(rest).len() {
            law_egg_keeps_off_reserved_names(rest, i);
            let j = choose|j: int|
                0 <= j < rest.len() && !is_reserved((#[trigger] rest[j]).0) && egg_variables(
                    rest,
                )[i] == rest[j].0 + "="@ + rest[j].1;
            assert(v[j] == rest[j]);
        } else {
            assert(v[v.len() - 1] == v.last());
        }
    }
}

/// Whether a crash comes within `timeout` seconds of the one that the server was
/// last restarted after.
pub open spec fn too_near(last: Option<u64>, timeout: u64, now: u64) -> bool {
    timeout != 0 && (last matches Some(t) && console::since(t, now) < timeout * 1000)
}

/// When a server is restarted that crashes at some times.
pub open spec fn restarts(last: Option<u64>, timeout: u64, crashes: Seq<u64>) -> Seq<u64>
    decreases crashes.len(),
{
    if crashes.len() == 0 {
        Seq::empty()
    } else if too_near(last, timeout, crashes[0]) {
        restarts(last, timeout, crashes.skip(1))
    } else {
        seq![crashes[0]] + restarts(Some(crashes[0]), timeout, crashes.skip(1))
    }
}

/// However often a server crashes, it is restarted at most once in `timeout`
/// seconds.
pub proof fn law_restarts_are_apart(last: Option<u64>, timeout: u64, crashes: Seq<u64>)
    requires
        forall|i: int, j: int| 0 <= i < j < crashes.len() ==> crashes[i] <= crashes[j],
        last matches Some(t) ==> forall|i: int| 0 <= i < crashes.len() ==> t <= #[trigger] crashes[i],
    ensures
        forall|i: int, j: int|
            0 <= i < j < restarts(last, timeout, crashes).len() ==> (#[trigger] restarts(
                last,
                timeout,
                crashes,
            )[i]) + timeout * 1000 <= (#[trigger] restarts(last, timeout, crashes)[j]),
        last matches Some(t) ==> forall|i: int|
            0 <= i < restarts(last, timeout, crashes).len() ==> t + timeout * 1000 <= (
            #[trigger] restarts(last, timeout, crashes)[i]),
    decreases crashes.len(),
{
    if crashes.len() > 0 {
        let rest = crashes.skip(1);
        assert(forall|i: int| 0 <= i < rest.len() ==> #[trigger] rest[i] == crashes[i + 1]);
        if too_near(last, timeout, crashes[0]) {
            law_restarts_are_apart(last, timeout, rest);
            assert(restarts(last, timeout, crashes) == restarts(last, timeout, rest));
        } else {
            law_restarts_are_apart(Some(crashes[0]), timeout, rest);
            let later = restarts(Some(crashes[0]), timeout, rest);
            let all = restarts(last, timeout, crashes);
            assert(all == seq![crashes[0]] + later);
            let gap = timeout * 1000;
            assert forall|i: int, j: int| 0 <= i < j < all.len() implies (#[trigger] all[i]) + gap
                <= (#[trigger] all[j]) by {
                assert(all[j] == later[j - 1]);
                if i > 0 {
                    assert(all[i] == later[i - 1]);
                }
            }
            if let Some(t) = last {
                assert(t <= crashes[0]);
                assert(t + gap <= crashes[0]);
                assert forall|i: int| 0 <= i < all.len() implies t + gap <= (#[trigger] all[i]) by {
                    if i > 0 {
                        assert(all[i] == later[i - 1]);
                    }
                }
            }
        }
    }
}

/// While a server is installed, moved or restored, no power action is allowed;
/// otherwise all are.
pub proof fn law_power_needs_a_quiet_server(s: &Server)
    ensures
        power_refusal(s) is Some == (s.installing || s.transferring || s.restoring),
{
}

/// The place of a step in a start.
pub open spec fn boot_rank(step: BootStep) -> int {
    match step {
        BootStep::Sync => 0,
        BootStep::Measure => 1,
        BootStep::MakeDirectory => 2,
        BootStep::Configure => 3,
        BootStep::Chown => 4,
        BootStep::Recreate => 5,
        BootStep::Pull => 6,
        BootStep::Attach => 7,
        BootStep::Start => 8,
        BootStep::ApplyLimits => 9,
    }
}

/// A start goes through its steps one by one, to the last.
pub proof fn law_start_skips_no_step(step: BootStep)
    ensures
        match step_after(step) {
            Some(next) => boot_rank(next) == boot_rank(step) + 1,
            None => boot_rank(step) == 9,
        },
{
}

/// A suspended server does not start, nor does one over its disk limit. A failure
/// to make the directory or the container, to attach to it or to start it ends a
/// start; other failures do not.
pub proof fn law_start_is_refused(failed: bool, suspended: bool, room: bool)
    ensures
        boot_ends(BootStep::Sync, failed, true, room),
        !boot_ends(BootStep::Sync, failed, false, room),
        boot_ends(BootStep::Measure, failed, suspended, false),
        !boot_ends(BootStep::Measure, failed, suspended, true),
        forall|step: BootStep|
            boot_rank(step) == 2 || boot_rank(step) == 5 || boot_rank(step) == 7 || boot_rank(step)
                == 8 ==> #[trigger] boot_ends(step, failed, suspended, room) == failed,
        forall|step: BootStep|
            boot_rank(step) == 3 || boot_rank(step) == 4 || boot_rank(step) == 6 || boot_rank(step)
                == 9 ==> !#[trigger] boot_ends(step, failed, suspended, room),
{
}

proof fn lemma_ended_start_stays(ends: Seq<bool>, k: int)
    requires
        0 <= k <= ends.len(),
        boot_run(ends.take(k)).step is None,
    ensures
        boot_run(ends) == boot_run(ends.take(k)),
    decreases ends.len() - k,
{
    if k == ends.len() {
        assert(ends.take(k) =~= ends);
    } else {
        assert(ends.take(k + 1).drop_last() =~= ends.take(k));
        lemma_ended_start_stays(ends, k + 1);
    }
}

/// A server that a start has left running was not suspended when its settings had
/// been fetched, and its files took no more than its limit when they were counted.
pub proof fn law_running_server_had_room(
    ends: Seq<bool>,
    failed: Seq<bool>,
    suspended: Seq<bool>,
    limit: Seq<i64>,
    used: Seq<u64>,
)
    requires
        failed.len() == ends.len() && suspended.len() == ends.len() && limit.len() == ends.len()
            && used.len() == ends.len(),
        forall|i: int|
            0 <= i < ends.len() ==> (boot_run(ends.take(i)).step matches Some(step)
                ==> #[trigger] ends[i] == boot_ends(
                step,
                failed[i],
                suspended[i],
                limit[i] <= 0 || used[i] <= limit[i] * 1048576,
            )),
        boot_run(ends).state == ServerState::Running,
    ensures
        ends.len() > 1,
        !suspended[0],
        limit[1] <= 0 || used[1] <= limit[1] * 1048576,
{
    law_start_ends_running_or_offline(ends);
    assert(ends.take(0) =~= Seq::empty());
    assert(boot_run(ends.take(0)).step == Some(BootStep::Sync));
    if ends.len() > 0 {
        assert(ends.take(1).drop_last() =~= ends.take(0));
        assert(ends.take(1).last() == ends[0]);
        if suspended[0] {
            lemma_ended_start_stays(ends, 1);
        }
        if ends.len() == 1 {
            assert(ends.take(1) =~= ends);
        } else {
            assert(ends.take(2).drop_last() =~= ends.take(1));
            assert(ends.take(2).last() == ends[1]);
            assert(boot_run(ends.take(1)).step == Some(BootStep::Measure));
            if ends[1] {
                lemma_ended_start_stays(ends, 2);
            }
        }
    } else {
        assert(ends =~= Seq::empty());
    }
}

/// With crash detection on for the server and the daemon, while it is neither
/// installed nor suspended, every exit is a crash where clean ones count, and
/// without that an exit with another code than 0 or for want of memory. Else none
/// is.
pub proof fn law_which_exits_are_crashes(s: &Server, code: i64, oom: bool, daemon: &Config)
    ensures
        ({
            let how = daemon.system.crash_detection;
            let watched = s.config.crash_detection_enabled && how.enabled && !s.installing
                && !s.suspended;
            &&& watched && how.detect_clean_exit_as_crash ==> s.is_crash(code, oom, daemon)
            &&& watched && !how.detect_clean_exit_as_crash ==> (s.is_crash(code, oom, daemon) <==> (
            code != 0 || oom))
            &&& s.is_crash(code, oom, daemon) ==> watched
        }),
{
}

/// A crash is too near to the last restart exactly when less than `timeout` seconds
/// lie between them; without a timeout, or a restart before, none is.
pub proof fn law_when_crashes_are_near(last: u64, timeout: u64, now: u64)
    requires
        last <= now,
    ensures
        too_near(Some(last), timeout, now) <==> now - last < timeout * 1000,
        !too_near(None, timeout, now),
        !too_near(Some(last), 0, now),
{
}

/// What users are told of a crash names the code, and says whether the server is
/// started again.
pub proof fn law_crashes_are_told(code: i64, oom: bool, timeout: u64, again: bool)
    ensures
        ({
            let told = Server::crash_frames(code, oom, timeout, again);
            &&& told.len() == 4
            &&& told[1] == events::message_frame("Exit code: "@ + numbers::decimal_int(code as int))
            &&& told[2] == events::message_frame(
                "Out of memory: "@ + (if oom {
                    "true"@
                } else {
                    "false"@
                }),
            )
            &&& !again ==> told[3] == events::message_frame(
                "Restarting server process after crash..."@,
            )
            &&& again ==> told[3] == events::message_frame(
                "Aborting automatic restart, last crash occurred less than "@ + numbers::decimal(
                    timeout as nat,
                ) + " seconds ago."@,
            )
        }),
{
}

/// A process is told how it is started, how much memory it has, and where it
/// listens; on the daemon's network in place of the loopback address.
pub proof fn law_processes_are_told(cfg: &ServerConfig, daemon: &Config)
    ensures
        ({
            let env = Server::environment_of(cfg, daemon);
            let ip = cfg.allocations.default.ip@;
            &&& env.contains("STARTUP="@ + cfg.invocation@)
            &&& env.contains("SERVER_MEMORY="@ + numbers::decimal_int(cfg.build.memory_limit as int))
            &&& env.contains(
                "SERVER_PORT="@ + numbers::decimal(cfg.allocations.default.port as nat),
            )
            &&& env.contains("PTERODACTYL_SERVER_UUID="@ + cfg.uuid@)
            &&& ip == "127.0.0.1"@ ==> env.contains(
                "SERVER_IP="@ + daemon.docker.network.interface@,
            )
            &&& ip != "127.0.0.1"@ ==> env.contains("SERVER_IP="@ + ip)
            &&& daemon.system.timezone@.len() > 0 ==> env.contains(
                "TZ="@ + daemon.system.timezone@,
            )
            &&& daemon.system.timezone@.len() == 0 ==> env.contains("TZ=UTC"@)
        }),
{
    let own = Server::own_variables(cfg, daemon);
    let egg = egg_variables(text::pairs(cfg.environment@));
    let env = Server::environment_of(cfg, daemon);
    assert(env[0] == own[0] && env[1] == own[1] && env[2] == own[2] && env[3] == own[3] && env[4]
        == own[4]);
    assert(env[5 + egg.len() as int] == "PTERODACTYL_SERVER_UUID="@ + cfg.uuid@);
    reveal_strlit("TZ=");
    reveal_strlit("UTC");
    reveal_strlit("TZ=UTC");
    assert("TZ="@ + "UTC"@ =~= "TZ=UTC"@);
}

/// Every variable of an egg is passed on, but for the five that the daemon sets.
pub proof fn law_egg_variables_are_passed(v: Seq<(Seq<char>, Seq<char>)>, j: int)
    requires
        0 <= j < v.len(),
        v[j].0 != "TZ"@ && v[j].0 != "STARTUP"@ && v[j].0 != "SERVER_MEMORY"@ && v[j].0
            != "SERVER_IP"@ && v[j].0 != "SERVER_PORT"@,
    ensures
        egg_variables(v).contains(v[j].0 + "="@ + v[j].1),
    decreases v.len(),
{
    let rest = v.drop_last();
    let all = egg_variables(v);
    let some = egg_variables(rest);
    if j < rest.len() {
        law_egg_variables_are_passed(rest, j);
        let k = choose|k: int| 0 <= k < some.len() && some[k] == rest[j].0 + "="@ + rest[j].1;
        assert(all[k] == some[k]);
    } else {
        assert(all[all.len() - 1] == v[j].0 + "="@ + v[j].1);
    }
}

/// The names that the daemon sets are reserved.
pub proof fn law_reserved_names()
    ensures
        is_reserved("TZ"@) && is_reserved("STARTUP"@) && is_reserved("SERVER_MEMORY"@)
            && is_reserved("SERVER_IP"@) && is_reserved("SERVER_PORT"@),
        forall|n: Seq<char>| #[trigger]
            is_reserved(n) ==> n == "TZ"@ || n == "STARTUP"@ || n == "SERVER_MEMORY"@ || n
                == "SERVER_IP"@ || n == "SERVER_PORT"@,
{
}

/// A signal is the one that is named; any other name kills.
pub proof fn law_signals_by_name(upper: Seq<char>)
    ensures
        signal_named("SIGABRT"@) == "SIGABRT"@,
        signal_named("SIGINT"@) == "SIGINT"@,
        signal_named("C"@) == "SIGINT"@,
        signal_named("SIGTERM"@) == "SIGTERM"@,
        upper != "SIGABRT"@ && upper != "SIGINT"@ && upper != "C"@ && upper != "SIGTERM"@
            ==> signal_named(upper) == "SIGKILL"@,
{
    reveal_strlit("SIGABRT");
    reveal_strlit("SIGINT");
    reveal_strlit("C");
    reveal_strlit("SIGTERM");
    assert("SIGABRT"@[3] != "SIGINT"@[3]);
    assert("SIGTERM"@[3] != "SIGINT"@[3] && "SIGTERM"@[3] != "SIGABRT"@[3]);
    assert("C"@.len() != "SIGINT"@.len() && "C"@.len() != "SIGABRT"@.len() && "C"@.len()
        != "SIGTERM"@.len());
}

/// Installation, transfer and restore keep a server from power actions, each with
/// its own message.
pub proof fn law_busy_servers_are_left_alone(s: &Server)
    ensures
        s.installing ==> power_refusal(s) == Some("server is currently installing"@),
        !s.installing && s.transferring ==> power_refusal(s) == Some(
            "server is currently being transferred"@,
        ),
        !s.installing && !s.transferring && s.restoring ==> power_refusal(s) == Some(
            "server is currently restoring a backup"@,
        ),
        !s.installing && !s.transferring && !s.restoring ==> power_refusal(s) is None,
{
}

/// A server that runs, or is about to, is not started again; any other goes through
/// starting to running, and to offline where a step ends the start.
pub proof fn law_states_of_a_start(before: Server, after: Server, r: Boot, state: ServerState, step: BootStep)
    requires
        start_begun(before, after, r),
    ensures
        before.state == ServerState::Running || before.state == ServerState::Starting ==> r
            == Boot::Return(Ok(())) && after == before,
        before.state == ServerState::Offline || before.state == ServerState::Stopping ==> r
            == Boot::Go(BootStep::Sync) && after.state == ServerState::Starting
            && after.said().len() == before.said().len() + 1 && after.said().last() == (
            "status"@,
            seq!["starting"@],
        ) && after.config == before.config && after.suspended == before.suspended,
        boot_state(state, step, true) == ServerState::Offline,
        boot_state(state, BootStep::Start, false) == ServerState::Running,
        step != BootStep::Start ==> boot_state(state, step, false) == state,
{
}

/// A server that is stopped is known to be stopped on purpose; one that does not run
/// stays as it is.
pub proof fn law_states_of_a_stop(before: Server, after: Server)
    requires
        stop_begun(before, after),
    ensures
        before.state == ServerState::Running || before.state == ServerState::Starting
            ==> after.state == ServerState::Stopping && after.intentional_stop
            && after.said().len() == before.said().len() + 1 && after.said().last() == (
            "status"@,
            seq!["stopping"@],
        ) && after.config == before.config,
        before.state == ServerState::Offline || before.state == ServerState::Stopping ==> after
            == before,
{
}

/// Who waits for another action in vain is told how long.
pub proof fn law_locks_are_told(wait: u32)
    ensures
        wait > 0 ==> lock_message(wait) == "could not acquire lock on power action after "@
            + numbers::decimal(wait as nat) + " seconds"@,
        lock_message(0) == "failed to acquire exclusive lock for power actions"@,
{
}

/// A crash that is not near to the last restart leads to one, and is then the last.
pub proof fn law_restarts_in_order(last: Option<u64>, timeout: u64, now: u64, rest: Seq<u64>)
    ensures
        last is None || timeout == 0 ==> restarts(last, timeout, seq![now] + rest) == seq![now]
            + restarts(Some(now), timeout, rest),
        last matches Some(t) ==> t <= now && now - t >= timeout * 1000 ==> restarts(
            last,
            timeout,
            seq![now] + rest,
        ) == seq![now] + restarts(Some(now), timeout, rest),
        last matches Some(t) ==> t <= now && now - t < timeout * 1000 ==> restarts(
            last,
            timeout,
            seq![now] + rest,
        ) == restarts(last, timeout, rest),
{
    let all = seq![now] + rest;
    assert(all[0] == now);
    assert(all.skip(1) =~= rest);
}

} // verus!
