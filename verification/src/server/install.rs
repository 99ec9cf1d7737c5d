//! How a server is installed.
use vstd::prelude::*;
use crate::config::Config;
use crate::error::AppResult;
use crate::paths;
use crate::server::console;
use crate::server::events;
use crate::server::events::{Frame, ServerEvent};
use crate::server::server::{Server, ServerState};
use crate::text;

verus! {

/// What is done to install a server, in this order.
#[derive(Debug, Clone, Copy, PartialEq, Eq, Structural)]
pub enum InstallStep {
    /// stop the process that runs
    Stop,
    /// end all sessions, and fetch the settings from the panel
    Sync,
    /// fetch the script
    Fetch,
    /// write the script to the staging directory
    Stage,
    /// pull the image of the installer
    Pull,
    /// remove an installer that was left behind
    RemoveOld,
    /// make the directories that the installer works on
    Prepare,
    /// make the container of the installer
    Create,
    /// attach to its output
    Attach,
    Start,
    /// wait until it has stopped
    Wait,
    /// remove the container and the staging directory
    Remove,
    /// rewrite the configuration files of the egg
    Configure,
}

/// What follows.
#[derive(Debug, Clone, Copy, PartialEq, Eq, Structural)]
pub enum Install {
    Go(InstallStep),
    /// tell the panel how it went, after what is left over was removed
    Report { successful: bool, clean_up: bool },
    Done,
}

/// The step after one that went well.
pub open spec fn install_after(step: InstallStep, skip: bool) -> Install {
    match step {
        InstallStep::Stop => Install::Go(InstallStep::Sync),
        InstallStep::Sync => if skip {
            Install::Go(InstallStep::Configure)
        } else {
            Install::Go(InstallStep::Fetch)
        },
        InstallStep::Fetch => Install::Go(InstallStep::Stage),
        InstallStep::Stage => Install::Go(InstallStep::Pull),
        InstallStep::Pull => Install::Go(InstallStep::RemoveOld),
        InstallStep::RemoveOld => Install::Go(InstallStep::Prepare),
        InstallStep::Prepare => Install::Go(InstallStep::Create),
        InstallStep::Create => Install::Go(InstallStep::Attach),
        InstallStep::Attach => Install::Go(InstallStep::Start),
        InstallStep::Start => Install::Go(InstallStep::Wait),
        InstallStep::Wait => Install::Go(InstallStep::Remove),
        InstallStep::Remove => Install::Go(InstallStep::Configure),
        InstallStep::Configure => Install::Report { successful: true, clean_up: false },
    }
}

/// Whether an installation goes on although a step failed.
pub open spec fn may_fail(step: InstallStep) -> bool {
    step == InstallStep::Sync || step == InstallStep::Pull || step == InstallStep::Attach || step
        == InstallStep::Wait || step == InstallStep::Configure
}

/// Whether there is an installer to remove once a step has been begun.
pub open spec fn has_installer(step: InstallStep) -> bool {
    match step {
        InstallStep::Prepare | InstallStep::Create | InstallStep::Attach | InstallStep::Start
        | InstallStep::Wait | InstallStep::Remove => true,
        _ => false,
    }
}

/// What follows a step.
pub open spec fn install_next(step: InstallStep, failed: bool, skip: bool) -> Install {
    if failed && !may_fail(step) {
        if step == InstallStep::Stop {
            Install::Done
        } else {
            Install::Report { successful: false, clean_up: has_installer(step) }
        }
    } else {
        install_after(step, skip)
    }
}

/// What listeners are told at a step.
pub open spec fn install_frames(step: InstallStep, error: Option<Seq<char>>, skip: bool) -> Seq<Frame> {
    match (step, error) {
        (InstallStep::Stop, Some(e)) => seq![
            events::message_frame("Installation failed; server could not be stopped: "@ + e),
            ("install completed"@, seq![""@]),
            events::status_frame("offline"@),
        ],
        (InstallStep::Sync, _) => (if skip {
            Seq::empty()
        } else {
            seq![("install started"@, seq![""@])]
        }).push(
            events::message_frame(
                "Starting installation process, this could take a few minutes..."@,
            ),
        ),
        (InstallStep::Stage, None) => seq![
            events::message_frame(
                "Pulling Docker container image, this could take a few minutes to complete..."@,
            ),
        ],
        _ => Seq::empty(),
    }
}

/// What listeners are told at the end.
pub open spec fn outcome_frames(successful: bool) -> Seq<Frame> {
    seq![
        events::message_frame(
            if successful {
                "Installation completed successfully."@
            } else {
                "Installation failed; the panel has been notified."@
            },
        ),
        ("install completed"@, seq![""@]),
        events::status_frame("offline"@),
    ]
}

/// How far an installation is from its end.
pub open spec fn distance(i: Install) -> int {
    match i {
        Install::Done => 0,
        Install::Report { .. } => 1,
        Install::Go(step) => match step {
            InstallStep::Configure => 2,
            InstallStep::Remove => 3,
            InstallStep::Wait => 4,
            InstallStep::Start => 5,
            InstallStep::Attach => 6,
            InstallStep::Create => 7,
            InstallStep::Prepare => 8,
            InstallStep::RemoveOld => 9,
            InstallStep::Pull => 10,
            InstallStep::Stage => 11,
            InstallStep::Fetch => 12,
            InstallStep::Sync => 13,
            InstallStep::Stop => 14,
        },
    }
}

/// Every step of an installation brings it nearer to its end, however the step
/// went.
pub proof fn law_install_comes_to_an_end(step: InstallStep, failed: bool, skip: bool)
    ensures
        0 <= distance(install_next(step, failed, skip)) < distance(Install::Go(step)),
{
}

/// Once its container may have been made, an installation goes on only until it
/// has removed the container, or ends and removes what is left.
pub proof fn law_install_leaves_no_installer(step: InstallStep, failed: bool, skip: bool)
    requires
        has_installer(step),
    ensures
        install_next(step, failed, skip) matches Install::Go(next) ==> has_installer(next) || (step
            == InstallStep::Remove && !failed),
        install_next(step, failed, skip) matches Install::Report { clean_up, .. } ==> clean_up,
        !(install_next(step, failed, skip) is Done),
{
}

impl Server {
    /// Begins an installation, unless there is one already. A process that runs
    /// is stopped first.
    pub fn install(&mut self) -> (r: Option<InstallStep>)
        ensures
            *final(self) == (Server { installing: true, ..*old(self) }),
            r == (if old(self).installing {
                None
            } else if old(self).running() {
                Some(InstallStep::Stop)
            } else {
                Some(InstallStep::Sync)
            }),
    {
        if self.installing {
            return None;
        }
        self.installing = true;
        if self.is_running() {
            Some(InstallStep::Stop)
        } else {
            Some(InstallStep::Sync)
        }
    }

    /// What follows a step of an installation.
    pub fn run_install_script(&mut self, step: InstallStep, outcome: AppResult<()>) -> (r: Install)
        ensures
            r == install_next(step, outcome is Err, old(self).config.skip_egg_scripts),
            final(self).same_but_outbox(
                if r is Done {
                    Server {
                        installing: false,
                        state: ServerState::Offline,
                        ..*old(self)
                    }
                } else {
                    *old(self)
                },
            ),
            final(self).said() == old(self).said() + install_frames(
                step,
                match outcome {
                    Ok(_) => None,
                    Err(e) => Some(e.text()),
                },
                old(self).config.skip_egg_scripts,
            ),
    {
        let ghost before = self.said();
        let ghost skip = self.config.skip_egg_scripts;
        let ghost error = match &outcome {
            Ok(_) => None,
            Err(e) => Some(e.text()),
        };
        let r = match step {
            InstallStep::Stop => match outcome {
                Ok(_) => Install::Go(InstallStep::Sync),
                Err(e) => {
                    self.publish_daemon_message(
                        text::cat(
                            "Installation failed; server could not be stopped: ",
                            e.message().as_str(),
                        ),
                    );
                    self.publish(ServerEvent::InstallCompleted);
                    self.installing = false;
                    self.set_state(ServerState::Offline);
                    Install::Done
                },
            },
            InstallStep::Sync => {
                if !self.config.skip_egg_scripts {
                    self.publish(ServerEvent::InstallStarted);
                }
                self.publish_daemon_message(
                    "Starting installation process, this could take a few minutes...".to_owned(),
                );
                if self.config.skip_egg_scripts {
                    Install::Go(InstallStep::Configure)
                } else {
                    Install::Go(InstallStep::Fetch)
                }
            },
            InstallStep::Fetch => match outcome {
                Ok(_) => Install::Go(InstallStep::Stage),
                Err(_) => Install::Report { successful: false, clean_up: false },
            },
            InstallStep::Stage => match outcome {
                Ok(_) => {
                    self.publish_daemon_message(
                        "Pulling Docker container image, this could take a few minutes to complete...".to_owned(),
                    );
                    Install::Go(InstallStep::Pull)
                },
                Err(_) => Install::Report { successful: false, clean_up: false },
            },
            InstallStep::Pull => Install::Go(InstallStep::RemoveOld),
            InstallStep::RemoveOld => match outcome {
                Ok(_) => Install::Go(InstallStep::Prepare),
                Err(_) => Install::Report { successful: false, clean_up: false },
            },
            InstallStep::Prepare => match outcome {
                Ok(_) => Install::Go(InstallStep::Create),
                Err(_) => Install::Report { successful: false, clean_up: true },
            },
            InstallStep::Create => match outcome {
                Ok(_) => Install::Go(InstallStep::Attach),
                Err(_) => Install::Report { successful: false, clean_up: true },
            },
            InstallStep::Attach => Install::Go(InstallStep::Start),
            InstallStep::Start => match outcome {
                Ok(_) => Install::Go(InstallStep::Wait),
                Err(_) => Install::Report { successful: false, clean_up: true },
            },
            InstallStep::Wait => Install::Go(InstallStep::Remove),
            InstallStep::Remove => match outcome {
                Ok(_) => Install::Go(InstallStep::Configure),
                Err(_) => Install::Report { successful: false, clean_up: true },
            },
            InstallStep::Configure => Install::Report { successful: true, clean_up: false },
        };
        assert(self.said() =~= before + install_frames(step, error, skip));
        r
    }

    /// Ends an installation once the panel has been told: listeners hear how it
    /// went, and the server is offline.
    pub fn installed(&mut self, successful: bool)
        ensures
            final(self).same_but_outbox(
                (Server { installing: false, state: ServerState::Offline, ..*old(self) }),
            ),
            final(self).said() == old(self).said() + outcome_frames(successful),
    {
        let ghost before = self.said();
        if successful {
            self.publish_daemon_message("Installation completed successfully.".to_owned());
        } else {
            self.publish_daemon_message(
                "Installation failed; the panel has been notified.".to_owned(),
            );
        }
        self.publish(ServerEvent::InstallCompleted);
        self.installing = false;
        self.set_state(ServerState::Offline);
        assert(self.said() =~= before + outcome_frames(successful));
    }

    /// Takes what the installer printed: tells listeners, and returns the lines
    /// for the log.
    pub fn stream_install_output(&mut self, bytes: &[u8]) -> (r: Vec<String>)
        ensures
            text::texts(r@) == console::console_lines(bytes@),
            final(self).same_but_outbox(*old(self)),
            final(self).said() == old(self).said() + console::console_lines(bytes@).map_values(
                |l: Seq<char>| ("install output"@, seq![l]),
            ),
    {
        let lines = console::read_lines(bytes);
        let ghost all = text::texts(lines@);
        let ghost shown = |l: Seq<char>| ("install output"@, seq![l]);
        let mut i: usize = 0;
        assert(self.said() + all.take(0).map_values(shown) =~= self.said());
        while i < lines.len()
            invariant
                i <= lines.len(),
                all == text::texts(lines@),
                shown == (|l: Seq<char>| ("install output"@, seq![l])),
                self.said() == old(self).said() + all.take(i as int).map_values(shown),
                self.same_but_outbox(*old(self)),
            decreases lines.len() - i,
        {
            self.publish(ServerEvent::InstallOutput(lines[i].clone()));
            proof {
                assert(all.take(i + 1).map_values(shown) =~= all.take(i as int).map_values(
                    shown,
                ).push(("install output"@, seq![all[i as int]])));
                assert(self.said() =~= old(self).said() + all.take(i + 1).map_values(shown));
            }
            i = i + 1;
        }
        assert(all.take(i as int) =~= all);
        lines
    }

    /// Where the script of an installation is staged: the directory, and the
    /// script in it.
    pub fn staging(&self, daemon: &Config) -> (r: (String, String))
        ensures
            r.0@ == paths::join(daemon.tmp_dir_text(), self.uuid@),
            r.1@ == paths::join(r.0@, "install.sh"@),
    {
        let dir = paths::join_path(daemon.tmp_dir().as_str(), self.uuid.as_str());
        let script = paths::join_path(dir.as_str(), "install.sh");
        (dir, script)
    }

    /// Where the log of an installation is kept.
    pub fn install_log_path(&self, daemon: &Config) -> (r: String)
        ensures
            r@ == paths::join(
                paths::join(daemon.log_dir_text(), "install"@),
                self.uuid@ + ".log"@,
            ),
    {
        paths::join_path(
            paths::join_path(daemon.log_dir().as_str(), "install").as_str(),
            text::cat(self.uuid.as_str(), ".log").as_str(),
        )
    }
}

/// A script as it is staged: with line feeds only.
pub fn normalized_script(script: &str) -> (r: String)
    ensures
        r@ == text::replaced_text(script@, "\r\n"@, "\n"@),
{
    proof {
        reveal_strlit("\r\n");
    }
    text::replace_text(script, "\r\n", "\n")
}

/// The head of the log of an installation.
pub open spec fn log_header(uuid: Seq<char>, image: Seq<char>, entrypoint: Seq<char>) -> Seq<char> {
    "─────────────────────────────────────────────────\nServer UUID: "@ + uuid + "\nImage: "@ + image
        + "\nEntrypoint: "@ + entrypoint + "\n─────────────────────────────────────────────────\n"@
}

/// The head of the log of an installation.
pub fn install_log_header(uuid: &str, image: &str, entrypoint: &str) -> (r: String)
    ensures
        r@ == log_header(uuid@, image@, entrypoint@),
{
    let mut s = "─────────────────────────────────────────────────\nServer UUID: ".to_owned();
    s.append(uuid);
    s.append("\nImage: ");
    s.append(image);
    s.append("\nEntrypoint: ");
    s.append(entrypoint);
    s.append("\n─────────────────────────────────────────────────\n");
    s
}

/// The steps of an installation in order; what does not run the installer goes from
/// fetching the settings straight to writing the configuration.
pub proof fn law_install_goes_step_by_step(skip: bool)
    ensures
        install_next(InstallStep::Stop, false, skip) == Install::Go(InstallStep::Sync),
        install_next(InstallStep::Sync, false, true) == Install::Go(InstallStep::Configure),
        install_next(InstallStep::Sync, false, false) == Install::Go(InstallStep::Fetch),
        install_next(InstallStep::Fetch, false, skip) == Install::Go(InstallStep::Stage),
        install_next(InstallStep::Stage, false, skip) == Install::Go(InstallStep::Pull),
        install_next(InstallStep::Pull, false, skip) == Install::Go(InstallStep::RemoveOld),
        install_next(InstallStep::RemoveOld, false, skip) == Install::Go(InstallStep::Prepare),
        install_next(InstallStep::Prepare, false, skip) == Install::Go(InstallStep::Create),
        install_next(InstallStep::Create, false, skip) == Install::Go(InstallStep::Attach),
        install_next(InstallStep::Attach, false, skip) == Install::Go(InstallStep::Start),
        install_next(InstallStep::Start, false, skip) == Install::Go(InstallStep::Wait),
        install_next(InstallStep::Wait, false, skip) == Install::Go(InstallStep::Remove),
        install_next(InstallStep::Remove, false, skip) == Install::Go(InstallStep::Configure),
{
}

/// An installation is reported as a success after its last step alone, and as a
/// failure where a step fails that it cannot do without. A server that cannot be
/// stopped is not installed, and nothing is reported.
pub proof fn law_install_outcome(step: InstallStep, failed: bool, skip: bool)
    ensures
        install_next(step, failed, skip) matches Install::Report { successful, .. } ==> (
        successful <==> step == InstallStep::Configure),
        install_next(InstallStep::Configure, failed, skip) is Report,
        install_next(step, false, skip) is Report ==> step == InstallStep::Configure,
        install_next(step, failed, skip) is Done <==> step == InstallStep::Stop && failed,
        step == InstallStep::Fetch || step == InstallStep::Stage || step == InstallStep::RemoveOld
            ==> install_next(step, true, skip) == (Install::Report {
            successful: false,
            clean_up: false,
        }),
        step == InstallStep::Prepare || step == InstallStep::Create || step == InstallStep::Start
            || step == InstallStep::Remove ==> install_next(step, true, skip) == (Install::Report {
            successful: false,
            clean_up: true,
        }),
        step == InstallStep::Sync || step == InstallStep::Pull || step == InstallStep::Attach
            || step == InstallStep::Wait || step == InstallStep::Configure ==> install_next(
            step,
            true,
            skip,
        ) == install_next(step, false, skip),
{
}

/// Whether an installation went well or not, listeners are told so, that it is over,
/// and that the server is offline.
pub proof fn law_install_is_told(successful: bool, error: Seq<char>)
    ensures
        outcome_frames(successful).len() == 3,
        outcome_frames(true)[0] == ("daemon message"@, seq!["Installation completed successfully."@]),
        outcome_frames(false)[0] == (
            "daemon message"@,
            seq!["Installation failed; the panel has been notified."@],
        ),
        outcome_frames(successful)[1] == ("install completed"@, seq![""@]),
        outcome_frames(successful)[2] == ("status"@, seq!["offline"@]),
        install_frames(InstallStep::Stop, Some(error), false).len() == 3,
        install_frames(InstallStep::Stop, Some(error), false)[0] == (
            "daemon message"@,
            seq!["Installation failed; server could not be stopped: "@ + error],
        ),
        install_frames(InstallStep::Stop, Some(error), false)[1] == (
            "install completed"@,
            seq![""@],
        ),
        install_frames(InstallStep::Stop, Some(error), false)[2] == ("status"@, seq!["offline"@]),
        install_frames(InstallStep::Sync, None, false)[0] == ("install started"@, seq![""@]),
        install_frames(InstallStep::Sync, None, true).len() == 1,
{
}

/// The log of an installation begins with the server, the image and the entrypoint.
pub proof fn law_logs_begin(uuid: Seq<char>, image: Seq<char>, entrypoint: Seq<char>)
    ensures
        log_header(uuid, image, entrypoint)
            == "─────────────────────────────────────────────────\nServer UUID: "@ + uuid
            + "\nImage: "@ + image + "\nEntrypoint: "@ + entrypoint
            + "\n─────────────────────────────────────────────────\n"@,
{
}

} // verus!
