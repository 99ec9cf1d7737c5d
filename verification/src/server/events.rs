//! What a server tells its listeners.
use vstd::prelude::*;
use crate::models::resource::ResourceUsage;
use crate::text;

verus! {

/// What a server tells everyone who listens.
#[derive(Debug, Clone)]
pub enum ServerEvent {
    /// one line of the console
    ConsoleOutput(String),
    /// "starting", "running", "stopping" or "offline"
    Status(String),
    Stats(ResourceUsage),
    /// one line of an installation
    InstallOutput(String),
    InstallStarted,
    InstallCompleted,
    /// a message of the daemon to the users
    DaemonMessage(String),
    /// a finished backup, as JSON
    BackupCompleted(String),
    BackupRestoreCompleted(String),
    Deleted,
    TransferStatus(String),
}

/// What a listener gets: the name of the event and its arguments.
pub type Frame = (Seq<char>, Seq<Seq<char>>);

/// What listeners get of some events.
pub open spec fn frames(v: Seq<ServerEvent>) -> Seq<Frame> {
    v.map_values(|e: ServerEvent| e.frame())
}

/// A change of state, as listeners get it.
pub open spec fn status_frame(state: Seq<char>) -> Frame {
    ("status"@, seq![state])
}

/// A message of the daemon, as listeners get it.
pub open spec fn message_frame(message: Seq<char>) -> Frame {
    ("daemon message"@, seq![message])
}

/// A line of the console, as listeners get it.
pub open spec fn console_frame(line: Seq<char>) -> Frame {
    ("console output"@, seq![line])
}

impl ServerEvent {
    /// What a listener gets of the event.
    pub open spec fn frame(&self) -> Frame {
        match self {
            ServerEvent::ConsoleOutput(line) => console_frame(line@),
            ServerEvent::Status(state) => status_frame(state@),
            ServerEvent::Stats(usage) => ("stats"@, seq![usage.json()]),
            ServerEvent::InstallOutput(line) => ("install output"@, seq![line@]),
            ServerEvent::InstallStarted => ("install started"@, seq![""@]),
            ServerEvent::InstallCompleted => ("install completed"@, seq![""@]),
            ServerEvent::DaemonMessage(message) => message_frame(message@),
            ServerEvent::BackupCompleted(payload) => ("backup completed"@, seq![payload@]),
            ServerEvent::BackupRestoreCompleted(payload) => (
                "backup restore completed"@,
                seq![payload@],
            ),
            ServerEvent::Deleted => ("server deleted"@, seq![""@]),
            ServerEvent::TransferStatus(state) => ("transfer status"@, seq![state@]),
        }
    }

    /// What a listener must be permitted to do to get the event.
    pub open spec fn permission(&self) -> Option<Seq<char>> {
        match self {
            ServerEvent::InstallOutput(_) | ServerEvent::InstallStarted
            | ServerEvent::InstallCompleted => Some("admin.websocket.install"@),
            ServerEvent::BackupCompleted(_) | ServerEvent::BackupRestoreCompleted(_) => Some(
                "backup.read"@,
            ),
            _ => None,
        }
    }

    /// The name of the event.
    pub fn event_name(&self) -> (r: &'static str)
        ensures
            r@ == self.frame().0,
    {
        match self {
            ServerEvent::ConsoleOutput(_) => "console output",
            ServerEvent::Status(_) => "status",
            ServerEvent::Stats(_) => "stats",
            ServerEvent::InstallOutput(_) => "install output",
            ServerEvent::InstallStarted => "install started",
            ServerEvent::InstallCompleted => "install completed",
            ServerEvent::DaemonMessage(_) => "daemon message",
            ServerEvent::BackupCompleted(_) => "backup completed",
            ServerEvent::BackupRestoreCompleted(_) => "backup restore completed",
            ServerEvent::Deleted => "server deleted",
            ServerEvent::TransferStatus(_) => "transfer status",
        }
    }

    /// The arguments of the event.
    pub fn args(&self) -> (r: Vec<String>)
        ensures
            text::texts(r@) == self.frame().1,
    {
        let one = match self {
            ServerEvent::ConsoleOutput(s) => s.clone(),
            ServerEvent::InstallOutput(s) => s.clone(),
            ServerEvent::Status(s) => s.clone(),
            ServerEvent::Stats(usage) => usage.to_json(),
            ServerEvent::InstallStarted => "".to_owned(),
            ServerEvent::InstallCompleted => "".to_owned(),
            ServerEvent::DaemonMessage(s) => s.clone(),
            ServerEvent::BackupCompleted(s) => s.clone(),
            ServerEvent::BackupRestoreCompleted(s) => s.clone(),
            ServerEvent::Deleted => "".to_owned(),
            ServerEvent::TransferStatus(s) => s.clone(),
        };
        let mut v: Vec<String> = Vec::new();
        v.push(one);
        assert(text::texts(v@) =~= self.frame().1);
        v
    }

    /// What a listener must be permitted to do to get the event, if anything.
    pub fn required_permission(&self) -> (r: Option<&'static str>)
        ensures
            match r {
                Some(p) => self.permission() == Some(p@),
                None => self.permission() is None,
            },
    {
        match self {
            ServerEvent::InstallOutput(_) => Some("admin.websocket.install"),
            ServerEvent::InstallStarted => Some("admin.websocket.install"),
            ServerEvent::InstallCompleted => Some("admin.websocket.install"),
            ServerEvent::BackupCompleted(_) => Some("backup.read"),
            ServerEvent::BackupRestoreCompleted(_) => Some("backup.read"),
            _ => None,
        }
    }
}

/// What listeners get of each event.
pub proof fn law_what_listeners_get(s: String, usage: ResourceUsage)
    ensures
        ServerEvent::ConsoleOutput(s).frame() == ("console output"@, seq![s@]),
        ServerEvent::Status(s).frame() == ("status"@, seq![s@]),
        ServerEvent::Stats(usage).frame() == ("stats"@, seq![usage.json()]),
        ServerEvent::InstallOutput(s).frame() == ("install output"@, seq![s@]),
        ServerEvent::InstallStarted.frame() == ("install started"@, seq![""@]),
        ServerEvent::InstallCompleted.frame() == ("install completed"@, seq![""@]),
        ServerEvent::DaemonMessage(s).frame() == ("daemon message"@, seq![s@]),
        ServerEvent::BackupCompleted(s).frame() == ("backup completed"@, seq![s@]),
        ServerEvent::BackupRestoreCompleted(s).frame() == ("backup restore completed"@, seq![s@]),
        ServerEvent::Deleted.frame() == ("server deleted"@, seq![""@]),
        ServerEvent::TransferStatus(s).frame() == ("transfer status"@, seq![s@]),
{
}

} // verus!
