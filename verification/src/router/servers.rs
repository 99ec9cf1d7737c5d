//! Requests about servers.
use vstd::prelude::*;
use crate::config::Config;
use crate::digest;
use crate::digest::Sha256Sum;
use crate::error::{AppError, AppResult};
use crate::jwt::store;
use crate::jwt::store::TokenStore;
use crate::numbers;
use crate::paths;
use crate::server::events;
use crate::server::events::{Frame, ServerEvent};
use crate::server::server::{Server, ServerState};
use crate::text;

verus! {

// ---------------------------------------------------------------------------
// Power
// ---------------------------------------------------------------------------
/// What can be done to the process of a server.
#[derive(Debug, Clone, Copy, PartialEq, Eq, Structural)]
pub enum PowerOp {
    Start,
    Stop,
    Restart,
    Kill,
}

/// The action of a name.
pub open spec fn power_op(action: Seq<char>) -> Option<PowerOp> {
    if action == "start"@ {
        Some(PowerOp::Start)
    } else if action == "stop"@ {
        Some(PowerOp::Stop)
    } else if action == "restart"@ {
        Some(PowerOp::Restart)
    } else if action == "kill"@ {
        Some(PowerOp::Kill)
    } else {
        None
    }
}

/// The action of a name.
pub fn payload_action(action: &str) -> (r: Option<PowerOp>)
    ensures
        r == power_op(action@),
{
    if text::same(action, "start") {
        Some(PowerOp::Start)
    } else if text::same(action, "stop") {
        Some(PowerOp::Stop)
    } else if text::same(action, "restart") {
        Some(PowerOp::Restart)
    } else if text::same(action, "kill") {
        Some(PowerOp::Kill)
    } else {
        None
    }
}

/// What is done to a server, and how many seconds the lock is waited for: up to
/// five minutes, and half a minute when nothing is said.
pub fn post_server_power(server: &Server, action: &str, wait_seconds: Option<u32>) -> (r: AppResult<
    (PowerOp, u32),
>)
    ensures
        match r {
            Ok((op, wait)) => power_op(action@) == Some(op) && !server.suspended && wait == (
            match wait_seconds {
                Some(w) => if w > 300 {
                    300
                } else {
                    w
                },
                None => 30,
            }),
            Err(e) => if power_op(action@) is None {
                crate::error::is_unprocessable(e, "invalid power action: "@ + action@)
            } else {
                server.suspended && crate::error::is_bad_request(e, "server is suspended"@)
            },
        },
{
    let op = match payload_action(action) {
        Some(op) => op,
        None => {
            return Err(AppError::Unprocessable(text::cat("invalid power action: ", action)));
        },
    };
    if server.suspended {
        return Err(AppError::BadRequest("server is suspended".to_owned()));
    }
    let wait: u32 = match wait_seconds {
        Some(w) => if w > 300 {
            300
        } else {
            w
        },
        None => 30,
    };
    Ok((op, wait))
}

// ---------------------------------------------------------------------------
// Logs
// ---------------------------------------------------------------------------
/// How many lines are shown when nothing is said.
pub fn default_log_size() -> (r: u32)
    ensures
        r == 100,
{
    100
}

/// How many lines are shown: 1 to 100.
pub fn log_size(size: u32) -> (r: u32)
    ensures
        r == (if size < 1 {
            1
        } else if size > 100 {
            100
        } else {
            size
        }),
{
    if size < 1 {
        1
    } else if size > 100 {
        100
    } else {
        size
    }
}

/// The lines of a log, empty ones as well, without carriage returns at their
/// ends.
pub open spec fn log_lines(bytes: Seq<u8>) -> Seq<Seq<char>> {
    text::split_on(text::utf8_lossy(bytes), '\n').map_values(
        |l: Seq<char>| text::trim_end_of(l, '\r'),
    )
}

/// The lines of a log.
pub fn get_server_logs(bytes: &[u8]) -> (r: Vec<String>)
    ensures
        text::texts(r@) == log_lines(bytes@),
{
    let s = text::from_utf8_lossy(bytes);
    let pieces = text::split_str(s.as_str(), '\n');
    let ghost all = text::split_on(text::utf8_lossy(bytes@), '\n');
    let mut out: Vec<String> = Vec::new();
    let mut i: usize = 0;
    while i < pieces.len()
        invariant
            i <= pieces.len(),
            all == text::texts(pieces@),
            all == text::split_on(text::utf8_lossy(bytes@), '\n'),
            text::texts(out@) =~= log_lines(bytes@).take(i as int),
        decreases pieces.len() - i,
    {
        let ghost before = out@;
        let line = text::trimmed_end_of(pieces[i].as_str(), '\r');
        let ghost shown = line@;
        out.push(line);
        assert(text::texts(out@) =~= text::texts(before).push(shown));
        i = i + 1;
    }
    assert(text::texts(out@) =~= log_lines(bytes@));
    out
}

// ---------------------------------------------------------------------------
// Installations
// ---------------------------------------------------------------------------
/// Refuses an installation while there is one.
pub fn post_server_install(server: &Server) -> (r: AppResult<()>)
    ensures
        match r {
            Ok(_) => !server.installing,
            Err(e) => server.installing && crate::error::is_conflict(
                e,
                "server is already installing"@,
            ),
        },
{
    if server.is_installing() {
        Err(AppError::Conflict("server is already installing".to_owned()))
    } else {
        Ok(())
    }
}

/// Refuses a new installation while there is one, or a power action.
pub fn post_server_reinstall(server: &Server, power_locked: bool) -> (r: AppResult<()>)
    ensures
        match r {
            Ok(_) => !server.installing && !power_locked,
            Err(e) => if server.installing {
                crate::error::is_conflict(e, "server is already installing"@)
            } else {
                power_locked && crate::error::is_conflict(
                    e,
                    "a power action is currently in progress"@,
                )
            },
        },
{
    match post_server_install(server) {
        Ok(_) => if power_locked {
            Err(AppError::Conflict("a power action is currently in progress".to_owned()))
        } else {
            Ok(())
        },
        Err(e) => Err(e),
    }
}

// ---------------------------------------------------------------------------
// Revoked tokens
// ---------------------------------------------------------------------------
/// The revocations after those of some sessions.
pub open spec fn denied_all(
    m: Map<Seq<char>, i64>,
    jtis: Seq<Seq<char>>,
    now: i64,
    ttl: int,
) -> Map<Seq<char>, i64>
    decreases jtis.len(),
{
    if jtis.len() == 0 {
        m
    } else {
        store::denied(
            denied_all(m, jtis.drop_last(), now, ttl),
            store::jti_key(jtis.last()),
            now,
            now as int,
            ttl,
        )
    }
}

/// Revokes the tokens of some sessions that were issued before now.
pub fn post_server_deny_ws_tokens(tokens: &mut TokenStore, jtis: &Vec<String>, now: i64)
    ensures
        final(tokens).denied_sessions() == denied_all(
            old(tokens).denied_sessions(),
            text::texts(jtis@),
            now,
            old(tokens).lifetime(),
        ),
        final(tokens).used_ids() == old(tokens).used_ids(),
        final(tokens).denied_users() == old(tokens).denied_users(),
        final(tokens).lifetime() == old(tokens).lifetime(),
{
    let ghost all = text::texts(jtis@);
    let mut i: usize = 0;
    assert(all.take(0) =~= Seq::empty());
    while i < jtis.len()
        invariant
            i <= jtis.len(),
            all == text::texts(jtis@),
            tokens.denied_sessions() == denied_all(
                old(tokens).denied_sessions(),
                all.take(i as int),
                now,
                old(tokens).lifetime(),
            ),
            tokens.used_ids() == old(tokens).used_ids(),
            tokens.denied_users() == old(tokens).denied_users(),
            tokens.lifetime() == old(tokens).lifetime(),
        decreases jtis.len() - i,
    {
        assert(all.take(i + 1).drop_last() =~= all.take(i as int));
        tokens.deny_jti(jtis[i].as_str(), now, now);
        i = i + 1;
    }
    assert(all.take(i as int) =~= all);
}

proof fn lemma_denied_all(
    m: Map<Seq<char>, i64>,
    jtis: Seq<Seq<char>>,
    now: i64,
    ttl: int,
    key: Seq<char>,
)
    requires
        ttl >= 0,
        exists|i: int| 0 <= i < jtis.len() && store::jti_key(#[trigger] jtis[i]) == key,
    ensures
        denied_all(m, jtis, now, ttl).contains_key(key),
        denied_all(m, jtis, now, ttl)[key] == now,
    decreases jtis.len(),
{
    if store::jti_key(jtis.last()) != key {
        let rest = jtis.drop_last();
        let i = choose|i: int| 0 <= i < jtis.len() && store::jti_key(#[trigger] jtis[i]) == key;
        assert(rest[i] == jtis[i]);
        lemma_denied_all(m, rest, now, ttl, key);
    }
}

/// After some sessions were revoked, every token of one of them that was issued
/// before is refused.
pub proof fn law_revoked_sessions_are_refused(
    m: Map<Seq<char>, i64>,
    jtis: Seq<Seq<char>>,
    now: i64,
    ttl: int,
    i: int,
    iat: i64,
)
    requires
        ttl >= 0,
        0 <= i < jtis.len(),
        iat < now,
    ensures
        store::is_denied(denied_all(m, jtis, now, ttl), store::jti_key(jtis[i]), iat),
{
    lemma_denied_all(m, jtis, now, ttl, store::jti_key(jtis[i]));
}

// ---------------------------------------------------------------------------
// Servers that go to other nodes
// ---------------------------------------------------------------------------
/// What is done to move a server to another node, in this order.
#[derive(Debug, Clone, Copy, PartialEq, Eq, Structural)]
pub enum TransferStep {
    /// stop the process
    Stop,
    /// kill it, if it has not stopped
    Kill,
    /// make the directory for the archive
    MakeDirectory,
    /// pack the files
    Archive,
    /// read the archive, for its checksum
    Checksum,
    /// send the archive, and then its checksum
    Send,
    /// remove the archive
    Remove,
}

/// What follows.
#[derive(Debug)]
pub enum Transfer {
    Go(TransferStep),
    /// the request is refused
    Refused(AppError),
    /// the transfer failed, and the panel is told
    Failed,
    /// the other node tells the panel
    Done,
}

/// The step after one that went well.
pub open spec fn transfer_after(step: TransferStep, offline: bool) -> Option<TransferStep> {
    match step {
        TransferStep::Stop => Some(
            if offline {
                TransferStep::MakeDirectory
            } else {
                TransferStep::Kill
            },
        ),
        TransferStep::Kill => Some(TransferStep::MakeDirectory),
        TransferStep::MakeDirectory => Some(TransferStep::Archive),
        TransferStep::Archive => Some(TransferStep::Checksum),
        TransferStep::Checksum => Some(TransferStep::Send),
        TransferStep::Send => Some(TransferStep::Remove),
        TransferStep::Remove => None,
    }
}

/// Whether a transfer goes on although a step failed.
pub open spec fn transfer_survives(step: TransferStep) -> bool {
    step == TransferStep::Kill || step == TransferStep::Remove
}

/// What listeners are told of a transfer that failed.
pub open spec fn transfer_failure(error: Seq<char>) -> Seq<Frame> {
    seq![
        ("transfer status"@, seq!["failure"@]),
        events::message_frame("Transfer failed: "@ + error),
    ]
}

impl Server {
    /// Begins to move a server to another node, unless that is under way. A
    /// server that is not offline is stopped first.
    pub fn post_server_transfer(&mut self) -> (r: AppResult<TransferStep>)
        ensures
            *final(self) == (Server { transferring: true, ..*old(self) }),
            match r {
                Ok(step) => !old(self).transferring && step == (if old(self).state
                    == ServerState::Offline {
                    TransferStep::MakeDirectory
                } else {
                    TransferStep::Stop
                }),
                Err(e) => old(self).transferring && crate::error::is_conflict(
                    e,
                    "A transfer is already in progress for this server."@,
                ),
            },
    {
        if self.transferring {
            return Err(
                AppError::Conflict(
                    "A transfer is already in progress for this server.".to_owned(),
                ),
            );
        }
        self.transferring = true;
        if self.state == ServerState::Offline {
            Ok(TransferStep::MakeDirectory)
        } else {
            Ok(TransferStep::Stop)
        }
    }

    /// What follows a step of a transfer. A server that cannot be stopped is not
    /// moved; when a later step fails, listeners are told. When a transfer is
    /// over, the server is free again.
    pub fn push_archive_to_target(&mut self, step: TransferStep, outcome: AppResult<()>) -> (r: Transfer)
        ensures
            match outcome {
                Err(e) if !transfer_survives(step) => {
                    &&& if step == TransferStep::Stop {
                        &&& r == Transfer::Refused(e)
                        &&& final(self).said() == old(self).said()
                    } else {
                        &&& r == Transfer::Failed
                        &&& final(self).said() == old(self).said() + transfer_failure(e.text())
                    }
                    &&& final(self).same_but_outbox(
                        (Server { transferring: false, ..*old(self) }),
                    )
                },
                _ => {
                    &&& final(self).said() == old(self).said()
                    &&& match transfer_after(step, old(self).state == ServerState::Offline) {
                        Some(next) => r == Transfer::Go(next) && final(self).same_but_outbox(
                            *old(self),
                        ),
                        None => r == Transfer::Done && final(self).same_but_outbox(
                            (Server { transferring: false, ..*old(self) }),
                        ),
                    }
                },
            },
    {
        let ghost before = self.said();
        let failed = match step {
            TransferStep::Kill => None,
            TransferStep::Remove => None,
            _ => match outcome {
                Ok(_) => None,
                Err(e) => Some(e),
            },
        };
        if let Some(e) = failed {
            self.transferring = false;
            if step == TransferStep::Stop {
                return Transfer::Refused(e);
            }
            self.publish(ServerEvent::TransferStatus("failure".to_owned()));
            self.publish_daemon_message(text::cat("Transfer failed: ", e.message().as_str()));
            assert(self.said() =~= before + transfer_failure(e.text()));
            return Transfer::Failed;
        }
        match step {
            TransferStep::Stop => if self.state == ServerState::Offline {
                Transfer::Go(TransferStep::MakeDirectory)
            } else {
                Transfer::Go(TransferStep::Kill)
            },
            TransferStep::Kill => Transfer::Go(TransferStep::MakeDirectory),
            TransferStep::MakeDirectory => Transfer::Go(TransferStep::Archive),
            TransferStep::Archive => Transfer::Go(TransferStep::Checksum),
            TransferStep::Checksum => Transfer::Go(TransferStep::Send),
            TransferStep::Send => Transfer::Go(TransferStep::Remove),
            TransferStep::Remove => {
                self.transferring = false;
                Transfer::Done
            },
        }
    }

    /// Cancels a transfer, if there is one: listeners are told that it failed.
    pub fn delete_server_transfer(&mut self) -> (r: AppResult<()>)
        ensures
            match r {
                Ok(_) => {
                    &&& old(self).transferring
                    &&& final(self).same_but_outbox((Server { transferring: false, ..*old(self) }))
                    &&& final(self).said() == old(self).said().push(
                        ("transfer status"@, seq!["failure"@]),
                    )
                },
                Err(e) => !old(self).transferring && *final(self) == *old(self)
                    && crate::error::is_conflict(e, "Server is not currently being transferred."@),
            },
    {
        if !self.transferring {
            return Err(
                AppError::Conflict("Server is not currently being transferred.".to_owned()),
            );
        }
        self.transferring = false;
        self.publish(ServerEvent::TransferStatus("failure".to_owned()));
        Ok(())
    }

    /// Where the archive of a server that goes, and of one that comes, is kept
    /// meanwhile.
    pub fn transfer_paths(&self, daemon: &Config) -> (r: (String, String))
        ensures
            r.0@ == paths::join(daemon.tmp_dir_text(), self.uuid@ + ".outgoing.tar.gz"@),
            r.1@ == paths::join(daemon.tmp_dir_text(), self.uuid@ + ".transfer.tar.gz"@),
    {
        let tmp = daemon.tmp_dir();
        (
            paths::join_path(
                tmp.as_str(),
                text::cat(self.uuid.as_str(), ".outgoing.tar.gz").as_str(),
            ),
            paths::join_path(
                tmp.as_str(),
                text::cat(self.uuid.as_str(), ".transfer.tar.gz").as_str(),
            ),
        )
    }
}

/// The checksum that is sent behind an archive.
pub fn transfer_checksum(hash: Sha256Sum) -> (r: String)
    ensures
        r@ == numbers::hex_bytes(digest::sha256_digest(digest::sha256_fed(hash))),
{
    hash.finish()
}

/// Refuses the answer of the other node that is not a success.
pub fn check_destination(status: u16, status_text: &str) -> (r: AppResult<()>)
    ensures
        match r {
            Ok(_) => 200 <= status < 300,
            Err(AppError::Internal(m)) => !(200 <= status < 300) && m@
                == "unexpected status code from destination: "@ + status_text@,
            Err(_) => false,
        },
{
    if 200 <= status && status < 300 {
        Ok(())
    } else {
        Err(
            AppError::Internal(
                text::cat("unexpected status code from destination: ", status_text),
            ),
        )
    }
}

proof fn lemma_hex_is_solid(bytes: Seq<u8>)
    ensures
        forall|i: int|
            0 <= i < numbers::hex_bytes(bytes).len() ==> !text::is_space(
                #[trigger] numbers::hex_bytes(bytes)[i],
            ),
    decreases bytes.len(),
{
    if bytes.len() > 0 {
        let rest = numbers::hex_bytes(bytes.drop_last());
        let h = numbers::hex_digit(bytes.last() as int / 16);
        let l = numbers::hex_digit(bytes.last() as int % 16);
        lemma_hex_is_solid(bytes.drop_last());
        assert(!text::is_space(h) && !text::is_space(l)) by {
            assert(48 <= h as u32 <= 57 || 97 <= h as u32 <= 102);
            assert(48 <= l as u32 <= 57 || 97 <= l as u32 <= 102);
        }
        assert forall|i: int| 0 <= i < rest.push(h).push(l).len() implies !text::is_space(
            #[trigger] rest.push(h).push(l)[i],
        ) by {
            if i < rest.len() {
                assert(rest.push(h).push(l)[i] == rest[i]);
            }
        }
    }
}

/// The checksum that one node sends is the one that the other compares: nothing
/// is lost when white space around it is dropped.
pub proof fn law_sent_checksum_is_compared(archive: Seq<u8>)
    ensures
        ({
            let sum = numbers::hex_bytes(digest::sha256_digest(archive));
            text::trim(sum) == sum
        }),
{
    let sum = numbers::hex_bytes(digest::sha256_digest(archive));
    lemma_hex_is_solid(digest::sha256_digest(archive));
    if sum.len() > 0 {
        assert(!text::is_space(sum[0]));
        assert(!text::is_space(sum[sum.len() - 1]));
    }
}

/// The actions by their names; no other name is one.
pub proof fn law_actions_by_name(action: Seq<char>)
    ensures
        power_op("start"@) == Some(PowerOp::Start),
        power_op("stop"@) == Some(PowerOp::Stop),
        power_op("restart"@) == Some(PowerOp::Restart),
        power_op("kill"@) == Some(PowerOp::Kill),
        action != "start"@ && action != "stop"@ && action != "restart"@ && action != "kill"@
            ==> power_op(action) is None,
{
    reveal_strlit("start");
    reveal_strlit("stop");
    reveal_strlit("restart");
    reveal_strlit("kill");
    assert("start"@.len() == 5 && "stop"@.len() == 4 && "restart"@.len() == 7 && "kill"@.len()
        == 4);
    assert("stop"@[0] != "kill"@[0]);
}

/// The lines of a log are what stands between its line feeds, without carriage returns.
pub proof fn law_lines_of_logs(bytes: Seq<u8>, i: int)
    requires
        0 <= i < log_lines(bytes).len(),
    ensures
        log_lines(bytes).len() == text::split_on(text::utf8_lossy(bytes), '\n').len(),
        log_lines(bytes)[i] == text::trim_end_of(
            text::split_on(text::utf8_lossy(bytes), '\n')[i],
            '\r',
        ),
{
}

/// A server that is moved is stopped, killed if that does not help, packed, and sent
/// with a checksum; what was packed is removed at the end.
pub proof fn law_transfers_go_step_by_step(offline: bool)
    ensures
        transfer_after(TransferStep::Stop, true) == Some(TransferStep::MakeDirectory),
        transfer_after(TransferStep::Stop, false) == Some(TransferStep::Kill),
        transfer_after(TransferStep::Kill, offline) == Some(TransferStep::MakeDirectory),
        transfer_after(TransferStep::MakeDirectory, offline) == Some(TransferStep::Archive),
        transfer_after(TransferStep::Archive, offline) == Some(TransferStep::Checksum),
        transfer_after(TransferStep::Checksum, offline) == Some(TransferStep::Send),
        transfer_after(TransferStep::Send, offline) == Some(TransferStep::Remove),
        transfer_after(TransferStep::Remove, offline) is None,
        transfer_survives(TransferStep::Kill) && transfer_survives(TransferStep::Remove),
        !transfer_survives(TransferStep::Stop) && !transfer_survives(TransferStep::MakeDirectory)
            && !transfer_survives(TransferStep::Archive) && !transfer_survives(
            TransferStep::Checksum,
        ) && !transfer_survives(TransferStep::Send),
{
}

/// Listeners are told of a transfer that failed, and why.
pub proof fn law_failed_transfers_are_told(error: Seq<char>)
    ensures
        transfer_failure(error) == seq![
            ("transfer status"@, seq!["failure"@]),
            ("daemon message"@, seq!["Transfer failed: "@ + error]),
        ],
{
}

} // verus!
