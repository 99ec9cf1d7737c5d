//! Backups that are restored: from where, and what follows.
use vstd::prelude::*;
use crate::config::Config;
use crate::error::{AppError, AppResult};
use crate::json;
use crate::json::{Doc, Json};
use crate::net;
use crate::net::Ip;
use crate::paths;
use crate::router::backups::Adapter;
use crate::server::events;
use crate::server::events::{Frame, ServerEvent};
use crate::server::files;
use crate::server::server::Server;
use crate::text;

verus! {

// ---------------------------------------------------------------------------
// Links
// ---------------------------------------------------------------------------
/// The scheme, the host and the port of a URL, if it is one (`url::Url::parse`,
/// then `scheme`, `host_str` and `port_or_known_default`).
pub uninterp spec fn url_parts(raw: Seq<char>) -> Option<(Seq<char>, Seq<char>, Option<u16>)>;

/// Parses a URL (`url::Url::parse`) and reads its scheme, its host, which may be
/// empty, and its port. They depend on the text alone.
#[verifier::external_body]
pub(crate) fn parse_url(raw: &str) -> (r: Option<(String, String, Option<u16>)>)
    ensures
        match r {
            Some((scheme, host, port)) => url_parts(raw@) == Some((scheme@, host@, port)),
            None => url_parts(raw@) is None,
        },
{
    let u = url::Url::parse(raw).ok()?;
    let host = u.host_str().unwrap_or_default().to_string();
    Some((u.scheme().to_string(), host, u.port_or_known_default()))
}

/// What is wrong with a link, by its parts.
pub open spec fn link_fault(parts: Option<(Seq<char>, Seq<char>, Option<u16>)>) -> Option<Seq<char>> {
    match parts {
        None => Some("The provided backup link is not a valid URL."@),
        Some((scheme, host, _)) => if host.len() == 0 {
            Some("The provided backup link is not a valid URL."@)
        } else if scheme != "http"@ && scheme != "https"@ {
            Some("The provided backup link must use HTTP or HTTPS."@)
        } else {
            None
        },
    }
}

/// Refuses a link that is no URL, or neither HTTP nor HTTPS. Returns the host and
/// the port whose addresses are looked up.
pub fn check_link(raw: &str) -> (r: Result<(String, u16), String>)
    ensures
        match r {
            Ok((host, port)) => link_fault(url_parts(raw@)) is None && (url_parts(raw@) matches Some(
                p,
            ) && host@ == p.1 && port == (match p.2 {
                Some(n) => n,
                None => 80u16,
            })),
            Err(m) => link_fault(url_parts(raw@)) == Some(m@),
        },
{
    check_parts(parse_url(raw))
}

/// Refuses the parts of a link that are none of a web address.
pub fn check_parts(parts: Option<(String, String, Option<u16>)>) -> (r: Result<
    (String, u16),
    String,
>)
    ensures
        ({
            let seen = match parts {
                Some((s, h, p)) => Some((s@, h@, p)),
                None => None,
            };
            match r {
                Ok((host, port)) => link_fault(seen) is None && (seen matches Some(p) && host@ == p.1
                    && port == (match p.2 {
                    Some(n) => n,
                    None => 80u16,
                })),
                Err(m) => link_fault(seen) == Some(m@),
            }
        }),
{
    match parts {
        None => Err("The provided backup link is not a valid URL.".to_owned()),
        Some((scheme, host, port)) => {
            if host.as_str().is_empty() {
                return Err("The provided backup link is not a valid URL.".to_owned());
            }
            if !text::same(scheme.as_str(), "http") && !text::same(scheme.as_str(), "https") {
                return Err("The provided backup link must use HTTP or HTTPS.".to_owned());
            }
            let p: u16 = match port {
                Some(n) => n,
                None => 80,
            };
            Ok((host, p))
        },
    }
}

// ---------------------------------------------------------------------------
// Addresses
// ---------------------------------------------------------------------------
/// Loopback addresses.
pub open spec fn loopback(ip: Ip) -> bool {
    match ip {
        Ip::V4(a, _, _, _) => a == 127,
        Ip::V6(s, t, u, v, w, x, y, z) => s == 0 && t == 0 && u == 0 && v == 0 && w == 0 && x == 0
            && y == 0 && z == 1,
    }
}

/// The address that stands for none.
pub open spec fn unspecified(ip: Ip) -> bool {
    match ip {
        Ip::V4(a, b, c, d) => a == 0 && b == 0 && c == 0 && d == 0,
        Ip::V6(s, t, u, v, w, x, y, z) => s == 0 && t == 0 && u == 0 && v == 0 && w == 0 && x == 0
            && y == 0 && z == 0,
    }
}

/// Addresses of groups.
pub open spec fn multicast(ip: Ip) -> bool {
    match ip {
        Ip::V4(a, _, _, _) => 224 <= a <= 239,
        Ip::V6(s, _, _, _, _, _, _, _) => s >= 0xff00,
    }
}

/// Private addresses, and those that a carrier shares among its customers.
pub open spec fn private_addr(ip: Ip) -> bool {
    match ip {
        Ip::V4(a, b, _, _) => a == 10 || (a == 172 && 16 <= b <= 31) || (a == 192 && b == 168) || (a
            == 100 && 64 <= b <= 127),
        Ip::V6(s, _, _, _, _, _, _, _) => 0xfc00 <= s <= 0xfdff || 0xfe80 <= s <= 0xfebf
            || loopback(ip),
    }
}

/// Addresses that are only good on one link.
pub open spec fn link_local(ip: Ip) -> bool {
    match ip {
        Ip::V4(a, b, _, _) => a == 169 && b == 254,
        Ip::V6(s, _, _, _, _, _, _, _) => 0xfe80 <= s <= 0xfebf,
    }
}

/// Addresses that nothing is restored from.
pub open spec fn local(ip: Ip) -> bool {
    loopback(ip) || unspecified(ip) || multicast(ip) || private_addr(ip) || link_local(ip)
}

/// Private addresses, and those that a carrier shares among its customers.
pub fn is_private_addr(ip: Ip) -> (r: bool)
    ensures
        r == private_addr(ip),
{
    match ip {
        Ip::V4(a, b, _, _) => a == 10 || (a == 172 && 16 <= b && b <= 31) || (a == 192 && b == 168)
            || (a == 100 && 64 <= b && b <= 127),
        Ip::V6(s, t, u, v, w, x, y, z) => (0xfc00 <= s && s <= 0xfdff) || (0xfe80 <= s && s
            <= 0xfebf) || (s == 0 && t == 0 && u == 0 && v == 0 && w == 0 && x == 0 && y == 0 && z
            == 1),
    }
}

/// Addresses that are only good on one link.
pub fn is_link_local_addr(ip: Ip) -> (r: bool)
    ensures
        r == link_local(ip),
{
    match ip {
        Ip::V4(a, b, _, _) => a == 169 && b == 254,
        Ip::V6(s, _, _, _, _, _, _, _) => 0xfe80 <= s && s <= 0xfebf,
    }
}

fn is_local(ip: Ip) -> (r: bool)
    ensures
        r == local(ip),
{
    let special = match ip {
        Ip::V4(a, b, c, d) => a == 127 || (a == 0 && b == 0 && c == 0 && d == 0) || (224 <= a && a
            <= 239),
        Ip::V6(s, t, u, v, w, x, y, z) => (s == 0 && t == 0 && u == 0 && v == 0 && w == 0 && x == 0
            && y == 0 && z <= 1) || s >= 0xff00,
    };
    special || is_private_addr(ip) || is_link_local_addr(ip)
}

/// Whether an entry of the list of allowed hosts allows an address of a host:
/// it is the name of the host, the address itself, or a network that holds it.
/// `parsed` is the address that the entry is, if it is one.
pub open spec fn entry_allows(entry: Seq<char>, parsed: Option<Ip>, host: Seq<char>, ip: Ip) -> bool {
    let e = text::trim(entry);
    e.len() > 0 && (text::lower(e) == text::lower(host) || parsed == Some(ip) || net::network_holds(
        e,
        net::alone(ip),
    ))
}

/// Whether some entry allows an address of a host.
pub open spec fn listed(list: Seq<(String, Option<Ip>)>, host: Seq<char>, ip: Ip) -> bool {
    exists|i: int|
        0 <= i < list.len() && entry_allows((#[trigger] list[i]).0@, list[i].1, host, ip)
}

/// Whether nothing may be restored from an address of a host.
pub open spec fn blocked(list: Seq<(String, Option<Ip>)>, host: Seq<char>, ip: Ip) -> bool {
    local(ip) && !listed(list, host, ip)
}

/// Whether nothing may be restored from an address of a host: it is a local one,
/// and no entry of the list allows it.
pub fn is_blocked_backup_restore_ip(host: &str, ip: Ip, list: &Vec<(String, Option<Ip>)>) -> (r:
    bool)
    ensures
        r == blocked(list@, host@, ip),
{
    let name = text::lowered(host);
    let me = net::network_of(ip);
    let mut i: usize = 0;
    while i < list.len()
        invariant
            i <= list.len(),
            name@ == text::lower(host@),
            me@ == net::alone(ip),
            forall|j: int|
                0 <= j < i ==> !entry_allows((#[trigger] list@[j]).0@, list@[j].1, host@, ip),
        decreases list.len() - i,
    {
        let e = text::trimmed(list[i].0.as_str());
        if !e.as_str().is_empty() {
            let same_ip = match list[i].1 {
                Some(a) => a == ip,
                None => false,
            };
            if text::same(text::lowered(e.as_str()).as_str(), name.as_str()) || same_ip
                || net::holds(e.as_str(), me.as_str()) {
                assert(entry_allows(list@[i as int].0@, list@[i as int].1, host@, ip));
                return false;
            }
        }
        i = i + 1;
    }
    is_local(ip)
}

/// Whether some address of a host is blocked.
pub open spec fn any_blocked(list: Seq<(String, Option<Ip>)>, host: Seq<char>, ips: Seq<Ip>) -> bool {
    exists|i: int| 0 <= i < ips.len() && blocked(list, host, #[trigger] ips[i])
}

/// Whether some address of a host is blocked.
pub fn resolves_to_blocked(host: &str, ips: &Vec<Ip>, list: &Vec<(String, Option<Ip>)>) -> (r: bool)
    ensures
        r == any_blocked(list@, host@, ips@),
{
    let mut i: usize = 0;
    while i < ips.len()
        invariant
            i <= ips.len(),
            forall|j: int| 0 <= j < i ==> !blocked(list@, host@, #[trigger] ips@[j]),
        decreases ips.len() - i,
    {
        if is_blocked_backup_restore_ip(host, ips[i], list) {
            assert(blocked(list@, host@, ips@[i as int]));
            return true;
        }
        i = i + 1;
    }
    false
}

/// Refuses a host that could not be looked up, or one of whose addresses is
/// blocked.
pub fn validate_backup_download_url(
    host: &str,
    ips: Option<&Vec<Ip>>,
    list: &Vec<(String, Option<Ip>)>,
) -> (r: Result<(), String>)
    ensures
        match r {
            Ok(_) => ips matches Some(v) && !any_blocked(list@, host@, v@),
            Err(m) => match ips {
                None => m@ == "The provided backup link could not be resolved."@,
                Some(v) => any_blocked(list@, host@, v@) && m@
                    == "The provided backup link resolves to a blocked address."@,
            },
        },
{
    match ips {
        None => Err("The provided backup link could not be resolved.".to_owned()),
        Some(v) => if resolves_to_blocked(host, v, list) {
            Err("The provided backup link resolves to a blocked address.".to_owned())
        } else {
            Ok(())
        },
    }
}

/// Whether a redirect is followed: to a host that has a name, can be looked up,
/// and has no blocked address.
pub fn follows_redirect(host: &str, ips: Option<&Vec<Ip>>, list: &Vec<(String, Option<Ip>)>) -> (r:
    bool)
    ensures
        r == (host@.len() > 0 && (ips matches Some(v) && !any_blocked(list@, host@, v@))),
{
    if host.is_empty() {
        return false;
    }
    match ips {
        None => false,
        Some(v) => !resolves_to_blocked(host, v, list),
    }
}

/// Without a list of allowed hosts nothing is restored from a local address.
pub proof fn law_local_addresses_are_blocked(host: Seq<char>, ips: Seq<Ip>, i: int)
    requires
        0 <= i < ips.len(),
        local(ips[i]),
    ensures
        any_blocked(Seq::empty(), host, ips),
{
    assert(blocked(Seq::empty(), host, ips[i]));
}

// ---------------------------------------------------------------------------
// What is restored
// ---------------------------------------------------------------------------
/// Whether the type of a response is one of an archive.
pub open spec fn is_archive_type(value: Seq<char>) -> bool {
    let media = files::lowercase(text::trim(text::split_on(value, ';')[0]));
    media == "application/x-gzip"@ || media == "application/gzip"@
}

/// Whether the type of a response is one of an archive.
pub fn is_supported_backup_restore_content_type(value: &str) -> (r: bool)
    ensures
        r == is_archive_type(value@),
{
    let parts = text::split_str(value, ';');
    proof {
        text::lemma_split_nonempty(value@, ';');
        assert(text::texts(parts@).len() == parts@.len());
        assert(text::texts(parts@)[0] == parts@[0]@);
    }
    let media = files::to_lowercase(text::trimmed(parts[0].as_str()).as_str());
    text::same(media.as_str(), "application/x-gzip") || text::same(
        media.as_str(),
        "application/gzip",
    )
}

/// Refuses to restore from an unknown place, or from S3 without a link.
pub fn restore_backup(adapter: &str, download_url: &str) -> (r: AppResult<Adapter>)
    ensures
        match r {
            Ok(Adapter::Wings) => adapter@ == "wings"@,
            Ok(Adapter::S3) => adapter@ == "s3"@ && download_url@.len() > 0,
            Err(e) => if adapter@ == "s3"@ {
                download_url@.len() == 0 && crate::error::is_bad_request(
                    e,
                    "The download_url field is required when the backup adapter is set to S3."@,
                )
            } else {
                adapter@ != "wings"@ && crate::error::is_bad_request(
                    e,
                    "invalid backup adapter: "@ + adapter@ + " (expected \"wings\" or \"s3\")"@,
                )
            },
        },
{
    proof {
        reveal_strlit("wings");
        reveal_strlit("s3");
    }
    if text::same(adapter, "wings") {
        return Ok(Adapter::Wings);
    }
    if text::same(adapter, "s3") {
        if download_url.is_empty() {
            return Err(
                AppError::BadRequest(
                    "The download_url field is required when the backup adapter is set to S3.".to_owned(),
                ),
            );
        }
        return Ok(Adapter::S3);
    }
    Err(
        AppError::BadRequest(
            text::cat3(
                "invalid backup adapter: ",
                adapter,
                " (expected \"wings\" or \"s3\")",
            ),
        ),
    )
}

/// What a download that failed is called.
#[derive(Debug, Clone, Copy, PartialEq, Eq, Structural)]
pub enum DownloadFault {
    /// too many redirects, or one that is not followed
    Redirect,
    Timeout,
    Other,
}

/// Why the archive could not be downloaded.
pub fn download_fault(fault: DownloadFault, reason: &str) -> (r: String)
    ensures
        r@ == (match fault {
            DownloadFault::Redirect => "The provided backup link redirects too many times."@,
            DownloadFault::Timeout => "The provided backup link timed out."@,
            DownloadFault::Other => "The provided backup link returned an invalid response: "@
                + reason@,
        }),
{
    match fault {
        DownloadFault::Redirect => "The provided backup link redirects too many times.".to_owned(),
        DownloadFault::Timeout => "The provided backup link timed out.".to_owned(),
        DownloadFault::Other => text::cat(
            "The provided backup link returned an invalid response: ",
            reason,
        ),
    }
}

/// Refuses a response that is not a success, or not an archive.
pub fn check_download(status: u16, status_text: &str, content_type: &str) -> (r: Result<(), String>)
    ensures
        match r {
            Ok(_) => status == 200 && is_archive_type(content_type@),
            Err(m) => if status != 200 {
                m@ == "The provided backup link returned an invalid response status: "@
                    + status_text@
            } else {
                !is_archive_type(content_type@) && m@
                    == "The provided backup link is not a supported content type. \""@
                    + content_type@ + "\" is not application/x-gzip."@
            },
        },
{
    if status != 200 {
        return Err(
            text::cat(
                "The provided backup link returned an invalid response status: ",
                status_text,
            ),
        );
    }
    if !is_supported_backup_restore_content_type(content_type) {
        return Err(
            text::cat3(
                "The provided backup link is not a supported content type. \"",
                content_type,
                "\" is not application/x-gzip.",
            ),
        );
    }
    Ok(())
}

/// Whether the archive of a backup is on this node.
pub fn find_archive(backup: &str, exists: bool) -> (r: Result<(), String>)
    ensures
        match r {
            Ok(_) => exists,
            Err(m) => !exists && m@ == "backup "@ + backup@ + " does not exist on this node"@,
        },
{
    if exists {
        Ok(())
    } else {
        Err(text::cat3("backup ", backup, " does not exist on this node"))
    }
}

/// Where a download is put until it is unpacked.
pub fn download_path(daemon: &Config, backup: &str) -> (r: String)
    ensures
        r@ == paths::join(daemon.tmp_dir_text(), "restore-"@ + backup@ + ".tar.gz"@),
{
    paths::join_path(
        daemon.tmp_dir().as_str(),
        text::cat3("restore-", backup, ".tar.gz").as_str(),
    )
}

/// What is done to restore a backup, in this order.
#[derive(Debug, Clone, Copy, PartialEq, Eq, Structural)]
pub enum RestoreStep {
    /// stop the process that runs
    Stop,
    /// see that the archive is on this node
    Find,
    /// remove all files of the server
    Truncate,
    /// fetch the archive from its link
    Download,
    Unpack,
}

/// What follows.
#[derive(Debug)]
pub enum Restored {
    Go(RestoreStep),
    /// tell the panel how it went
    Report(bool),
}

/// The first step once the server stands still.
pub open spec fn after_stop(adapter: Adapter, truncate: bool) -> RestoreStep {
    match adapter {
        Adapter::Wings => RestoreStep::Find,
        Adapter::S3 => if truncate {
            RestoreStep::Truncate
        } else {
            RestoreStep::Download
        },
    }
}

/// The step after one that went well.
pub open spec fn restore_after(step: RestoreStep, adapter: Adapter, truncate: bool) -> Option<RestoreStep> {
    match step {
        RestoreStep::Stop => Some(after_stop(adapter, truncate)),
        RestoreStep::Find => if truncate {
            Some(RestoreStep::Truncate)
        } else {
            Some(RestoreStep::Unpack)
        },
        RestoreStep::Truncate => match adapter {
            Adapter::Wings => Some(RestoreStep::Unpack),
            Adapter::S3 => Some(RestoreStep::Download),
        },
        RestoreStep::Download => Some(RestoreStep::Unpack),
        RestoreStep::Unpack => None,
    }
}

/// The event that ends a restore, as listeners get it.
pub open spec fn restored_frame(backup: Seq<char>, successful: bool) -> Frame {
    (
        "backup restore completed"@,
        seq![json::compact(Doc::Object(seq![
            ("successful"@, Doc::Bool(successful)),
            ("uuid"@, Doc::Str(backup)),
        ]))],
    )
}

fn restored_payload(backup: &str, successful: bool) -> (r: String)
    ensures
        r@ == restored_frame(backup@, successful).1[0],
{
    let mut m: Vec<(String, Json)> = Vec::new();
    m.push(("successful".to_owned(), Json::Bool(successful)));
    m.push(("uuid".to_owned(), Json::Str(backup.to_owned())));
    let all = Json::Object(m);
    proof {
        json::lemma_doc_object(m);
        assert(json::members(m@) =~= seq![
            ("successful"@, Doc::Bool(successful)),
            ("uuid"@, Doc::Str(backup@)),
        ]);
    }
    all.compact_text()
}

/// What listeners are told at the end.
pub open spec fn end_frames(backup: Seq<char>, error: Option<Seq<char>>) -> Seq<Frame> {
    seq![
        events::message_frame(
            match error {
                Some(e) => "(restoring): failed: "@ + e,
                None => "(restoring): completed"@,
            },
        ),
        restored_frame(backup, error is None),
    ]
}

pub open spec fn error_text(outcome: Result<(), String>) -> Option<Seq<char>> {
    match outcome {
        Ok(_) => None,
        Err(e) => Some(e@),
    }
}

impl Server {
    /// Begins to restore a backup. A process that runs is stopped first.
    pub fn begin_restore(&mut self, adapter: Adapter, truncate: bool) -> (r: RestoreStep)
        ensures
            final(self).said() == old(self).said().push(
                events::message_frame("(restoring): backup selected; stopping server..."@),
            ),
            r == (if old(self).running() {
                RestoreStep::Stop
            } else {
                after_stop(adapter, truncate)
            }),
            final(self).same_but_outbox(
                (Server {
                    restoring: old(self).restoring || !old(self).running(),
                    ..*old(self)
                }),
            ),
    {
        self.publish_daemon_message(
            "(restoring): backup selected; stopping server...".to_owned(),
        );
        if self.is_running() {
            return RestoreStep::Stop;
        }
        self.restoring = true;
        match adapter {
            Adapter::Wings => RestoreStep::Find,
            Adapter::S3 => if truncate {
                RestoreStep::Truncate
            } else {
                RestoreStep::Download
            },
        }
    }

    /// What follows a step of a restore. The first one that fails ends it; when
    /// it ends, listeners hear how it went, and the server is free again.
    pub fn run_restore(
        &mut self,
        backup: &str,
        adapter: Adapter,
        truncate: bool,
        step: RestoreStep,
        outcome: Result<(), String>,
    ) -> (r: Restored)
        ensures
            match restore_after(step, adapter, truncate) {
                Some(next) if outcome is Ok => {
                    &&& r == Restored::Go(next)
                    &&& final(self).said() == old(self).said()
                    &&& final(self).same_but_outbox(
                        (Server {
                            restoring: old(self).restoring || step == RestoreStep::Stop,
                            ..*old(self)
                        }),
                    )
                },
                _ => {
                    &&& r == Restored::Report(outcome is Ok)
                    &&& final(self).said() == old(self).said() + end_frames(
                        backup@,
                        error_text(outcome),
                    )
                    &&& final(self).same_but_outbox(
                        (Server {
                            restoring: old(self).restoring && step == RestoreStep::Stop,
                            ..*old(self)
                        }),
                    )
                },
            },
    {
        let ghost before = self.said();
        let ghost error = match &outcome {
            Ok(_) => None,
            Err(e) => Some(e@),
        };
        match outcome {
            Ok(_) => {
                let next = match step {
                    RestoreStep::Stop => {
                        self.restoring = true;
                        match adapter {
                            Adapter::Wings => Some(RestoreStep::Find),
                            Adapter::S3 => if truncate {
                                Some(RestoreStep::Truncate)
                            } else {
                                Some(RestoreStep::Download)
                            },
                        }
                    },
                    RestoreStep::Find => if truncate {
                        Some(RestoreStep::Truncate)
                    } else {
                        Some(RestoreStep::Unpack)
                    },
                    RestoreStep::Truncate => match adapter {
                        Adapter::Wings => Some(RestoreStep::Unpack),
                        Adapter::S3 => Some(RestoreStep::Download),
                    },
                    RestoreStep::Download => Some(RestoreStep::Unpack),
                    RestoreStep::Unpack => None,
                };
                if let Some(s) = next {
                    return Restored::Go(s);
                }
                self.publish_daemon_message("(restoring): completed".to_owned());
                let payload = restored_payload(backup, true);
                self.publish(ServerEvent::BackupRestoreCompleted(payload));
                self.restoring = false;
                assert(self.said() =~= before + end_frames(backup@, error));
                Restored::Report(true)
            },
            Err(e) => {
                self.publish_daemon_message(text::cat("(restoring): failed: ", e.as_str()));
                let payload = restored_payload(backup, false);
                self.publish(ServerEvent::BackupRestoreCompleted(payload));
                match step {
                    RestoreStep::Stop => {},
                    _ => {
                        self.restoring = false;
                    },
                }
                assert(self.said() =~= before + end_frames(backup@, error));
                Restored::Report(false)
            },
        }
    }
}

/// How far a restore is from its end.
pub open spec fn steps_left(step: RestoreStep) -> int {
    match step {
        RestoreStep::Stop => 5,
        RestoreStep::Find => 4,
        RestoreStep::Truncate => 3,
        RestoreStep::Download => 2,
        RestoreStep::Unpack => 1,
    }
}

/// A restore comes to an end, and files are removed only when that was asked
/// for.
pub proof fn law_restore_comes_to_an_end(step: RestoreStep, adapter: Adapter, truncate: bool)
    ensures
        restore_after(step, adapter, truncate) matches Some(next) ==> 0 < steps_left(next)
            < steps_left(step),
        restore_after(step, adapter, truncate) == Some(RestoreStep::Truncate) ==> truncate,
{
}

// ---------------------------------------------------------------------------
// Deleting
// ---------------------------------------------------------------------------
/// What is known of the archive that is to be deleted.
#[derive(Debug, Clone, Copy, PartialEq, Eq, Structural)]
pub enum Archive {
    Missing,
    Directory,
    File,
}

/// Refuses to delete a backup that is not there, or that is a directory.
pub fn delete_backup(archive: Archive) -> (r: AppResult<()>)
    ensures
        match r {
            Ok(_) => archive == Archive::File,
            Err(AppError::ServerNotFound) => archive == Archive::Missing,
            Err(e) => archive == Archive::Directory && crate::error::is_bad_request(
                e,
                "invalid archive, is directory"@,
            ),
        },
{
    match archive {
        Archive::Missing => Err(AppError::ServerNotFound),
        Archive::Directory => Err(
            AppError::BadRequest("invalid archive, is directory".to_owned()),
        ),
        Archive::File => Ok(()),
    }
}

/// The IPv4 networks that nothing is restored from, and no others.
pub proof fn law_local_networks(a: u8, b: u8, c: u8, d: u8)
    ensures
        local(Ip::V4(a, b, c, d)) <==> {
            ||| a == 10
            ||| a == 127
            ||| a == 172 && 16 <= b < 32
            ||| a == 192 && b == 168
            ||| a == 100 && 64 <= b < 128
            ||| a == 169 && b == 254
            ||| 224 <= a < 240
            ||| a == 0 && b == 0 && c == 0 && d == 0
        },
{
}

/// The IPv6 networks that nothing is restored from, and no others.
pub proof fn law_local_networks_v6(s: u16, t: u16, u: u16, v: u16, w: u16, x: u16, y: u16, z: u16)
    ensures
        local(Ip::V6(s, t, u, v, w, x, y, z)) <==> {
            ||| 0xfc00 <= s < 0xfe00
            ||| 0xfe80 <= s < 0xfec0
            ||| s >= 0xff00
            ||| s == 0 && t == 0 && u == 0 && v == 0 && w == 0 && x == 0 && y == 0 && z < 2
        },
{
}

/// An address is blocked exactly if it is local and no entry of the list allows it; a
/// host is, as soon as one of its addresses is.
pub proof fn law_what_is_blocked(
    list: Seq<(String, Option<Ip>)>,
    host: Seq<char>,
    ips: Seq<Ip>,
    i: int,
    k: int,
)
    requires
        0 <= i < ips.len(),
        0 <= k < list.len(),
    ensures
        !local(ips[i]) ==> !blocked(list, host, ips[i]),
        blocked(list, host, ips[i]) ==> any_blocked(list, host, ips),
        list[k].1 == Some(ips[i]) && text::trim(list[k].0@).len() > 0 ==> !blocked(
            list,
            host,
            ips[i],
        ),
        text::trim(list[k].0@) == host && host.len() > 0 ==> !blocked(list, host, ips[i]),
        text::trim(list[k].0@).len() > 0 && net::network_holds(
            text::trim(list[k].0@),
            net::alone(ips[i]),
        ) ==> !blocked(list, host, ips[i]),
        local(ips[i]) && (forall|j: int|
            0 <= j < list.len() ==> (#[trigger] list[j]).1 != Some(ips[i]) && text::lower(
                text::trim(list[j].0@),
            ) != text::lower(host) && !net::network_holds(
                text::trim(list[j].0@),
                net::alone(ips[i]),
            )) ==> blocked(list, host, ips[i]),
        (forall|j: int| 0 <= j < ips.len() ==> !local(#[trigger] ips[j])) ==> !any_blocked(
            list,
            host,
            ips,
        ),
{
    let ip = ips[i];
    if entry_allows(list[k].0@, list[k].1, host, ip) {
        assert(listed(list, host, ip));
    }
}

/// A link is good if it is a URL with a host, for HTTP or HTTPS.
pub proof fn law_good_links(scheme: Seq<char>, host: Seq<char>, port: Option<u16>)
    ensures
        link_fault(None) is Some,
        host.len() > 0 ==> link_fault(Some(("http"@, host, port))) is None && link_fault(
            Some(("https"@, host, port)),
        ) is None,
        host.len() == 0 ==> link_fault(Some((scheme, host, port))) is Some,
        scheme != "http"@ && scheme != "https"@ ==> link_fault(Some((scheme, host, port))) is Some,
{
}

/// The files are emptied before anything is unpacked where that is asked for; an
/// archive on S3 is downloaded, another is looked for first; unpacking is the last step.
pub proof fn law_restore_goes_step_by_step(adapter: Adapter)
    ensures
        restore_after(RestoreStep::Stop, Adapter::Wings, true) == Some(RestoreStep::Find),
        restore_after(RestoreStep::Stop, Adapter::Wings, false) == Some(RestoreStep::Find),
        restore_after(RestoreStep::Find, Adapter::Wings, true) == Some(RestoreStep::Truncate),
        restore_after(RestoreStep::Find, Adapter::Wings, false) == Some(RestoreStep::Unpack),
        restore_after(RestoreStep::Truncate, Adapter::Wings, true) == Some(RestoreStep::Unpack),
        restore_after(RestoreStep::Stop, Adapter::S3, true) == Some(RestoreStep::Truncate),
        restore_after(RestoreStep::Stop, Adapter::S3, false) == Some(RestoreStep::Download),
        restore_after(RestoreStep::Truncate, Adapter::S3, true) == Some(RestoreStep::Download),
        restore_after(RestoreStep::Download, Adapter::S3, true) == Some(RestoreStep::Unpack),
        restore_after(RestoreStep::Download, Adapter::S3, false) == Some(RestoreStep::Unpack),
        restore_after(RestoreStep::Unpack, adapter, true) is None,
        restore_after(RestoreStep::Unpack, adapter, false) is None,
{
}

/// Listeners are told how a restore went, and of which backup.
pub proof fn law_restores_are_told(backup: Seq<char>, error: Seq<char>)
    ensures
        end_frames(backup, None).len() == 2 && end_frames(backup, Some(error)).len() == 2,
        end_frames(backup, None)[0] == ("daemon message"@, seq!["(restoring): completed"@]),
        end_frames(backup, Some(error))[0] == (
            "daemon message"@,
            seq!["(restoring): failed: "@ + error],
        ),
        end_frames(backup, None)[1] == (
            "backup restore completed"@,
            seq![
                json::compact(
                    Doc::Object(
                        seq![("successful"@, Doc::Bool(true)), ("uuid"@, Doc::Str(backup))],
                    ),
                ),
            ],
        ),
        end_frames(backup, Some(error))[1] == (
            "backup restore completed"@,
            seq![
                json::compact(
                    Doc::Object(
                        seq![("successful"@, Doc::Bool(false)), ("uuid"@, Doc::Str(backup))],
                    ),
                ),
            ],
        ),
{
}

/// A response is taken for an archive by its type, whatever parameters follow.
pub proof fn law_archive_types(value: Seq<char>, parameters: Seq<char>)
    requires
        forall|i: int| 0 <= i < value.len() ==> #[trigger] value[i] != ';',
    ensures
        is_archive_type(value) == is_archive_type(value + seq![';'] + parameters),
        is_archive_type(value) <==> files::lowercase(text::trim(value)) == "application/gzip"@
            || files::lowercase(text::trim(value)) == "application/x-gzip"@,
{
    text::law_split_on(value, ';', parameters);
}

} // verus!
