//! The panel: where it is asked, and what follows its answers.
use vstd::prelude::*;
use crate::error::AppError;
use crate::numbers;
use crate::remote::types::ServerListMeta;
use crate::text;

pub mod types;

verus! {

/// Who asks the panel, and where.
#[derive(Debug, Clone)]
pub struct PanelClient {
    base: String,
    token_id: String,
    token: String,
}

impl PanelClient {
    /// Where the panel is asked.
    pub closed spec fn root(&self) -> Seq<char> {
        self.base@
    }

    pub closed spec fn id(&self) -> Seq<char> {
        self.token_id@
    }

    pub closed spec fn secret(&self) -> Seq<char> {
        self.token@
    }

    /// A client of the panel at an address.
    pub fn new(panel_url: &str, token_id: &str, token: &str) -> (r: Self)
        ensures
            r.root() == text::trim_end_of(panel_url@, '/') + "/api/remote"@,
            r.id() == token_id@,
            r.secret() == token@,
    {
        PanelClient {
            base: text::cat(text::trimmed_end_of(panel_url, '/').as_str(), "/api/remote"),
            token_id: token_id.to_owned(),
            token: token.to_owned(),
        }
    }

    /// How a request is authorised: by the id of the token, a dot and the token.
    pub fn auth_header(&self) -> (r: String)
        ensures
            r@ == "Bearer "@ + self.id() + "."@ + self.secret(),
    {
        let mut s = text::cat3("Bearer ", self.token_id.as_str(), ".");
        s.append(self.token.as_str());
        s
    }

    /// How the daemon names itself.
    pub fn user_agent(&self) -> (r: String)
        ensures
            r@ == "Pterodactyl Wings/v1.13.3 (id:"@ + self.id() + ")"@,
    {
        text::cat3("Pterodactyl Wings/v1.13.3 (id:", self.token_id.as_str(), ")")
    }

    /// The address of a path.
    pub fn address(&self, path: &str) -> (r: String)
        ensures
            r@ == self.root() + path@,
    {
        text::cat(self.base.as_str(), path)
    }
}

// ---------------------------------------------------------------------------
// What is asked
// ---------------------------------------------------------------------------
/// What the panel is asked or told.
#[derive(Debug)]
pub enum PanelCall<'a> {
    ResetServers,
    ListServers { page: u64, per_page: u64 },
    Server(&'a str),
    InstallScript(&'a str),
    PostInstallStatus(&'a str),
    PostArchiveStatus(&'a str),
    PostBackupStatus(&'a str),
    PostBackupRestoreStatus(&'a str),
    BackupDownloadUrls(&'a str),
    BackupUploadUrls { backup: &'a str, size: u64 },
    PostTransferStatus { server: &'a str, successful: bool },
    SftpAuth,
    Activity,
}

impl<'a> PanelCall<'a> {
    /// The path that is asked.
    pub open spec fn path_text(&self) -> Seq<char> {
        match self {
            PanelCall::ResetServers => "/servers/reset"@,
            PanelCall::ListServers { page, per_page } => "/servers?page="@ + numbers::decimal(
                *page as nat,
            ) + "&per_page="@ + numbers::decimal(*per_page as nat),
            PanelCall::Server(uuid) => "/servers/"@ + uuid@,
            PanelCall::InstallScript(uuid) => "/servers/"@ + uuid@ + "/install"@,
            PanelCall::PostInstallStatus(uuid) => "/servers/"@ + uuid@ + "/install"@,
            PanelCall::PostArchiveStatus(uuid) => "/servers/"@ + uuid@ + "/archive"@,
            PanelCall::PostBackupStatus(uuid) => "/backups/"@ + uuid@,
            PanelCall::PostBackupRestoreStatus(uuid) => "/backups/"@ + uuid@ + "/restore"@,
            PanelCall::BackupDownloadUrls(uuid) => "/backups/"@ + uuid@,
            PanelCall::BackupUploadUrls { backup, size } => "/backups/"@ + backup@ + "?size="@
                + numbers::decimal(*size as nat),
            PanelCall::PostTransferStatus { server, successful } => if *successful {
                "/servers/"@ + server@ + "/transfer/success"@
            } else {
                "/servers/"@ + server@ + "/transfer/failure"@
            },
            PanelCall::SftpAuth => "/sftp/auth"@,
            PanelCall::Activity => "/activity"@,
        }
    }

    /// Whether the panel is told something, rather than asked.
    pub open spec fn tells(&self) -> bool {
        match self {
            PanelCall::ListServers { .. } | PanelCall::Server(_) | PanelCall::InstallScript(_)
            | PanelCall::BackupDownloadUrls(_) | PanelCall::BackupUploadUrls { .. } => false,
            _ => true,
        }
    }

    /// The path that is asked.
    pub fn path(&self) -> (r: String)
        ensures
            r@ == self.path_text(),
    {
        match self {
            PanelCall::ResetServers => "/servers/reset".to_owned(),
            PanelCall::ListServers { page, per_page } => {
                let mut s = text::cat3(
                    "/servers?page=",
                    numbers::decimal_u64(*page).as_str(),
                    "&per_page=",
                );
                s.append(numbers::decimal_u64(*per_page).as_str());
                s
            },
            PanelCall::Server(uuid) => text::cat("/servers/", uuid),
            PanelCall::InstallScript(uuid) => text::cat3("/servers/", uuid, "/install"),
            PanelCall::PostInstallStatus(uuid) => text::cat3("/servers/", uuid, "/install"),
            PanelCall::PostArchiveStatus(uuid) => text::cat3("/servers/", uuid, "/archive"),
            PanelCall::PostBackupStatus(uuid) => text::cat("/backups/", uuid),
            PanelCall::PostBackupRestoreStatus(uuid) => text::cat3("/backups/", uuid, "/restore"),
            PanelCall::BackupDownloadUrls(uuid) => text::cat("/backups/", uuid),
            PanelCall::BackupUploadUrls { backup, size } => {
                let mut s = text::cat3("/backups/", backup, "?size=");
                s.append(numbers::decimal_u64(*size).as_str());
                s
            },
            PanelCall::PostTransferStatus { server, successful } => if *successful {
                text::cat3("/servers/", server, "/transfer/success")
            } else {
                text::cat3("/servers/", server, "/transfer/failure")
            },
            PanelCall::SftpAuth => "/sftp/auth".to_owned(),
            PanelCall::Activity => "/activity".to_owned(),
        }
    }

    /// Whether it is a `POST`, rather than a `GET`.
    pub fn is_post(&self) -> (r: bool)
        ensures
            r == self.tells(),
    {
        match self {
            PanelCall::ListServers { .. } => false,
            PanelCall::Server(_) => false,
            PanelCall::InstallScript(_) => false,
            PanelCall::BackupDownloadUrls(_) => false,
            PanelCall::BackupUploadUrls { .. } => false,
            _ => true,
        }
    }
}

// ---------------------------------------------------------------------------
// What follows an answer
// ---------------------------------------------------------------------------
/// How long a request is tried for, in milliseconds.
pub const RETRY_LIMIT: u64 = 30000;

/// The longest pause between two tries, in milliseconds.
pub const LONGEST_PAUSE: u64 = 12000;

/// The first pause, in milliseconds.
pub const FIRST_PAUSE: u64 = 50;

/// What follows one try of a request.
#[derive(Debug, Clone, Copy, PartialEq, Eq, Structural)]
pub enum RequestStep {
    /// there is nothing to read: the answer is null
    Null,
    /// the body is the answer
    Read,
    /// the panel refused: the body says why
    Fail,
    /// try again after the pause; the pause after that
    Retry { next: u64 },
    GiveUp,
}

/// What follows one try. `status` is none when no answer came at all; `elapsed`
/// is the time since the first try, and `pause` how long to wait before the next.
pub open spec fn request_next(status: Option<u16>, elapsed: u64, pause: u64) -> RequestStep {
    if status == Some(204u16) {
        RequestStep::Null
    } else if status matches Some(s) && 200 <= s < 300 {
        RequestStep::Read
    } else if status matches Some(s) && 400 <= s < 500 {
        RequestStep::Fail
    } else if elapsed + pause >= RETRY_LIMIT {
        RequestStep::GiveUp
    } else {
        RequestStep::Retry {
            next: if pause * 2 <= LONGEST_PAUSE {
                (pause * 2) as u64
            } else {
                LONGEST_PAUSE
            },
        }
    }
}

/// What follows one try of a request.
pub fn request_step(status: Option<u16>, elapsed: u64, pause: u64) -> (r: RequestStep)
    ensures
        r == request_next(status, elapsed, pause),
{
    if let Some(s) = status {
        if s == 204 {
            return RequestStep::Null;
        }
        if 200 <= s && s < 300 {
            return RequestStep::Read;
        }
        if 400 <= s && s < 500 {
            return RequestStep::Fail;
        }
    }
    if elapsed >= RETRY_LIMIT || pause >= RETRY_LIMIT - elapsed {
        RequestStep::GiveUp
    } else if pause * 2 <= LONGEST_PAUSE {
        RequestStep::Retry { next: pause * 2 }
    } else {
        RequestStep::Retry { next: LONGEST_PAUSE }
    }
}

/// A refusal of the panel is final: only the lack of an answer, and answers that
/// are neither successes nor refusals, are tried again.
pub proof fn law_only_outages_are_retried(status: Option<u16>, elapsed: u64, pause: u64)
    ensures
        (request_next(status, elapsed, pause) is Retry || request_next(status, elapsed, pause) is GiveUp)
            == (status matches Some(s) ==> !(200 <= s < 300) && !(400 <= s < 500)),
{
}

/// The pauses grow, and never beyond the longest one; and a request is not tried
/// again once its time is over.
pub proof fn law_pauses_are_bounded(status: Option<u16>, elapsed: u64, pause: u64)
    requires
        FIRST_PAUSE <= pause <= LONGEST_PAUSE,
    ensures
        request_next(status, elapsed, pause) matches RequestStep::Retry { next } ==> pause <= next
            && next <= LONGEST_PAUSE && elapsed + pause < RETRY_LIMIT,
{
}

/// The error of a request that was given up.
pub fn gave_up(path: &str) -> (r: AppError)
    ensures
        crate::error::is_remote(r, "panel request "@ + path@ + " failed after retries"@),
{
    AppError::Remote(text::cat3("panel request ", path, " failed after retries"))
}

/// The error of a request that the panel refused.
pub fn refused(status: &str, body: &str) -> (r: AppError)
    ensures
        crate::error::is_remote(r, "panel "@ + status@ + ": "@ + body@),
{
    let mut s = text::cat3("panel ", status, ": ");
    s.append(body);
    AppError::Remote(s)
}

/// How many bytes a character takes in UTF-8.
pub open spec fn char_bytes(c: char) -> int {
    if c <= '\u{7f}' {
        1
    } else if c <= '\u{7ff}' {
        2
    } else if c <= '\u{ffff}' {
        3
    } else {
        4
    }
}

/// How many bytes a text takes in UTF-8.
pub open spec fn text_bytes(s: Seq<char>) -> int
    decreases s.len(),
{
    if s.len() == 0 {
        0
    } else {
        text_bytes(s.drop_last()) + char_bytes(s.last())
    }
}

/// Whether the first `n` characters are all that fits into `limit` bytes.
pub open spec fn is_clip(s: Seq<char>, limit: int, n: int) -> bool {
    &&& 0 <= n <= s.len()
    &&& text_bytes(s.take(n)) <= limit
    &&& n < s.len() ==> text_bytes(s.take(n + 1)) > limit
}

fn width(c: char) -> (r: usize)
    ensures
        r == char_bytes(c),
{
    if c <= '\u{7f}' {
        1
    } else if c <= '\u{7ff}' {
        2
    } else if c <= '\u{ffff}' {
        3
    } else {
        4
    }
}

/// The beginning of a text: as many characters as fit into `limit` bytes.
pub fn clipped(s: &str, limit: usize) -> (r: String)
    ensures
        exists|n: int| is_clip(s@, limit as int, n) && r@ == #[trigger] s@.take(n),
{
    let all = text::chars_of(s);
    let mut out: Vec<char> = Vec::new();
    let mut bytes: usize = 0;
    let mut i: usize = 0;
    assert(s@.take(0) =~= Seq::empty());
    while i < all.len()
        invariant
            i <= all.len(),
            all@ == s@,
            bytes == text_bytes(s@.take(i as int)),
            bytes <= limit,
            out@ == s@.take(i as int),
        decreases all.len() - i,
    {
        assert(s@.take(i + 1).drop_last() =~= s@.take(i as int));
        let w: usize = width(all[i]);
        if w > limit - bytes {
            assert(is_clip(s@, limit as int, i as int));
            return text::string_of(out.as_slice());
        }
        bytes = bytes + w;
        out.push(all[i]);
        assert(out@ =~= s@.take(i + 1));
        i = i + 1;
    }
    assert(is_clip(s@, limit as int, i as int));
    text::string_of(out.as_slice())
}

/// The error of an answer that cannot be read.
pub fn unreadable(reason: &str, body: &str) -> (r: AppError)
    ensures
        exists|n: int|
            is_clip(body@, 4000, n) && crate::error::is_remote(
                r,
                "bad panel response: "@ + reason@ + "; body: "@ + #[trigger] body@.take(n),
            ),
{
    let mut s = text::cat3("bad panel response: ", reason, "; body: ");
    let head = clipped(body, 4000);
    let ghost before = s@;
    s.append(head.as_str());
    proof {
        let n = choose|n: int| is_clip(body@, 4000, n) && head@ == #[trigger] body@.take(n);
        assert(s@ == before + body@.take(n));
    }
    AppError::Remote(s)
}

// ---------------------------------------------------------------------------
// Pages
// ---------------------------------------------------------------------------
/// A page number, counted from 1.
pub open spec fn at_least_one(n: u64) -> u64 {
    if n == 0 {
        1
    } else {
        n
    }
}

/// The page to ask for after one: none after the last one, or while there are no
/// servers at all.
pub open spec fn page_after(meta: ServerListMeta, none_yet: bool) -> Option<u64> {
    let last = at_least_one(meta.last_page);
    let current = at_least_one(meta.current_page);
    if current >= last || none_yet {
        None
    } else {
        Some((current + 1) as u64)
    }
}

/// The page to ask for after one.
pub fn next_page(meta: &ServerListMeta, none_yet: bool) -> (r: Option<u64>)
    ensures
        r == page_after(*meta, none_yet),
{
    let last: u64 = if meta.last_page == 0 {
        1
    } else {
        meta.last_page
    };
    let current: u64 = if meta.current_page == 0 {
        1
    } else {
        meta.current_page
    };
    if current >= last || none_yet {
        None
    } else {
        Some(current + 1)
    }
}

/// Every page that is asked for lies behind the one before, and exists.
pub proof fn law_pages_go_on_to_the_last(meta: ServerListMeta, none_yet: bool)
    ensures
        page_after(meta, none_yet) matches Some(p) ==> meta.current_page < p <= meta.last_page,
        !none_yet && page_after(meta, none_yet) is None ==> at_least_one(meta.current_page)
            >= at_least_one(meta.last_page),
{
}

// ---------------------------------------------------------------------------
// Tokens of nodes
// ---------------------------------------------------------------------------
/// Whether a header is the id of a node, a dot and its token, neither of them
/// empty and both without dots.
pub fn is_valid_daemon_auth(header: &str, node_id: &str, node_token: &str) -> (r: bool)
    ensures
        r == (text::split_on(header@, '.') == seq![node_id@, node_token@] && node_id@.len() > 0
            && node_token@.len() > 0),
{
    let parts = text::split_str(header, '.');
    let ghost pieces = text::split_on(header@, '.');
    assert(pieces == text::texts(parts@));
    assert(pieces.len() == parts@.len());
    if parts.len() != 2 {
        assert(seq![node_id@, node_token@].len() == 2);
        return false;
    }
    assert(pieces[0] == parts@[0]@ && pieces[1] == parts@[1]@);
    let r = !parts[0].as_str().is_empty() && !parts[1].as_str().is_empty() && text::same(
        parts[0].as_str(),
        node_id,
    ) && text::same(parts[1].as_str(), node_token);
    proof {
        if r {
            assert(pieces =~= seq![node_id@, node_token@]);
        }
    }
    r
}

/// An answer without a body is nothing, one of success is read, and a refusal is final.
/// Anything else is tried again, after a pause that doubles up to twelve seconds, until
/// half a minute would be over.
pub proof fn law_what_follows_an_answer(s: u16, elapsed: u64, pause: u64)
    ensures
        request_next(Some(204), elapsed, pause) is Null,
        200 <= s < 300 && s != 204 ==> request_next(Some(s), elapsed, pause) is Read,
        400 <= s < 500 ==> request_next(Some(s), elapsed, pause) is Fail,
        elapsed + pause >= 30000 ==> request_next(None, elapsed, pause) is GiveUp,
        elapsed + pause < 30000 && pause <= 6000 ==> request_next(None, elapsed, pause) == (
        RequestStep::Retry { next: (2 * pause) as u64 }),
        elapsed + pause < 30000 && pause > 6000 ==> request_next(None, elapsed, pause) == (
        RequestStep::Retry { next: 12000 }),
        s >= 500 ==> request_next(Some(s), elapsed, pause) == request_next(None, elapsed, pause),
        s < 200 ==> request_next(Some(s), elapsed, pause) == request_next(None, elapsed, pause),
        300 <= s < 400 ==> request_next(Some(s), elapsed, pause) == request_next(
            None,
            elapsed,
            pause,
        ),
{
}

/// Pages are asked for one by one, counted from 1, to the last; there is no other one
/// where there are no servers.
pub proof fn law_pages_one_by_one(meta: ServerListMeta)
    ensures
        page_after(meta, true) is None,
        meta.current_page > 0 && meta.current_page < meta.last_page ==> page_after(meta, false)
            == Some((meta.current_page + 1) as u64),
        meta.current_page > 0 && meta.current_page >= meta.last_page ==> page_after(meta, false)
            is None,
        meta.current_page == 0 && meta.last_page > 1 ==> page_after(meta, false) == Some(2u64),
        meta.current_page == 0 && meta.last_page <= 1 ==> page_after(meta, false) is None,
{
}

proof fn lemma_text_bytes_grow(s: Seq<char>, m: int, n: int)
    requires
        0 <= m <= n <= s.len(),
    ensures
        text_bytes(s.take(m)) <= text_bytes(s.take(n)),
    decreases n - m,
{
    if m < n {
        lemma_text_bytes_grow(s, m, n - 1);
        assert(s.take(n).drop_last() =~= s.take(n - 1));
    }
}

/// Only one length is that of all that fits, and a text that fits is not cut.
pub proof fn law_texts_are_clipped(s: Seq<char>, limit: int, m: int, n: int)
    ensures
        is_clip(s, limit, m) && is_clip(s, limit, n) ==> m == n,
        text_bytes(s) <= limit ==> is_clip(s, limit, s.len() as int),
        is_clip(s, limit, n) ==> text_bytes(s.take(n)) <= limit,
{
    assert(s.take(s.len() as int) =~= s);
    if is_clip(s, limit, m) && is_clip(s, limit, n) {
        if m < n {
            lemma_text_bytes_grow(s, m + 1, n);
        }
        if n < m {
            lemma_text_bytes_grow(s, n + 1, m);
        }
    }
}

/// A text of ASCII takes as many bytes as it has characters.
pub proof fn law_ascii_bytes(s: Seq<char>)
    requires
        forall|i: int| 0 <= i < s.len() ==> #[trigger] s[i] <= '\u{7f}',
    ensures
        text_bytes(s) == s.len(),
    decreases s.len(),
{
    if s.len() > 0 {
        let h = s.drop_last();
        assert forall|i: int| 0 <= i < h.len() implies #[trigger] h[i] <= '\u{7f}' by {
            assert(h[i] == s[i]);
        }
        assert(s.last() == s[s.len() - 1]);
        law_ascii_bytes(h);
    }
}

/// Where the panel is asked, and whether it is told something.
pub proof fn law_calls_of_the_panel(uuid: &str, page: u64, per_page: u64, size: u64)
    ensures
        PanelCall::ResetServers.path_text() == "/servers/reset"@
            && PanelCall::ResetServers.tells(),
        (PanelCall::ListServers { page, per_page }).path_text() == "/servers?page="@
            + numbers::decimal(page as nat) + "&per_page="@ + numbers::decimal(per_page as nat),
        !(PanelCall::ListServers { page, per_page }).tells(),
        PanelCall::Server(uuid).path_text() == "/servers/"@ + uuid@ && !PanelCall::Server(
            uuid,
        ).tells(),
        PanelCall::InstallScript(uuid).path_text() == "/servers/"@ + uuid@ + "/install"@
            && !PanelCall::InstallScript(uuid).tells(),
        PanelCall::PostInstallStatus(uuid).path_text() == "/servers/"@ + uuid@ + "/install"@
            && PanelCall::PostInstallStatus(uuid).tells(),
        PanelCall::PostArchiveStatus(uuid).path_text() == "/servers/"@ + uuid@ + "/archive"@
            && PanelCall::PostArchiveStatus(uuid).tells(),
        PanelCall::PostBackupStatus(uuid).path_text() == "/backups/"@ + uuid@
            && PanelCall::PostBackupStatus(uuid).tells(),
        PanelCall::PostBackupRestoreStatus(uuid).path_text() == "/backups/"@ + uuid@ + "/restore"@
            && PanelCall::PostBackupRestoreStatus(uuid).tells(),
        PanelCall::BackupDownloadUrls(uuid).path_text() == "/backups/"@ + uuid@
            && !PanelCall::BackupDownloadUrls(uuid).tells(),
        (PanelCall::BackupUploadUrls { backup: uuid, size }).path_text() == "/backups/"@ + uuid@
            + "?size="@ + numbers::decimal(size as nat),
        !(PanelCall::BackupUploadUrls { backup: uuid, size }).tells(),
        (PanelCall::PostTransferStatus { server: uuid, successful: true }).path_text()
            == "/servers/"@ + uuid@ + "/transfer/success"@,
        (PanelCall::PostTransferStatus { server: uuid, successful: false }).path_text()
            == "/servers/"@ + uuid@ + "/transfer/failure"@,
        (PanelCall::PostTransferStatus { server: uuid, successful: true }).tells(),
        PanelCall::SftpAuth.path_text() == "/sftp/auth"@ && PanelCall::SftpAuth.tells(),
        PanelCall::Activity.path_text() == "/activity"@ && PanelCall::Activity.tells(),
{
}

/// How many bytes characters take.
pub proof fn law_bytes_of_characters(c: char)
    ensures
        c as int <= 0x7f ==> char_bytes(c) == 1,
        0x7f < c as int <= 0x7ff ==> char_bytes(c) == 2,
        0x7ff < c as int <= 0xffff ==> char_bytes(c) == 3,
        0xffff < c as int ==> char_bytes(c) == 4,
{
}

} // verus!
