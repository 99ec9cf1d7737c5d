//! Downloads and uploads that a token of the panel allows, and servers that come
//! from other nodes.
use vstd::prelude::*;
use crate::config::Config;
use crate::digest;
use crate::digest::Sha256Sum;
use crate::error::{AppError, AppResult};
use crate::ids;
use crate::json;
use crate::json::{Doc, Json};
use crate::jwt::claims;
use crate::jwt::claims::Claims;
use crate::jwt::store::TokenStore;
use crate::models::activity::{user_of, Activity};
use crate::numbers;
use crate::paths;
use crate::server::events::ServerEvent;
use crate::server::files;
use crate::server::files::Filesystem;
use crate::server::manager::ServerManager;
use crate::server::server::{within, Server};
use crate::text;

verus! {

// ---------------------------------------------------------------------------
// Tokens
// ---------------------------------------------------------------------------
/// What a token with these claims is refused for, when it has to have a scope
/// and to name a server.
pub open spec fn scope_refusal(c: Claims, scope: Seq<char>) -> Option<Seq<char>> {
    if claims::opt(c.scope) != Some(scope) {
        Some("token does not have the "@ + scope + " scope"@)
    } else {
        match c.server_uuid {
            None => Some("token has no server_uuid claim"@),
            Some(s) => if ids::uuid_value(s@) is None {
                Some("invalid server_uuid claim"@)
            } else {
                None
            },
        }
    }
}

/// The server that a token names.
pub open spec fn named_server(c: Claims) -> u128 {
    ids::uuid_value(c.server_uuid->0@)->0
}

/// What a request with a token comes to, by what became of the token.
pub open spec fn served<S>(
    parsed: AppResult<Claims>,
    scope: Seq<char>,
    servers: Map<u128, S>,
    r: AppResult<(Claims, &S)>,
) -> bool {
    match parsed {
        Err(e) => r == Err::<(Claims, &S), AppError>(e),
        Ok(c) => match scope_refusal(c, scope) {
            Some(m) => r is Err && crate::error::is_unauthorized(r->Err_0, m),
            None => if servers.contains_key(named_server(c)) {
                r matches Ok(x) && x.0 == c && *x.1 == servers[named_server(c)]
            } else {
                r == Err::<(Claims, &S), AppError>(AppError::ServerNotFound)
            },
        },
    }
}

/// What becomes of a request with a token that has to have a scope, by what
/// became of the token: the server it names is looked up.
pub fn authorize_claims<'a, S>(
    parsed: AppResult<Claims>,
    scope: &str,
    servers: &'a ServerManager<S>,
) -> (r: AppResult<(Claims, &'a S)>)
    ensures
        served(parsed, scope@, servers@, r),
{
    let c = match parsed {
        Ok(c) => c,
        Err(e) => {
            return Err(e);
        },
    };
    if !c.has_scope(scope) {
        return Err(
            AppError::Unauthorized(text::cat3("token does not have the ", scope, " scope")),
        );
    }
    let uuid: u128 = match c.server_uuid() {
        None => {
            return Err(AppError::Unauthorized("token has no server_uuid claim".to_owned()));
        },
        Some(s) => match ids::parse_uuid(s) {
            None => {
                return Err(AppError::Unauthorized("invalid server_uuid claim".to_owned()));
            },
            Some(u) => u,
        },
    };
    match servers.get(uuid) {
        Ok(s) => Ok((c, s)),
        Err(e) => Err(e),
    }
}

/// Validates a token that has to have a scope, and looks up the server that it
/// names.
pub fn authorize<'a, S>(
    token: &str,
    scope: &str,
    secret: &[u8],
    tokens: &mut TokenStore,
    boot_time: i64,
    now_ms: i64,
    servers: &'a ServerManager<S>,
) -> (r: AppResult<(Claims, &'a S)>)
    requires
        0 <= now_ms <= i64::MAX - u32::MAX * 1000,
    ensures
        final(tokens).denied_sessions() == old(tokens).denied_sessions(),
        final(tokens).denied_users() == old(tokens).denied_users(),
        final(tokens).lifetime() == old(tokens).lifetime(),
        exists|parsed: AppResult<Claims>| #[trigger]
            claims::judged(token@, secret@, *old(tokens), *final(tokens), boot_time, now_ms, parsed)
                && served(parsed, scope@, servers@, r),
{
    let parsed = claims::parse_token(token, secret, tokens, boot_time, now_ms);
    authorize_claims(parsed, scope, servers)
}

// ---------------------------------------------------------------------------
// Downloads
// ---------------------------------------------------------------------------
/// The archive of the backup that a token is for, and the name it is saved
/// under.
pub fn download_backup(c: &Claims, daemon: &Config) -> (r: AppResult<(String, String)>)
    ensures
        match c.backup_uuid {
            Some(b) => r matches Ok(x) && x.0@ == paths::join(
                daemon.backup_dir_text(),
                b@ + ".tar.gz"@,
            ) && x.1@ == b@ + ".tar.gz"@,
            None => r is Err && crate::error::is_unauthorized(
                r->Err_0,
                "token has no backup_uuid claim"@,
            ),
        },
{
    match &c.backup_uuid {
        None => Err(AppError::Unauthorized("token has no backup_uuid claim".to_owned())),
        Some(b) => {
            let name = text::cat(b.as_str(), ".tar.gz");
            let path = paths::join_path(daemon.backup_dir().as_str(), name.as_str());
            Ok((path, name))
        },
    }
}

/// The last piece of a path.
pub open spec fn last_piece(path: Seq<char>) -> Seq<char> {
    text::split_on(path, '/').last()
}

/// The last piece of a path.
pub fn base_name(path: &str) -> (r: String)
    ensures
        r@ == last_piece(path@),
{
    let mut parts = text::split_str(path, '/');
    let ghost all = text::split_on(path@, '/');
    proof {
        text::lemma_split_nonempty(path@, '/');
        assert(all == text::texts(parts@));
        assert(all.len() == parts@.len());
        assert(all[all.len() - 1] == parts@[parts@.len() - 1]@);
    }
    let n: usize = parts.len();
    parts.remove(n - 1)
}

/// How a client is told to save a file.
pub fn disposition(name: &str) -> (r: String)
    ensures
        r@ == "attachment; filename=\""@ + name@ + "\""@,
{
    text::cat3("attachment; filename=\"", name, "\"")
}

/// The file that a token is for: the one that it names, else the one that was
/// asked for.
pub open spec fn wanted_file(c: Claims, asked: Option<String>) -> Option<Seq<char>> {
    match c.file_path {
        Some(p) => Some(p@),
        None => claims::opt(asked),
    }
}

/// Where the file is that a token is for, and the name it is saved under. A path
/// that leads out of the server, and a denied file, are refused.
pub fn download_file(c: &Claims, asked: &Option<String>, fs: &Filesystem) -> (r: AppResult<
    (String, String),
>)
    ensures
        match wanted_file(*c, *asked) {
            None => r is Err && crate::error::is_bad_request(r->Err_0, "no file path in request"@),
            Some(raw) => match r {
                Ok(x) => x.0@ == files::resolved(fs.base(), raw) && !files::climbs(x.0@)
                    && paths::starts_with(x.0@, fs.base()) && !files::denied(fs.deny(), raw)
                    && x.1@ == last_piece(raw),
                Err(e) => if files::climbs(files::resolved(fs.base(), raw)) {
                    crate::error::is_bad_request(e, files::escape_message())
                } else {
                    files::denied(fs.deny(), raw) && crate::error::is_bad_request(
                        e,
                        "path is denied by the file denylist: "@ + raw,
                    )
                },
            },
        },
{
    let raw = match &c.file_path {
        Some(p) => p.as_str(),
        None => match asked {
            Some(p) => p.as_str(),
            None => {
                return Err(AppError::BadRequest("no file path in request".to_owned()));
            },
        },
    };
    let path = match fs.resolve(raw) {
        Ok(p) => p,
        Err(e) => {
            return Err(e);
        },
    };
    match fs.check_denied(raw) {
        Ok(_) => Ok((path, base_name(raw))),
        Err(e) => Err(e),
    }
}

// ---------------------------------------------------------------------------
// Uploads
// ---------------------------------------------------------------------------
/// Whether a part of a form is a file that is uploaded.
pub fn is_upload_field(name: Option<&str>) -> (r: bool)
    ensures
        r == (name matches Some(n) && (n@ == "files"@ || n@ == "files[]"@)),
{
    match name {
        Some(n) => text::same(n, "files") || text::same(n, "files[]"),
        None => false,
    }
}

/// Whether a name is one of a file in a directory, and not a path.
pub open spec fn plain_name(name: Seq<char>) -> bool {
    text::find(name, ".."@) == -1 && text::find(name, "/"@) == -1
}

/// Whether a name is one of a file in a directory, and not a path.
pub fn is_plain_name(name: &str) -> (r: bool)
    ensures
        r == plain_name(name@),
{
    proof {
        reveal_strlit("..");
        reveal_strlit("/");
    }
    !text::contains(name, "..") && !text::contains(name, "/")
}

/// The name of an uploaded file.
pub fn upload_name(name: Option<&str>) -> (r: AppResult<String>)
    ensures
        ({
            let n = match name {
                Some(n) => n@,
                None => "upload"@,
            };
            match r {
                Ok(x) => x@ == n && plain_name(n),
                Err(e) => !plain_name(n) && crate::error::is_bad_request(e, "invalid file name"@),
            }
        }),
{
    let n = match name {
        Some(n) => n,
        None => "upload",
    };
    if is_plain_name(n) {
        Ok(n.to_owned())
    } else {
        Err(AppError::BadRequest("invalid file name".to_owned()))
    }
}

/// How many bytes may be uploaded; none is no limit.
pub open spec fn upload_bytes(limit: u64) -> int {
    if limit * 1048576 > u64::MAX {
        u64::MAX as int
    } else {
        limit * 1048576
    }
}

/// Refuses a file that is too large. `limit` is in MB, and 0 is none.
pub fn check_upload_size(collected: u64, limit: u64, name: &str) -> (r: AppResult<()>)
    ensures
        match r {
            Ok(_) => limit == 0 || collected <= upload_bytes(limit),
            Err(e) => limit > 0 && collected > upload_bytes(limit) && crate::error::is_bad_request(
                e,
                "File "@ + name@ + " is larger than the maximum file upload size of "@
                    + numbers::decimal(limit as nat) + " MB."@,
            ),
        },
{
    let max: u64 = match limit.checked_mul(1048576) {
        Some(m) => m,
        None => u64::MAX,
    };
    if max > 0 && collected > max {
        let mut s = text::cat3(
            "File ",
            name,
            " is larger than the maximum file upload size of ",
        );
        s.append(numbers::decimal_u64(limit).as_str());
        s.append(" MB.");
        return Err(AppError::BadRequest(s));
    }
    Ok(())
}

/// Where an uploaded file is put.
pub fn upload_path(directory: &str, name: &str) -> (r: String)
    ensures
        r@ == text::trim_end_of(text::trim_start_of(directory@, '/'), '/') + "/"@ + name@,
{
    text::cat3(text::trimmed_of(directory, '/').as_str(), "/", name)
}

/// Refuses a form without files.
pub fn check_uploaded(count: usize) -> (r: AppResult<()>)
    ensures
        match r {
            Ok(_) => count > 0,
            Err(e) => count == 0 && crate::error::is_bad_request(
                e,
                "No files were found on the request body."@,
            ),
        },
{
    if count == 0 {
        Err(AppError::BadRequest("No files were found on the request body.".to_owned()))
    } else {
        Ok(())
    }
}

/// The note of an upload.
pub fn upload_activity(
    server: &str,
    user: Option<String>,
    ip: String,
    directory: &str,
    name: &str,
    size: u64,
    timestamp: String,
) -> (r: Activity)
    ensures
        r.server@ == server@,
        r.event@ == "server:file.uploaded"@,
        user_of(r.user) == user_of(user),
        r.ip@ == ip@,
        r.timestamp@ == timestamp@,
        json::doc(r.metadata) == Doc::Object(
            seq![
                ("directory"@, Doc::Str(directory@)),
                ("name"@, Doc::Str(name@)),
                ("size"@, Doc::Number(numbers::decimal(size as nat))),
            ],
        ),
{
    let mut m: Vec<(String, Json)> = Vec::new();
    m.push(("directory".to_owned(), Json::Str(directory.to_owned())));
    m.push(("name".to_owned(), Json::Str(name.to_owned())));
    m.push(("size".to_owned(), Json::Number(numbers::decimal_u64(size))));
    proof {
        json::lemma_doc_object(m);
        assert(json::members(m@) =~= seq![
            ("directory"@, Doc::Str(directory@)),
            ("name"@, Doc::Str(name@)),
            ("size"@, Doc::Number(numbers::decimal(size as nat))),
        ]);
    }
    Activity::new(server, "server:file.uploaded", timestamp).with_user(user).with_ip(
        ip,
    ).with_metadata(Json::Object(m))
}

// ---------------------------------------------------------------------------
// Servers from other nodes
// ---------------------------------------------------------------------------
/// The token of a request.
pub fn bearer(header: Option<&str>) -> (r: AppResult<String>)
    ensures
        match r {
            Ok(t) => header matches Some(h) && h@ == "Bearer "@ + t@,
            Err(e) => !(header matches Some(h) && "Bearer "@.is_prefix_of(h@))
                && crate::error::is_unauthorized(e, "missing Bearer token"@),
        },
{
    if let Some(h) = header {
        if let Some(t) = text::strip_prefix(h, "Bearer ") {
            assert(h@ =~= "Bearer "@ + t@);
            return Ok(t);
        }
    }
    Err(AppError::Unauthorized("missing Bearer token".to_owned()))
}

/// The server that comes in, by what its token says.
pub open spec fn subject(c: Claims) -> Option<u128> {
    match c.sub {
        Some(s) => ids::uuid_value(s@),
        None => None,
    }
}

/// The server that comes in, by what became of its token.
pub fn incoming_server(parsed: AppResult<Claims>) -> (r: AppResult<u128>)
    ensures
        match parsed {
            Err(e) => r == Err::<u128, AppError>(e),
            Ok(c) => match r {
                Ok(u) => claims::opt(c.scope) == Some("transfer"@) && subject(c) == Some(u),
                Err(e) => if claims::opt(c.scope) != Some("transfer"@) {
                    crate::error::is_unauthorized(e, "token does not have the transfer scope"@)
                } else {
                    subject(c) is None && crate::error::is_unauthorized(
                        e,
                        "token has no valid server subject"@,
                    )
                },
            },
        },
{
    let c = match parsed {
        Ok(c) => c,
        Err(e) => {
            return Err(e);
        },
    };
    if !c.has_scope("transfer") {
        return Err(AppError::Unauthorized("token does not have the transfer scope".to_owned()));
    }
    if let Some(s) = &c.sub {
        if let Some(u) = ids::parse_uuid(s.as_str()) {
            return Ok(u);
        }
    }
    Err(AppError::Unauthorized("token has no valid server subject".to_owned()))
}

impl Server {
    /// Begins to take a server in, unless that is under way.
    pub fn incoming_transfer(&mut self) -> (r: AppResult<()>)
        ensures
            *final(self) == (Server { transferring: true, ..*old(self) }),
            match r {
                Ok(_) => !old(self).transferring,
                Err(e) => old(self).transferring && crate::error::is_conflict(
                    e,
                    "A transfer is already in progress for this server."@,
                ),
            },
    {
        if self.transferring {
            return Err(
                AppError::Conflict(
                    "A transfer is already in progress for this server.".to_owned(),
                ),
            );
        }
        self.transferring = true;
        Ok(())
    }

    /// Refuses an archive with more in it than the server has room for.
    pub fn check_incoming(&self, unpacked: u64) -> (r: AppResult<()>)
        ensures
            match r {
                Ok(_) => within(self.config.build.disk_space, unpacked),
                Err(e) => !within(self.config.build.disk_space, unpacked)
                    && crate::error::is_bad_request(e, "filesystem: not enough disk space"@),
            },
    {
        if self.over_disk_limit(unpacked) {
            return Err(AppError::BadRequest("filesystem: not enough disk space".to_owned()));
        }
        Ok(())
    }

    /// Ends a transfer: listeners hear how it went.
    pub fn transferred(&mut self, successful: bool)
        ensures
            final(self).same_but_outbox((Server { transferring: false, ..*old(self) })),
            final(self).said() == old(self).said().push(
                ("transfer status"@, seq![if successful {
                    "success"@
                } else {
                    "failure"@
                }]),
            ),
    {
        let status = if successful {
            "success"
        } else {
            "failure"
        };
        self.publish(ServerEvent::TransferStatus(status.to_owned()));
        self.transferring = false;
    }

    /// Refuses to cancel a transfer that there is not.
    pub fn delete_incoming_transfer(&self) -> (r: AppResult<()>)
        ensures
            match r {
                Ok(_) => self.transferring,
                Err(e) => !self.transferring && crate::error::is_conflict(
                    e,
                    "Server is not currently being transferred."@,
                ),
            },
    {
        if self.is_transferring() {
            Ok(())
        } else {
            Err(AppError::Conflict("Server is not currently being transferred.".to_owned()))
        }
    }
}

/// What came in of a server: its archive, and then the checksum of the archive.
pub struct Receiver {
    hash: Sha256Sum,
    got_archive: bool,
    checksum: Option<String>,
}

/// What came in so far.
pub struct ReceiverView {
    pub archive: Seq<u8>,
    pub complete: bool,
    pub checksum: Option<Seq<char>>,
}

impl View for Receiver {
    type V = ReceiverView;

    closed spec fn view(&self) -> ReceiverView {
        ReceiverView {
            archive: digest::sha256_fed(self.hash),
            complete: self.got_archive,
            checksum: match self.checksum {
                Some(s) => Some(s@),
                None => None,
            },
        }
    }
}

impl Receiver {
    pub fn new() -> (r: Self)
        ensures
            r@ == (ReceiverView { archive: Seq::empty(), complete: false, checksum: None }),
    {
        Receiver { hash: Sha256Sum::new(), got_archive: false, checksum: None }
    }

    /// Takes a piece of the archive.
    pub fn archive_chunk(&mut self, bytes: &[u8])
        ensures
            final(self)@ == (ReceiverView { archive: old(self)@.archive + bytes@, ..old(self)@ }),
    {
        self.hash.update(bytes);
    }

    /// The archive is complete.
    pub fn archive_done(&mut self)
        ensures
            final(self)@ == (ReceiverView { complete: true, ..old(self)@ }),
    {
        self.got_archive = true;
    }

    /// Refuses a checksum that comes before the archive.
    pub fn begin_checksum(&self) -> (r: AppResult<()>)
        ensures
            match r {
                Ok(_) => self@.complete,
                Err(e) => !self@.complete && crate::error::is_bad_request(
                    e,
                    "archive must be sent before the checksum"@,
                ),
            },
    {
        if self.got_archive {
            Ok(())
        } else {
            Err(AppError::BadRequest("archive must be sent before the checksum".to_owned()))
        }
    }

    /// Takes the checksum.
    pub fn take_checksum(&mut self, bytes: &[u8])
        ensures
            final(self)@ == (ReceiverView {
                checksum: Some(text::trim(text::utf8_lossy(bytes@))),
                ..old(self)@
            }),
    {
        let s = text::from_utf8_lossy(bytes);
        self.checksum = Some(text::trimmed(s.as_str()));
    }

    /// Refuses an archive that is missing, has no checksum, or another one than
    /// was sent.
    pub fn finish(self) -> (r: AppResult<()>)
        ensures
            ({
                let v = self@;
                let actual = numbers::hex_bytes(digest::sha256_digest(v.archive));
                match r {
                    Ok(_) => v.complete && v.checksum == Some(actual),
                    Err(e) => if !v.complete {
                        crate::error::is_bad_request(e, "missing archive part"@)
                    } else {
                        match v.checksum {
                            None => crate::error::is_bad_request(e, "missing checksum part"@),
                            Some(expected) => expected != actual && crate::error::is_bad_request(
                                e,
                                "archive checksum mismatch: expected "@ + expected + ", got "@
                                    + actual,
                            ),
                        }
                    },
                }
            }),
    {
        if !self.got_archive {
            return Err(AppError::BadRequest("missing archive part".to_owned()));
        }
        let expected = match self.checksum {
            Some(s) => s,
            None => {
                return Err(AppError::BadRequest("missing checksum part".to_owned()));
            },
        };
        let actual = self.hash.finish();
        if text::same(expected.as_str(), actual.as_str()) {
            return Ok(());
        }
        let mut s = text::cat3(
            "archive checksum mismatch: expected ",
            expected.as_str(),
            ", got ",
        );
        s.append(actual.as_str());
        Err(AppError::BadRequest(s))
    }
}

/// A token is good for what its scope says, and for the server that it names.
pub proof fn law_scopes(c: Claims, scope: Seq<char>)
    ensures
        scope_refusal(c, scope) is None <==> (c.scope matches Some(s) && s@ == scope) && (
        c.server_uuid matches Some(u) && ids::uuid_value(u@) is Some),
        c.scope is None ==> scope_refusal(c, scope) == Some(
            "token does not have the "@ + scope + " scope"@,
        ),
        c.scope matches Some(s) ==> s@ != scope ==> scope_refusal(c, scope) == Some(
            "token does not have the "@ + scope + " scope"@,
        ),
{
}

/// A request is served for the server that its token names and that is there; any
/// other is refused.
pub proof fn law_tokens_are_served<S>(
    c: Claims,
    scope: Seq<char>,
    servers: Map<u128, S>,
    u: u128,
    r: AppResult<(Claims, &S)>,
)
    requires
        served(Ok(c), scope, servers, r),
    ensures
        r is Ok ==> (c.scope matches Some(s) && s@ == scope) && (c.server_uuid matches Some(x)
            && ids::uuid_value(x@) is Some && servers.contains_key(ids::uuid_value(x@)->0) && *r->Ok_0.1
            == servers[ids::uuid_value(x@)->0]),
        (c.scope matches Some(s) && s@ == scope) && (c.server_uuid matches Some(x)
            && ids::uuid_value(x@) == Some(u)) && servers.contains_key(u) ==> r is Ok,
        (c.scope matches Some(s) && s@ == scope) && (c.server_uuid matches Some(x)
            && ids::uuid_value(x@) == Some(u)) && !servers.contains_key(u) ==> r == Err::<
            (Claims, &S),
            AppError,
        >(AppError::ServerNotFound),
{
}

/// The name of a file is the last piece of its path.
pub proof fn law_last_piece(directory: Seq<char>, name: Seq<char>)
    requires
        forall|i: int| 0 <= i < name.len() ==> #[trigger] name[i] != '/',
    ensures
        last_piece(directory + seq!['/'] + name) == name,
        last_piece(name) == name,
{
    text::law_split_cat(directory, '/', name);
    text::law_split_on(name, '/', name);
    let a = text::split_on(directory, '/');
    assert((a + seq![name]).last() == name);
}

/// A token that names a file is for that file, whatever is asked for.
pub proof fn law_named_files(c: Claims, p: String, asked: Option<String>)
    ensures
        wanted_file((Claims { file_path: Some(p), ..c }), asked) == Some(p@),
        wanted_file((Claims { file_path: None, ..c }), Some(p)) == Some(p@),
        wanted_file((Claims { file_path: None, ..c }), None) is None,
{
}

/// A name with a slash, or with two dots side by side, is no plain one; every other is.
pub proof fn law_plain_names(name: Seq<char>)
    ensures
        plain_name(name) <==> (forall|i: int| 0 <= i < name.len() ==> #[trigger] name[i] != '/') && (
        forall|i: int, j: int|
            0 <= i < name.len() && j == i + 1 && j < name.len() ==> !(#[trigger] name[i] == '.'
                && #[trigger] name[j] == '.')),
{
    reveal_strlit("..");
    reveal_strlit("/");
    text::law_find(name, ".."@);
    text::law_find(name, "/"@);
    let f = text::find(name, "/"@);
    if f >= 0 {
        assert("/"@[0] == name.skip(f).subrange(0, 1)[0]);
        assert(name[f] == '/');
    }
    let g = text::find(name, ".."@);
    if g >= 0 {
        assert(".."@[0] == name.skip(g).subrange(0, 2)[0]);
        assert(".."@[1] == name.skip(g).subrange(0, 2)[1]);
        assert(name[g] == '.' && name[g + 1] == '.');
    }
    if f < 0 {
        assert forall|i: int| 0 <= i < name.len() implies #[trigger] name[i] != '/' by {
            if name[i] == '/' {
                assert("/"@ =~= name.skip(i).subrange(0, 1));
                assert("/"@.is_prefix_of(name.skip(i)));
            }
        }
    }
    if g < 0 {
        assert forall|i: int, j: int|
            0 <= i < name.len() && j == i + 1 && j < name.len() implies !(#[trigger] name[i] == '.'
            && #[trigger] name[j] == '.') by {
            if name[i] == '.' && name[j] == '.' {
                assert(".."@ =~= name.skip(i).subrange(0, 2));
                assert(".."@.is_prefix_of(name.skip(i)));
            }
        }
    }
}

/// The limit of uploads is counted in units of 2^20 bytes.
pub proof fn law_upload_limit(limit: u64)
    ensures
        limit <= 0xfffffffffff ==> upload_bytes(limit) == limit * 1048576,
        limit > 0xfffffffffff ==> upload_bytes(limit) == u64::MAX,
{
}

/// The server that comes in is the one that its token is about.
pub proof fn law_subjects(c: Claims, s: String)
    ensures
        subject((Claims { sub: Some(s), ..c })) == ids::uuid_value(s@),
        subject((Claims { sub: None, ..c })) is None,
{
}

} // verus!
