//! Who may do what over SFTP, and on which files.
use vstd::prelude::*;
use crate::config::Config;
use crate::ids;
use crate::json;
use crate::json::{Doc, Json};
use crate::models::activity::{user_of, Activity};
use crate::numbers;
use crate::paths;
use crate::remote::types::SftpAuthRequest;
use crate::server::files;
use crate::text;

verus! {

pub const PERM_READ: &'static str = "file.read";

pub const PERM_READ_CONTENT: &'static str = "file.read-content";

pub const PERM_CREATE: &'static str = "file.create";

pub const PERM_UPDATE: &'static str = "file.update";

pub const PERM_DELETE: &'static str = "file.delete";

/// What a client is told when something goes wrong.
#[derive(Debug, Clone, Copy, PartialEq, Eq, Structural)]
pub enum SftpCode {
    Eof,
    NoSuchFile,
    PermissionDenied,
    Failure,
    OpUnsupported,
}

#[derive(Debug)]
pub struct SftpFault {
    pub code: SftpCode,
    pub message: &'static str,
}

pub open spec fn is_fault(f: SftpFault, code: SftpCode, message: Seq<char>) -> bool {
    f.code == code && f.message@ == message
}

fn fault(code: SftpCode, message: &'static str) -> (r: SftpFault)
    ensures
        is_fault(r, code, message@),
{
    SftpFault { code, message }
}

// ---------------------------------------------------------------------------
// Users
// ---------------------------------------------------------------------------
/// Whether a name is one of a user of a server: eight hexadecimal digits stand
/// behind its last dot.
pub open spec fn is_username(user: Seq<char>) -> bool {
    let at = text::last_of(user, '.');
    at >= 0 && user.skip(at + 1).len() == 8 && numbers::all_hex(user.skip(at + 1))
}

/// Whether a name is one of a user of a server.
pub fn valid_username(user: &str) -> (r: bool)
    ensures
        r == is_username(user@),
{
    let a = text::chars_of(user);
    let at = match text::rfind(a.as_slice(), '.') {
        Some(i) => i,
        None => {
            return false;
        },
    };
    let suffix = text::slice_of(a.as_slice(), at + 1, a.len());
    assert(suffix@ =~= user@.skip(at + 1));
    if suffix.len() != 8 {
        return false;
    }
    let mut i: usize = 0;
    while i < suffix.len()
        invariant
            i <= suffix.len(),
            suffix@ == user@.skip(at + 1),
            text::last_of(user@, '.') == at,
            forall|k: int| 0 <= k < i ==> numbers::is_hex_digit(#[trigger] suffix@[k]),
        decreases suffix.len() - i,
    {
        let c = suffix[i];
        if !(('0' <= c && c <= '9') || ('a' <= c && c <= 'f') || ('A' <= c && c <= 'F')) {
            assert(!numbers::is_hex_digit(suffix@[i as int]));
            return false;
        }
        i = i + 1;
    }
    true
}

/// Who is logged in.
#[derive(Debug, Clone)]
pub struct Authed {
    pub server: String,
    pub user: String,
    pub permissions: Vec<String>,
}

impl Authed {
    /// Whether the user may do something.
    pub open spec fn may(&self, perm: Seq<char>) -> bool {
        exists|i: int|
            0 <= i < self.permissions@.len() && ((#[trigger] self.permissions@[i])@ == "*"@
                || self.permissions@[i]@ == perm)
    }

    /// Whether the user may do something.
    pub fn can(&self, perm: &str) -> (r: bool)
        ensures
            r == self.may(perm@),
    {
        let mut i: usize = 0;
        while i < self.permissions.len()
            invariant
                i <= self.permissions.len(),
                forall|k: int|
                    0 <= k < i ==> (#[trigger] self.permissions@[k])@ != "*"@
                        && self.permissions@[k]@ != perm@,
            decreases self.permissions.len() - i,
        {
            let p = self.permissions[i].as_str();
            if text::same(p, "*") || text::same(p, perm) {
                assert(self.permissions@[i as int]@ == p@);
                return true;
            }
            i = i + 1;
        }
        false
    }
}

/// What the panel is asked of someone who wants to log in. Names that are none
/// of a user are refused without asking.
pub fn auth_request(kind: &str, user: &str, password: &str, ip: &str) -> (r: Option<
    SftpAuthRequest,
>)
    ensures
        match r {
            Some(q) => is_username(user@) && q.kind@ == kind@ && q.username@ == user@ && q.password@
                == password@ && q.ip@ == ip@ && q.session_id@ == ""@ && q.client_version@ == ""@,
            None => !is_username(user@),
        },
{
    if !valid_username(user) {
        return None;
    }
    Some(
        SftpAuthRequest {
            kind: kind.to_owned(),
            username: user.to_owned(),
            password: password.to_owned(),
            ip: ip.to_owned(),
            session_id: "".to_owned(),
            client_version: "".to_owned(),
        },
    )
}

/// What the panel answers: the server, if the user has one, who the user is, and
/// what they may do.
#[derive(Debug)]
pub struct AuthAnswer {
    pub server: Option<String>,
    pub user: String,
    pub permissions: Vec<String>,
}

/// Who is logged in, by the answer of the panel: nobody when there is none, or
/// no server in it.
pub fn validate(answer: Option<AuthAnswer>) -> (r: Option<Authed>)
    ensures
        match answer {
            None => r is None,
            Some(a) => match a.server {
                None => r is None,
                Some(s) => r == Some(
                    Authed { server: s, user: a.user, permissions: a.permissions },
                ),
            },
        },
{
    match answer {
        None => None,
        Some(a) => match a.server {
            None => None,
            Some(s) => Some(Authed { server: s, user: a.user, permissions: a.permissions }),
        },
    }
}

/// Where the files of a user's server are: the directory of the server, or the
/// one of its name where the name is no UUID.
pub fn data_dir(authed: &Authed, daemon: &Config, fallback: &str) -> (r: String)
    ensures
        ids::uuid_value(authed.server@) is None ==> r@ == paths::join(fallback@, authed.server@),
        ids::uuid_value(authed.server@) is Some ==> r@ == paths::join(
            daemon.system.data@,
            authed.server@,
        ),
{
    if ids::is_uuid(authed.server.as_str()) {
        daemon.data_dir(authed.server.as_str())
    } else {
        paths::join_path(fallback, authed.server.as_str())
    }
}

// ---------------------------------------------------------------------------
// Operations
// ---------------------------------------------------------------------------
/// What a client asks for.
#[derive(Debug, Clone, Copy, PartialEq, Eq, Structural)]
pub enum SftpOp {
    /// open a file, and whether to write to it or to make it
    Open { write: bool, create: bool },
    Read,
    Write,
    Stat,
    SetStat,
    OpenDir,
    Remove,
    MakeDir,
    RemoveDir,
    Rename,
    ReadLink,
    Symlink,
    RealPath,
}

/// Whether an operation changes files.
pub open spec fn changes(op: SftpOp) -> bool {
    match op {
        SftpOp::Open { write, .. } => write,
        SftpOp::Write | SftpOp::SetStat | SftpOp::Remove | SftpOp::MakeDir | SftpOp::RemoveDir
        | SftpOp::Rename | SftpOp::Symlink => true,
        _ => false,
    }
}

/// The permission that an operation needs, if any, and what a user without it
/// is told.
pub open spec fn needed(op: SftpOp) -> Option<(Seq<char>, Seq<char>)> {
    match op {
        SftpOp::Open { write, create } => if !write {
            None
        } else if create {
            Some(("file.create"@, "missing file.create/file.update"@))
        } else {
            Some(("file.update"@, "missing file.create/file.update"@))
        },
        SftpOp::Read => Some(("file.read-content"@, "missing file.read-content"@)),
        SftpOp::Write | SftpOp::SetStat | SftpOp::Rename => Some(
            ("file.update"@, "missing file.update"@),
        ),
        SftpOp::Stat | SftpOp::OpenDir | SftpOp::ReadLink => Some(
            ("file.read"@, "missing file.read"@),
        ),
        SftpOp::Remove | SftpOp::RemoveDir => Some(("file.delete"@, "missing file.delete"@)),
        SftpOp::MakeDir | SftpOp::Symlink => Some(("file.create"@, "missing file.create"@)),
        SftpOp::RealPath => None,
    }
}

/// Refuses an operation: one that changes files of a server that is only read,
/// and one that the user may not do.
pub fn check_op(authed: &Authed, read_only: bool, op: SftpOp) -> (r: Result<(), SftpFault>)
    ensures
        match r {
            Ok(_) => !(read_only && changes(op)) && (needed(op) matches Some(n) ==> authed.may(n.0)),
            Err(f) => if read_only && changes(op) {
                is_fault(f, SftpCode::OpUnsupported, "server is in read-only mode"@)
            } else {
                needed(op) matches Some(n) && !authed.may(n.0) && is_fault(
                    f,
                    SftpCode::PermissionDenied,
                    n.1,
                )
            },
        },
{
    let writes = match op {
        SftpOp::Open { write, .. } => write,
        SftpOp::Write => true,
        SftpOp::SetStat => true,
        SftpOp::Remove => true,
        SftpOp::MakeDir => true,
        SftpOp::RemoveDir => true,
        SftpOp::Rename => true,
        SftpOp::Symlink => true,
        _ => false,
    };
    if read_only && writes {
        return Err(fault(SftpCode::OpUnsupported, "server is in read-only mode"));
    }
    let (perm, missing) = match op {
        SftpOp::Open { write, create } => {
            if !write {
                return Ok(());
            }
            if create {
                (PERM_CREATE, "missing file.create/file.update")
            } else {
                (PERM_UPDATE, "missing file.create/file.update")
            }
        },
        SftpOp::Read => (PERM_READ_CONTENT, "missing file.read-content"),
        SftpOp::Write => (PERM_UPDATE, "missing file.update"),
        SftpOp::SetStat => (PERM_UPDATE, "missing file.update"),
        SftpOp::Rename => (PERM_UPDATE, "missing file.update"),
        SftpOp::Stat => (PERM_READ, "missing file.read"),
        SftpOp::OpenDir => (PERM_READ, "missing file.read"),
        SftpOp::ReadLink => (PERM_READ, "missing file.read"),
        SftpOp::Remove => (PERM_DELETE, "missing file.delete"),
        SftpOp::RemoveDir => (PERM_DELETE, "missing file.delete"),
        SftpOp::MakeDir => (PERM_CREATE, "missing file.create"),
        SftpOp::Symlink => (PERM_CREATE, "missing file.create"),
        SftpOp::RealPath => {
            return Ok(());
        },
    };
    if authed.can(perm) {
        Ok(())
    } else {
        Err(fault(SftpCode::PermissionDenied, missing))
    }
}

/// Every operation that changes files needs a permission, and none is allowed
/// on a server that is only read.
pub proof fn law_changes_need_permission(op: SftpOp)
    requires
        changes(op),
    ensures
        needed(op) is Some,
{
}

/// How a file is asked to be opened.
#[derive(Debug, Clone, Copy, PartialEq, Eq, Structural)]
pub struct OpenRequest {
    pub read: bool,
    pub write: bool,
    pub append: bool,
    pub create: bool,
    pub truncate: bool,
    pub exclude: bool,
}

/// How a file is opened.
#[derive(Debug, Clone, Copy, PartialEq, Eq, Structural)]
pub struct OpenPlan {
    pub read: bool,
    pub write: bool,
    pub append: bool,
    pub create: bool,
    pub truncate: bool,
    pub create_new: bool,
}

/// How a file is opened: for writing when anything is done to it.
pub fn open_plan(q: OpenRequest) -> (r: OpenPlan)
    ensures
        r == (OpenPlan {
            read: q.read,
            write: q.write || q.append || q.create || q.truncate,
            append: q.append,
            create: q.create,
            truncate: q.truncate,
            create_new: q.create && q.exclude,
        }),
{
    OpenPlan {
        read: q.read,
        write: q.write || q.append || q.create || q.truncate,
        append: q.append,
        create: q.create,
        truncate: q.truncate,
        create_new: q.create && q.exclude,
    }
}

/// What is noted when a file was opened.
pub fn open_event(create: bool) -> (r: &'static str)
    ensures
        r@ == (if create {
            "server:sftp.create"@
        } else {
            "server:sftp.write"@
        }),
{
    if create {
        "server:sftp.create"
    } else {
        "server:sftp.write"
    }
}

/// The note of what a user did to a file.
pub fn log_activity(authed: &Authed, event: &str, path: &str, timestamp: String) -> (r: Activity)
    ensures
        r.server@ == authed.server@,
        r.event@ == event@,
        user_of(r.user) == Some(authed.user@),
        r.ip@ == ""@,
        r.timestamp@ == timestamp@,
        json::doc(r.metadata) == Doc::Object(
            seq![("files"@, Doc::Array(seq![Doc::Str(path@)]))],
        ),
{
    let mut items: Vec<Json> = Vec::new();
    items.push(Json::Str(path.to_owned()));
    proof {
        json::lemma_doc_array(items);
        assert(json::docs(items@) =~= seq![Doc::Str(path@)]);
    }
    let mut m = json::no_members();
    json::add_member(&mut m, "files", Json::Array(items));
    assert(json::members(m@) =~= seq![("files"@, Doc::Array(seq![Doc::Str(path@)]))]);
    Activity::new(authed.server.as_str(), event, timestamp).with_user(
        Some(authed.user.clone()),
    ).with_metadata(json::object(m))
}

// ---------------------------------------------------------------------------
// Paths
// ---------------------------------------------------------------------------
/// The steps of a path that go anywhere: neither empty nor `.`.
pub open spec fn real_steps(pieces: Seq<Seq<char>>) -> Seq<Seq<char>>
    decreases pieces.len(),
{
    if pieces.len() == 0 {
        Seq::empty()
    } else if pieces.last().len() == 0 || pieces.last() == "."@ {
        real_steps(pieces.drop_last())
    } else {
        real_steps(pieces.drop_last()).push(pieces.last())
    }
}

/// Steps taken from a directory.
pub open spec fn walked(root: Seq<char>, steps: Seq<Seq<char>>) -> Seq<char>
    decreases steps.len(),
{
    if steps.len() == 0 {
        root
    } else {
        paths::join(walked(root, steps.drop_last()), steps.last())
    }
}

/// The pieces of a path that a client gives.
pub open spec fn pieces_of(path: Seq<char>) -> Seq<Seq<char>> {
    text::split_on(text::trim_start_of(path, '/'), '/')
}

/// Whether a path has a step upwards.
pub open spec fn goes_up(path: Seq<char>) -> bool {
    pieces_of(path).contains(".."@)
}

/// What a path stands for, by its steps, which are given as well.
fn walk(root: &str, path: &str) -> (r: Result<(String, Vec<String>), SftpFault>)
    ensures
        match r {
            Ok((p, steps)) => !goes_up(path@) && p@ == walked(root@, real_steps(pieces_of(path@)))
                && text::texts(steps@) == real_steps(pieces_of(path@)),
            Err(f) => goes_up(path@) && is_fault(f, SftpCode::NoSuchFile, "invalid path"@),
        },
{
    let cleaned = text::trimmed_start_of(path, '/');
    let pieces = text::split_str(cleaned.as_str(), '/');
    let ghost all = pieces_of(path@);
    let mut out = root.to_owned();
    let mut steps: Vec<String> = Vec::new();
    let mut i: usize = 0;
    assert(all == text::texts(pieces@));
    assert(all.take(0) =~= Seq::empty());
    assert(text::texts(steps@) =~= Seq::<Seq<char>>::empty());
    while i < pieces.len()
        invariant
            i <= pieces.len(),
            all == text::texts(pieces@),
            all == pieces_of(path@),
            out@ == walked(root@, real_steps(all.take(i as int))),
            text::texts(steps@) == real_steps(all.take(i as int)),
            forall|k: int| 0 <= k < i ==> #[trigger] all[k] != ".."@,
        decreases pieces.len() - i,
    {
        assert(all.take(i + 1).drop_last() =~= all.take(i as int));
        assert(all[i as int] == pieces@[i as int]@);
        let c = pieces[i].as_str();
        if text::same(c, "..") {
            assert(all[i as int] == ".."@);
            return Err(fault(SftpCode::NoSuchFile, "invalid path"));
        }
        if !c.is_empty() && !text::same(c, ".") {
            let ghost before = steps@;
            let ghost done = real_steps(all.take(i as int));
            out = paths::join_path(out.as_str(), c);
            steps.push(pieces[i].clone());
            proof {
                assert(text::texts(steps@) =~= text::texts(before).push(all[i as int]));
                assert(done.push(all[i as int]).drop_last() =~= done);
            }
        }
        i = i + 1;
    }
    assert(all.take(i as int) =~= all);
    Ok((out, steps))
}

/// What a path of a client stands for below a directory. A path with a step
/// upwards is refused.
pub fn resolve(root: &str, path: &str) -> (r: Result<String, SftpFault>)
    ensures
        match r {
            Ok(p) => !goes_up(path@) && p@ == walked(root@, real_steps(pieces_of(path@)))
                && paths::starts_with(p@, root@),
            Err(f) => goes_up(path@) && is_fault(f, SftpCode::NoSuchFile, "invalid path"@),
        },
{
    proof {
        law_client_paths_lie_below(root@, path@);
    }
    match walk(root, path) {
        Ok((p, _)) => Ok(p),
        Err(f) => Err(f),
    }
}

/// A path of a client as the client sees it: from the root, and without detours.
pub fn real_path(root: &str, path: &str) -> (r: Result<String, SftpFault>)
    ensures
        match r {
            Ok(p) => !goes_up(path@) && p@ == "/"@ + text::join(
                real_steps(pieces_of(path@)),
                "/"@,
            ),
            Err(f) => goes_up(path@) && is_fault(f, SftpCode::NoSuchFile, "invalid path"@),
        },
{
    match walk(root, path) {
        Ok((_, steps)) => Ok(text::cat("/", text::joined(steps.as_slice(), "/").as_str())),
        Err(f) => Err(f),
    }
}

proof fn lemma_pieces_are_relative(s: Seq<char>, i: int)
    requires
        0 <= i < text::split_on(s, '/').len(),
    ensures
        !paths::is_absolute(text::split_on(s, '/')[i]),
    decreases s.len(),
{
    text::lemma_first(s, '/');
    let f = text::first(s, '/');
    if f < s.len() {
        if i == 0 {
            if f > 0 {
                assert(s.take(f)[0] == s[0]);
            }
        } else {
            lemma_pieces_are_relative(s.skip(f + 1), i - 1);
        }
    } else if s.len() > 0 {
        assert(s[0] != '/');
    }
}

proof fn lemma_steps_are_relative(s: Seq<char>, n: nat, i: int)
    requires
        n <= text::split_on(s, '/').len(),
        0 <= i < real_steps(text::split_on(s, '/').take(n as int)).len(),
    ensures
        !paths::is_absolute(real_steps(text::split_on(s, '/').take(n as int))[i]),
    decreases n,
{
    let all = text::split_on(s, '/');
    if n > 0 {
        assert(all.take(n as int).drop_last() =~= all.take(n - 1));
        let rest = real_steps(all.take(n - 1));
        if i < rest.len() {
            lemma_steps_are_relative(s, (n - 1) as nat, i);
        } else {
            lemma_pieces_are_relative(s, n - 1);
        }
    }
}

proof fn lemma_walk_stays_below(root: Seq<char>, steps: Seq<Seq<char>>)
    requires
        forall|i: int| 0 <= i < steps.len() ==> !paths::is_absolute(#[trigger] steps[i]),
    ensures
        paths::starts_with(walked(root, steps), root),
    decreases steps.len(),
{
    if steps.len() == 0 {
        paths::law_starts_with(root, root, root);
    } else {
        let rest = steps.drop_last();
        assert forall|i: int| 0 <= i < rest.len() implies !paths::is_absolute(
            #[trigger] rest[i],
        ) by {
            assert(rest[i] == steps[i]);
        }
        lemma_walk_stays_below(root, rest);
        let w = walked(root, rest);
        assert(!paths::is_absolute(steps[steps.len() - 1]));
        files::lemma_join_components(w, steps.last());
        paths::law_starts_with(walked(root, steps), w, root);
    }
}

/// Whatever path a client gives, what it stands for lies below the directory of
/// the server.
pub proof fn law_client_paths_lie_below(root: Seq<char>, path: Seq<char>)
    ensures
        paths::starts_with(walked(root, real_steps(pieces_of(path))), root),
{
    let s = text::trim_start_of(path, '/');
    let all = pieces_of(path);
    assert(all.take(all.len() as int) =~= all);
    assert forall|i: int| 0 <= i < real_steps(all).len() implies !paths::is_absolute(
        #[trigger] real_steps(all)[i],
    ) by {
        lemma_steps_are_relative(s, all.len(), i);
    }
    lemma_walk_stays_below(root, real_steps(all));
}

/// Where the key is that the daemon shows to clients.
pub fn host_key_path(data: &str) -> (r: String)
    ensures
        r@ == paths::join(paths::join(data@, ".sftp"@), "id_ed25519"@),
{
    paths::join_path(paths::join_path(data, ".sftp").as_str(), "id_ed25519")
}

/// Where SFTP listens; port 0 stands for the usual one.
pub fn bind_address(address: &str, port: u16) -> (r: String)
    ensures
        r@ == address@ + ":"@ + numbers::decimal(
            if port == 0 {
                2022
            } else {
                port as nat
            },
        ),
{
    let p: u64 = if port == 0 {
        2022
    } else {
        port as u64
    };
    text::cat3(address, ":", numbers::decimal_u64(p).as_str())
}

// ---------------------------------------------------------------------------
// Handles
// ---------------------------------------------------------------------------
/// What a client has opened, by the names it was given.
pub struct Handles<H> {
    open: Vec<(u64, H)>,
    last: u64,
}

impl<H> Handles<H> {
    /// What is open.
    pub closed spec fn entries(&self) -> Seq<(u64, H)> {
        self.open@
    }

    /// The number given last.
    pub closed spec fn given(&self) -> u64 {
        self.last
    }

    /// All numbers were given, and none twice.
    pub open spec fn sound(&self) -> bool {
        &&& forall|i: int|
            0 <= i < self.entries().len() ==> 0 < (#[trigger] self.entries()[i]).0 <= self.given()
        &&& forall|i: int, j: int|
            0 <= i < j < self.entries().len() ==> (#[trigger] self.entries()[i]).0 != (
            #[trigger] self.entries()[j]).0
    }

    pub fn new() -> (r: Self)
        ensures
            r.entries().len() == 0,
            r.given() == 0,
            r.sound(),
    {
        Handles { open: Vec::new(), last: 0 }
    }

    /// Keeps what was opened, and names it by the next number. There is no name
    /// when all numbers were given.
    pub fn insert_handle(&mut self, h: H) -> (r: Option<String>)
        requires
            old(self).sound(),
        ensures
            final(self).sound(),
            match r {
                Some(id) => final(self).given() == old(self).given() + 1 && id@ == numbers::decimal(
                    final(self).given() as nat,
                ) && final(self).entries() == old(self).entries().push((final(self).given(), h)),
                None => old(self).given() == u64::MAX && final(self).entries()
                    == old(self).entries(),
            },
    {
        if self.last == u64::MAX {
            return None;
        }
        self.last = self.last + 1;
        let n: u64 = self.last;
        self.open.push((n, h));
        proof {
            let was = old(self).entries();
            let now = self.entries();
            assert forall|i: int| 0 <= i < now.len() implies 0 < (#[trigger] now[i]).0
                <= self.given() by {
                if i < was.len() {
                    assert(now[i] == was[i]);
                }
            }
            assert forall|i: int, j: int| 0 <= i < j < now.len() implies (#[trigger] now[i]).0 != (
            #[trigger] now[j]).0 by {
                assert(now[i] == was[i]);
                if j < was.len() {
                    assert(now[j] == was[j]);
                }
            }
        }
        Some(numbers::decimal_u64(n))
    }

    fn find(&self, id: &str) -> (r: Option<usize>)
        ensures
            match r {
                Some(i) => i < self.open@.len() && numbers::decimal(self.open@[i as int].0 as nat)
                    == id@,
                None => forall|i: int|
                    0 <= i < self.open@.len() ==> numbers::decimal(
                        (#[trigger] self.open@[i]).0 as nat,
                    ) != id@,
            },
    {
        let mut i: usize = 0;
        while i < self.open.len()
            invariant
                i <= self.open.len(),
                forall|k: int|
                    0 <= k < i ==> numbers::decimal((#[trigger] self.open@[k]).0 as nat) != id@,
            decreases self.open.len() - i,
        {
            let name = numbers::decimal_u64(self.open[i].0);
            if text::same(name.as_str(), id) {
                return Some(i);
            }
            i = i + 1;
        }
        None
    }

    /// What a client has opened under a name.
    pub fn get(&self, id: &str) -> (r: Result<&H, SftpFault>)
        ensures
            match r {
                Ok(h) => exists|i: int|
                    0 <= i < self.entries().len() && numbers::decimal(
                        (#[trigger] self.entries()[i]).0 as nat,
                    ) == id@ && self.entries()[i].1 == *h,
                Err(f) => is_fault(f, SftpCode::NoSuchFile, "invalid handle"@) && forall|i: int|
                    0 <= i < self.entries().len() ==> numbers::decimal(
                        (#[trigger] self.entries()[i]).0 as nat,
                    ) != id@,
            },
    {
        match self.find(id) {
            Some(i) => {
                assert(self.entries()[i as int].1 == self.open@[i as int].1);
                Ok(&self.open[i].1)
            },
            None => Err(fault(SftpCode::NoSuchFile, "invalid handle")),
        }
    }

    /// Closes what was opened under a name, and hands it back.
    pub fn take_handle(&mut self, id: &str) -> (r: Result<H, SftpFault>)
        requires
            old(self).sound(),
        ensures
            final(self).sound(),
            final(self).given() == old(self).given(),
            match r {
                Ok(h) => exists|i: int|
                    0 <= i < old(self).entries().len() && numbers::decimal(
                        (#[trigger] old(self).entries()[i]).0 as nat,
                    ) == id@ && old(self).entries()[i].1 == h && final(self).entries() == old(
                        self,
                    ).entries().remove(i),
                Err(f) => is_fault(f, SftpCode::NoSuchFile, "invalid handle"@)
                    && final(self).entries() == old(self).entries() && forall|i: int|
                    0 <= i < old(self).entries().len() ==> numbers::decimal(
                        (#[trigger] old(self).entries()[i]).0 as nat,
                    ) != id@,
            },
    {
        match self.find(id) {
            Some(i) => {
                let ghost before = self.open@;
                let (n, h) = self.open.remove(i);
                proof {
                    assert(old(self).entries()[i as int] == before[i as int]);
                    assert forall|k: int| 0 <= k < self.entries().len() implies 0 < (
                    #[trigger] self.entries()[k]).0 <= self.given() by {
                        let o = if k < i {
                            k
                        } else {
                            k + 1
                        };
                        assert(self.entries()[k] == old(self).entries()[o]);
                    }
                    assert forall|j: int, k: int|
                        0 <= j < k < self.entries().len() implies (#[trigger] self.entries()[j]).0
                        != (#[trigger] self.entries()[k]).0 by {
                        let p = if j < i {
                            j
                        } else {
                            j + 1
                        };
                        let q = if k < i {
                            k
                        } else {
                            k + 1
                        };
                        assert(self.entries()[j] == old(self).entries()[p]);
                        assert(self.entries()[k] == old(self).entries()[q]);
                    }
                }
                Ok(h)
            },
            None => Err(fault(SftpCode::NoSuchFile, "invalid handle")),
        }
    }
}

/// A user of a server has eight hexadecimal digits behind the last dot of the name.
pub proof fn law_usernames(name: Seq<char>, digits: Seq<char>)
    requires
        forall|i: int| 0 <= i < digits.len() ==> #[trigger] digits[i] != '.',
    ensures
        is_username(name + seq!['.'] + digits) <==> digits.len() == 8 && forall|i: int|
            0 <= i < digits.len() ==> numbers::is_hex_digit(#[trigger] digits[i]),
        !is_username(digits),
{
    text::law_last_of(name, '.', digits);
    assert((name + seq!['.'] + digits).skip(name.len() as int + 1) =~= digits);
}

/// The permission that each operation needs.
pub proof fn law_what_operations_need()
    ensures
        needed(SftpOp::Read) matches Some(n) && n.0 == "file.read-content"@,
        needed(SftpOp::Write) matches Some(n) && n.0 == "file.update"@,
        needed(SftpOp::SetStat) matches Some(n) && n.0 == "file.update"@,
        needed(SftpOp::Rename) matches Some(n) && n.0 == "file.update"@,
        needed(SftpOp::Stat) matches Some(n) && n.0 == "file.read"@,
        needed(SftpOp::OpenDir) matches Some(n) && n.0 == "file.read"@,
        needed(SftpOp::ReadLink) matches Some(n) && n.0 == "file.read"@,
        needed(SftpOp::Remove) matches Some(n) && n.0 == "file.delete"@,
        needed(SftpOp::RemoveDir) matches Some(n) && n.0 == "file.delete"@,
        needed(SftpOp::MakeDir) matches Some(n) && n.0 == "file.create"@,
        needed(SftpOp::Symlink) matches Some(n) && n.0 == "file.create"@,
        needed(SftpOp::RealPath) is None,
        needed((SftpOp::Open { write: false, create: true })) is None,
        needed((SftpOp::Open { write: false, create: false })) is None,
        needed((SftpOp::Open { write: true, create: true })) matches Some(n) && n.0
            == "file.create"@,
        needed((SftpOp::Open { write: true, create: false })) matches Some(n) && n.0
            == "file.update"@,
{
}

/// The operations that change files, which a daemon that is read only refuses.
pub proof fn law_what_changes_files(create: bool)
    ensures
        changes((SftpOp::Open { write: true, create })) && !changes(
            (SftpOp::Open { write: false, create }),
        ),
        changes(SftpOp::Write) && changes(SftpOp::SetStat) && changes(SftpOp::Remove) && changes(
            SftpOp::MakeDir,
        ) && changes(SftpOp::RemoveDir) && changes(SftpOp::Rename) && changes(SftpOp::Symlink),
        !changes(SftpOp::Read) && !changes(SftpOp::Stat) && !changes(SftpOp::OpenDir) && !changes(
            SftpOp::ReadLink,
        ) && !changes(SftpOp::RealPath),
{
}

/// Steps that go nowhere are left out, all others are kept in order.
pub proof fn law_real_steps(a: Seq<Seq<char>>, b: Seq<Seq<char>>, n: Seq<char>)
    ensures
        real_steps(a + b) == real_steps(a) + real_steps(b),
        real_steps(seq![n]) == (if n.len() == 0 || n == "."@ {
            Seq::<Seq<char>>::empty()
        } else {
            seq![n]
        }),
    decreases b.len(),
{
    let none = Seq::<Seq<char>>::empty();
    assert(seq![n].drop_last() =~= none);
    assert(real_steps(none) =~= none);
    assert(real_steps(seq![n]) =~= (if n.len() == 0 || n == "."@ {
        none
    } else {
        seq![n]
    }));
    if b.len() == 0 {
        assert(a + b =~= a);
        assert(real_steps(a) + real_steps(b) =~= real_steps(a));
    } else {
        law_real_steps(a, b.drop_last(), n);
        assert((a + b).drop_last() =~= a + b.drop_last());
        assert(real_steps(a + b) =~= real_steps(a) + real_steps(b));
    }
}

/// A path that a client gives is one below the root, with the same steps.
pub proof fn law_client_paths(root: Seq<char>, n: Seq<char>, m: Seq<char>)
    requires
        root.len() > 0 && root.last() != '/',
        paths::is_step(n) && paths::is_step(m),
    ensures
        walked(root, real_steps(pieces_of(n))) == root + "/"@ + n,
        walked(root, real_steps(pieces_of(seq!['/'] + n + seq!['/'] + m))) == root + "/"@ + n
            + "/"@ + m,
        goes_up(n + seq!['/'] + ".."@),
        n != ".."@ ==> !goes_up(n),
{
    reveal_strlit("/");
    reveal_strlit("..");
    let none = Seq::<Seq<char>>::empty();
    assert(n[0] != '/' && m[0] != '/');
    assert(text::trim_start_of(n, '/') == n);
    text::law_split_on(n, '/', m);
    text::law_split_on(m, '/', n);
    law_real_steps(seq![n], seq![m], n);
    law_real_steps(none, none, m);
    assert(seq![n].drop_last() =~= none);
    assert(walked(root, none) == root);
    assert(walked(root, seq![n]) == root + "/"@ + n);
    let p = seq!['/'] + n + seq!['/'] + m;
    let q = n + seq!['/'] + m;
    assert(p.skip(1) =~= q);
    assert(q[0] == n[0]);
    assert(text::trim_start_of(q, '/') == q);
    assert(text::trim_start_of(p, '/') == text::trim_start_of(q, '/'));
    assert(seq![n] + seq![m] =~= seq![n, m]);
    assert(seq![n, m].drop_last() =~= seq![n]);
    assert(walked(root, seq![n, m]) == paths::join(walked(root, seq![n]), m));
    assert((root + "/"@ + n).last() == n.last());
    assert(n[n.len() - 1] != '/');
    // upwards
    let u = n + seq!['/'] + ".."@;
    assert(u[0] == n[0]);
    assert(text::trim_start_of(u, '/') == u);
    text::law_split_on(".."@, '/', n);
    text::law_split_on(n, '/', ".."@);
    assert((seq![n] + seq![".."@])[1] == ".."@);
    if n != ".."@ && goes_up(n) {
        let k = choose|k: int| 0 <= k < seq![n].len() && seq![n][k] == ".."@;
        assert(k == 0);
    }
}

/// A user may do what is permitted by name, and everything with a `*`.
pub proof fn law_who_may(authed: &Authed, perm: Seq<char>, i: int)
    ensures
        0 <= i < authed.permissions@.len() && authed.permissions@[i]@ == perm ==> authed.may(perm),
        0 <= i < authed.permissions@.len() && authed.permissions@[i]@ == "*"@ ==> authed.may(perm),
        (forall|j: int|
            0 <= j < authed.permissions@.len() ==> (#[trigger] authed.permissions@[j])@ != perm
                && authed.permissions@[j]@ != "*"@) ==> !authed.may(perm),
{
}

/// A fault has a code and a message.
pub proof fn law_faults(f: SftpFault, code: SftpCode, message: Seq<char>)
    ensures
        is_fault(f, code, message) <==> f.code == code && f.message@ == message,
{
}

/// What users are told who lack a permission.
pub proof fn law_missing_permissions_are_told(create: bool)
    ensures
        needed(SftpOp::Read) matches Some(n) && n.1 == "missing file.read-content"@,
        needed(SftpOp::Write) matches Some(n) && n.1 == "missing file.update"@,
        needed(SftpOp::SetStat) matches Some(n) && n.1 == "missing file.update"@,
        needed(SftpOp::Rename) matches Some(n) && n.1 == "missing file.update"@,
        needed(SftpOp::Stat) matches Some(n) && n.1 == "missing file.read"@,
        needed(SftpOp::OpenDir) matches Some(n) && n.1 == "missing file.read"@,
        needed(SftpOp::ReadLink) matches Some(n) && n.1 == "missing file.read"@,
        needed(SftpOp::Remove) matches Some(n) && n.1 == "missing file.delete"@,
        needed(SftpOp::RemoveDir) matches Some(n) && n.1 == "missing file.delete"@,
        needed(SftpOp::MakeDir) matches Some(n) && n.1 == "missing file.create"@,
        needed(SftpOp::Symlink) matches Some(n) && n.1 == "missing file.create"@,
        needed((SftpOp::Open { write: true, create })) matches Some(n) && n.1
            == "missing file.create/file.update"@,
{
}

} // verus!
