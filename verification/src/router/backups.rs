//! Backups: how they are made, uploaded, restored and deleted.
use vstd::prelude::*;
use crate::config::Config;
use crate::error::{AppError, AppResult};
use crate::ids;
use crate::json;
use crate::json::{Doc, Json};
use crate::numbers;
use crate::paths;
use crate::remote::types::{BackupPart, BackupRemoteStatus};
use crate::server::events;
use crate::server::events::{Frame, ServerEvent};
use crate::server::server::Server;
use crate::text;

verus! {

/// Where backups are kept.
#[derive(Debug, Clone, Copy, PartialEq, Eq, Structural)]
pub enum Adapter {
    /// on this node
    Wings,
    S3,
}

/// Reads the id of a backup. One that is no UUID cannot be processed.
pub fn backup_id(id: &str) -> (r: AppResult<String>)
    ensures
        match r {
            Ok(u) => ids::uuid_value(id@) matches Some(v) && u@ == ids::hyphenated(
                numbers::hex(v as int, 32),
            ),
            Err(e) => ids::uuid_value(id@) is None && crate::error::is_unprocessable(
                e,
                "invalid backup uuid"@,
            ),
        },
{
    match ids::canonical(id) {
        Some(u) => Ok(u),
        None => Err(AppError::Unprocessable("invalid backup uuid".to_owned())),
    }
}

/// Refuses a backup that cannot be made: to an unknown place, or while the
/// server is installed.
pub fn create_backup(adapter: &str, server: &Server) -> (r: AppResult<Adapter>)
    ensures
        match r {
            Ok(a) => !server.installing && adapter@ == (match a {
                Adapter::Wings => "wings"@,
                Adapter::S3 => "s3"@,
            }),
            Err(AppError::NotImplemented(m)) => adapter@ != "wings"@ && adapter@ != "s3"@ && m@
                == "only the wings and s3 backup adapters are implemented"@,
            Err(e) => (adapter@ == "wings"@ || adapter@ == "s3"@) && server.installing
                && crate::error::is_conflict(e, "server is installing"@),
        },
{
    let wings = text::same(adapter, "wings");
    if !wings && !text::same(adapter, "s3") {
        return Err(
            AppError::NotImplemented(
                "only the wings and s3 backup adapters are implemented".to_owned(),
            ),
        );
    }
    if server.is_installing() {
        return Err(AppError::Conflict("server is installing".to_owned()));
    }
    if wings {
        Ok(Adapter::Wings)
    } else {
        Ok(Adapter::S3)
    }
}

/// Where the archive of a backup is.
pub open spec fn archive_text(daemon: &Config, backup: Seq<char>) -> Seq<char> {
    paths::join(daemon.backup_dir_text(), backup + ".tar.gz"@)
}

/// Where the archive of a backup is.
pub fn archive_path(daemon: &Config, backup: &str) -> (r: String)
    ensures
        r@ == archive_text(daemon, backup@),
{
    paths::join_path(daemon.backup_dir().as_str(), text::cat(backup, ".tar.gz").as_str())
}

/// How much an archive is compressed.
pub fn compression_level(level: &str) -> (r: u32)
    ensures
        r == (if level@ == "none"@ {
            0u32
        } else if level@ == "best_compression"@ {
            9u32
        } else {
            1u32
        }),
{
    if text::same(level, "none") {
        0
    } else if text::same(level, "best_compression") {
        9
    } else {
        1
    }
}

/// Whether something below the root goes into an archive: not the root itself,
/// and no socket.
pub fn is_archived(rel: &str, is_socket: bool) -> (r: bool)
    ensures
        r == (rel@.len() > 0 && !is_socket),
{
    !rel.is_empty() && !is_socket
}

// ---------------------------------------------------------------------------
// Reports
// ---------------------------------------------------------------------------
/// What listeners are told of a backup.
pub open spec fn payload_doc(backup: Seq<char>, successful: bool, checksum: Seq<char>, size: int) -> Doc {
    Doc::Object(
        seq![
            ("checksum"@, Doc::Str(checksum)),
            ("checksum_type"@, Doc::Str("sha1"@)),
            ("file_size"@, Doc::Number(numbers::decimal_int(size))),
            ("is_successful"@, Doc::Bool(successful)),
            ("uuid"@, Doc::Str(backup)),
        ],
    )
}

/// What listeners are told of a backup, as JSON.
pub fn backup_payload(backup: &str, successful: bool, checksum: &str, size: i64) -> (r: String)
    ensures
        r@ == json::compact(payload_doc(backup@, successful, checksum@, size as int)),
{
    let mut m: Vec<(String, Json)> = Vec::new();
    m.push(("checksum".to_owned(), Json::Str(checksum.to_owned())));
    m.push(("checksum_type".to_owned(), Json::Str("sha1".to_owned())));
    m.push(("file_size".to_owned(), Json::Number(numbers::decimal_i64(size))));
    m.push(("is_successful".to_owned(), Json::Bool(successful)));
    m.push(("uuid".to_owned(), Json::Str(backup.to_owned())));
    let all = Json::Object(m);
    proof {
        json::lemma_doc_object(m);
        assert(json::members(m@) =~= payload_doc(
            backup@,
            successful,
            checksum@,
            size as int,
        )->Object_0);
    }
    all.compact_text()
}

/// What listeners are told of a backup that failed.
pub fn backup_failed_json(backup: &str) -> (r: String)
    ensures
        r@ == json::compact(payload_doc(backup@, false, ""@, 0)),
{
    backup_payload(backup, false, "", 0)
}

/// What the panel is told of a backup.
pub open spec fn reports(s: BackupRemoteStatus, successful: bool, checksum: Seq<char>, size: int) -> bool {
    &&& s.checksum@ == checksum
    &&& s.checksum_type@ == "sha1"@
    &&& s.size == size
    &&& s.successful == successful
}

/// What the panel is told of a backup that failed.
pub fn failed_status() -> (r: BackupRemoteStatus)
    ensures
        reports(r, false, ""@, 0),
        r.parts@.len() == 0,
{
    BackupRemoteStatus {
        checksum: "".to_owned(),
        checksum_type: "sha1".to_owned(),
        size: 0,
        successful: false,
        parts: Vec::new(),
    }
}

/// The event that ends a backup, as listeners get it.
pub open spec fn completed_frame(backup: Seq<char>, successful: bool, checksum: Seq<char>, size: int) -> Frame {
    (
        "backup completed"@,
        seq![json::compact(payload_doc(backup, successful, checksum, size))],
    )
}

// ---------------------------------------------------------------------------
// Backups on this node
// ---------------------------------------------------------------------------
/// How the making of an archive went.
#[derive(Debug)]
pub enum Archived {
    /// there is no directory for it
    NoDirectory,
    Failed,
    Made { size: i64, checksum: String },
}

/// What follows.
#[derive(Debug)]
pub struct BackupEnd {
    /// what the panel is told
    pub report: Option<BackupRemoteStatus>,
    /// whether the archive is removed
    pub remove: bool,
}

impl Server {
    /// Begins a backup: listeners are told.
    pub fn begin_backup(&mut self)
        ensures
            final(self).same_but_outbox(*old(self)),
            final(self).said() == old(self).said().push(
                events::message_frame("Preparing backup..."@),
            ),
    {
        self.publish_daemon_message("Preparing backup...".to_owned());
    }

    /// Ends a backup on this node: what the panel is told of it, and what
    /// listeners are.
    pub fn run_backup(&mut self, backup: &str, archived: Archived) -> (r: BackupEnd)
        ensures
            final(self).same_but_outbox(*old(self)),
            match archived {
                Archived::NoDirectory => {
                    &&& r.report is None && !r.remove
                    &&& final(self).said() == old(self).said().push(
                        completed_frame(backup@, false, ""@, 0),
                    )
                },
                Archived::Failed => {
                    &&& r.remove
                    &&& r.report matches Some(s) && reports(s, false, ""@, 0) && s.parts@.len() == 0
                    &&& final(self).said() == old(self).said().push(
                        completed_frame(backup@, false, ""@, 0),
                    )
                },
                Archived::Made { size, checksum } => {
                    &&& !r.remove
                    &&& r.report matches Some(s) && reports(s, true, checksum@, size as int)
                        && s.parts@.len() == 0
                    &&& final(self).said() == old(self).said().push(
                        completed_frame(backup@, true, checksum@, size as int),
                    )
                },
            },
    {
        match archived {
            Archived::NoDirectory => {
                self.publish(ServerEvent::BackupCompleted(backup_failed_json(backup)));
                BackupEnd { report: None, remove: false }
            },
            Archived::Failed => {
                self.publish(ServerEvent::BackupCompleted(backup_failed_json(backup)));
                BackupEnd { report: Some(failed_status()), remove: true }
            },
            Archived::Made { size, checksum } => {
                self.publish(
                    ServerEvent::BackupCompleted(
                        backup_payload(backup, true, checksum.as_str(), size),
                    ),
                );
                BackupEnd {
                    report: Some(
                        BackupRemoteStatus {
                            checksum,
                            checksum_type: "sha1".to_owned(),
                            size,
                            successful: true,
                            parts: Vec::new(),
                        },
                    ),
                    remove: false,
                }
            },
        }
    }
}

// ---------------------------------------------------------------------------
// Backups on S3
// ---------------------------------------------------------------------------
/// How many bytes part `i` of `n` holds, when all but the last one hold
/// `part_size`.
pub open spec fn part_length(size: int, part_size: int, n: int, i: int) -> int {
    if i + 1 < n {
        part_size
    } else {
        size - i * part_size
    }
}

/// Whether an archive can be cut into that many parts. A single part holds all of
/// it, whatever the size of a part is said to be.
pub open spec fn divides(size: int, part_size: int, n: int) -> bool {
    n <= 1 || (0 <= part_size && (n - 1) * part_size <= size)
}

/// The lengths of the parts of an archive, if it can be cut like that.
pub open spec fn part_lengths(size: int, part_size: int, n: nat) -> Seq<int> {
    Seq::new(n, |i: int| part_length(size, part_size, n as int, i))
}

/// The sum of some lengths.
pub open spec fn total(v: Seq<int>) -> int
    decreases v.len(),
{
    if v.len() == 0 {
        0
    } else {
        total(v.drop_last()) + v.last()
    }
}

pub open spec fn lengths_view(v: Seq<u64>) -> Seq<int> {
    v.map_values(|x: u64| x as int)
}

/// Cuts an archive into `n` parts. There is no way when the parts before the
/// last one hold more than there is.
pub fn plan_parts(size: u64, part_size: i64, n: usize) -> (r: Option<Vec<u64>>)
    ensures
        match r {
            Some(v) => divides(size as int, part_size as int, n as int) && lengths_view(v@)
                == part_lengths(size as int, part_size as int, n as nat),
            None => !divides(size as int, part_size as int, n as int),
        },
{
    let mut out: Vec<u64> = Vec::new();
    if n == 0 {
        assert(lengths_view(out@) =~= part_lengths(size as int, part_size as int, 0));
        return Some(out);
    }
    if n == 1 {
        out.push(size);
        assert(0 * part_size == 0) by (nonlinear_arith);
        assert(lengths_view(out@) =~= part_lengths(size as int, part_size as int, 1));
        return Some(out);
    }
    if part_size < 0 {
        return None;
    }
    let each: u64 = part_size as u64;
    let mut left: u64 = size;
    let mut i: usize = 0;
    while i < n - 1
        invariant
            i <= n - 1,
            n > 0,
            each == part_size,
            left == size - i * each,
            i * each <= size,
            lengths_view(out@) =~= part_lengths(size as int, part_size as int, n as nat).take(
                i as int,
            ),
        decreases n - i,
    {
        if left < each {
            proof {
                assert((n - 1) * each >= (i + 1) * each) by (nonlinear_arith)
                    requires
                        n - 1 >= i + 1,
                        each >= 0,
                ;
                assert((i + 1) * each == i * each + each) by (nonlinear_arith);
            }
            return None;
        }
        let ghost before = out@;
        out.push(each);
        left = left - each;
        proof {
            assert((i + 1) * each == i * each + each) by (nonlinear_arith);
            assert(lengths_view(out@) =~= lengths_view(before).push(each as int));
        }
        i = i + 1;
    }
    let ghost before = out@;
    out.push(left);
    proof {
        assert(lengths_view(out@) =~= lengths_view(before).push(left as int));
        assert(lengths_view(out@) =~= part_lengths(size as int, part_size as int, n as nat));
    }
    Some(out)
}

/// The parts of an archive hold all of it.
pub proof fn law_parts_cover_the_archive(size: int, part_size: int, n: nat)
    requires
        size >= 0,
        n > 0,
        divides(size, part_size, n as int),
    ensures
        total(part_lengths(size, part_size, n)) == size,
        forall|i: int|
            0 <= i < n ==> 0 <= #[trigger] part_lengths(size, part_size, n)[i],
{
    let v = part_lengths(size, part_size, n);
    lemma_head(size, part_size, n, (n - 1) as nat);
    assert(v.drop_last() =~= v.take(n - 1));
    assert(v.last() == size - (n - 1) * part_size);
    if n > 1 {
        assert((n - 1) * part_size >= 0) by (nonlinear_arith)
            requires
                n >= 1,
                part_size >= 0,
        ;
    }
}

proof fn lemma_head(size: int, part_size: int, n: nat, k: nat)
    requires
        k < n,
    ensures
        total(part_lengths(size, part_size, n).take(k as int)) == k * part_size,
    decreases k,
{
    let v = part_lengths(size, part_size, n);
    if k > 0 {
        lemma_head(size, part_size, n, (k - 1) as nat);
        assert(v.take(k as int).drop_last() =~= v.take(k - 1));
        assert(v.take(k as int).last() == part_size);
        assert(k * part_size == (k - 1) * part_size + part_size) by (nonlinear_arith);
    } else {
        assert(v.take(0) =~= Seq::empty());
        assert(0 * part_size == 0) by (nonlinear_arith);
    }
}

/// How often the upload of one part is tried.
pub const MAX_ATTEMPTS: u32 = 6;

/// What follows one try to upload a part.
#[derive(Debug, Clone, Copy, PartialEq, Eq, Structural)]
pub enum Upload {
    Done,
    /// try again after so many milliseconds
    Retry(u64),
    Failed,
}

/// The pause after try `attempt`, in milliseconds: it doubles with every try.
pub open spec fn pause(attempt: nat) -> nat
    decreases attempt,
{
    if attempt <= 1 {
        200
    } else {
        2 * pause((attempt - 1) as nat)
    }
}

/// What follows try `attempt`: the answer was `status`, or none came.
pub open spec fn upload_next(status: Option<u16>, attempt: u32) -> Upload {
    let again = Upload::Retry(pause(attempt as nat) as u64);
    match status {
        Some(s) => if 200 <= s < 300 {
            Upload::Done
        } else if 500 <= s < 600 && attempt < MAX_ATTEMPTS {
            again
        } else {
            Upload::Failed
        },
        None => if attempt >= MAX_ATTEMPTS {
            Upload::Failed
        } else {
            again
        },
    }
}

/// What follows a try to upload a part. Tries are counted from 1.
pub fn upload_step(status: Option<u16>, attempt: u32) -> (r: Upload)
    requires
        attempt >= 1,
    ensures
        r == upload_next(status, attempt),
{
    let failed = match status {
        Some(s) => {
            if 200 <= s && s < 300 {
                return Upload::Done;
            }
            !(500 <= s && s < 600) || attempt >= MAX_ATTEMPTS
        },
        None => attempt >= MAX_ATTEMPTS,
    };
    if failed {
        return Upload::Failed;
    }
    let mut ms: u64 = 200;
    let mut i: u32 = 1;
    proof {
        reveal_with_fuel(pause, 6);
    }
    while i < attempt
        invariant
            1 <= i <= attempt < MAX_ATTEMPTS,
            ms == pause(i as nat),
            ms <= 200 * 32,
            i == 1 ==> ms == 200,
            i == 2 ==> ms == 400,
            i == 3 ==> ms == 800,
            i == 4 ==> ms == 1600,
            i == 5 ==> ms == 3200,
        decreases attempt - i,
    {
        ms = ms * 2;
        i = i + 1;
    }
    Upload::Retry(ms)
}

/// A part is tried at most six times, and a refusal is not tried again.
pub proof fn law_uploads_are_tried_six_times(status: Option<u16>, attempt: u32)
    ensures
        upload_next(status, attempt) is Retry ==> attempt < 6,
        status matches Some(s) && 300 <= s < 500 ==> upload_next(status, attempt) is Failed,
{
}

/// What is done for a backup on S3, up to the upload.
#[derive(Debug, Clone, Copy, PartialEq, Eq, Structural)]
pub enum S3Step {
    MakeDirectory,
    Archive,
    /// ask the panel where the parts go
    Urls,
    /// open the archive
    Open,
}

/// What follows a step.
#[derive(Debug)]
pub enum S3Next {
    Go(S3Step),
    /// begin to upload
    Upload,
    End(BackupEnd),
}

/// The upload of a backup.
#[derive(Debug)]
pub struct S3Upload {
    size: u64,
    lengths: Vec<u64>,
    done: Vec<BackupPart>,
    attempt: u32,
}

/// What is done next to upload a backup.
#[derive(Debug)]
pub enum UploadAction {
    /// read the next `length` bytes, and send them as part `part`
    Send { part: usize, length: u64 },
    /// send part `part` again, after so many milliseconds
    Resend { part: usize, ms: u64 },
    /// the upload is over: tell the panel, and remove the archive
    End(BackupEnd),
}

pub open spec fn parts_view(v: Seq<BackupPart>) -> Seq<(i64, Seq<char>)> {
    v.map_values(|p: BackupPart| (p.part_number, p.etag@))
}

/// How far an upload is.
#[verifier::ext_equal]
pub struct UploadView {
    pub size: u64,
    /// the lengths of all parts
    pub lengths: Seq<u64>,
    /// the parts that are there, with what the storage calls them
    pub done: Seq<(i64, Seq<char>)>,
    /// how often the current part was tried
    pub attempt: u32,
}

impl View for S3Upload {
    type V = UploadView;

    closed spec fn view(&self) -> UploadView {
        UploadView {
            size: self.size,
            lengths: self.lengths@,
            done: parts_view(self.done@),
            attempt: self.attempt,
        }
    }
}

/// An upload that goes on: the parts that are there are numbered from 1, and a
/// part is being tried.
pub open spec fn going(v: UploadView) -> bool {
    &&& v.done.len() < v.lengths.len() <= i64::MAX
    &&& numbered(v.done)
    &&& v.attempt < MAX_ATTEMPTS
}

/// Parts are numbered from 1 in their order.
pub open spec fn numbered(v: Seq<(i64, Seq<char>)>) -> bool {
    forall|i: int| 0 <= i < v.len() ==> (#[trigger] v[i]).0 == i + 1
}

impl Server {
    /// What follows a step of a backup on S3.
    pub fn run_s3_backup(&mut self, backup: &str, step: S3Step, ok: bool) -> (r: S3Next)
        ensures
            final(self).same_but_outbox(*old(self)),
            ok ==> final(self).said() == old(self).said() && r == (match step {
                S3Step::MakeDirectory => S3Next::Go(S3Step::Archive),
                S3Step::Archive => S3Next::Go(S3Step::Urls),
                S3Step::Urls => S3Next::Go(S3Step::Open),
                S3Step::Open => S3Next::Upload,
            }),
            !ok ==> {
                &&& final(self).said() == old(self).said().push(
                    completed_frame(backup@, false, ""@, 0),
                )
                &&& r matches S3Next::End(e) && e.remove == (step == S3Step::Urls || step
                    == S3Step::Open) && (e.report is None) == (step == S3Step::MakeDirectory)
                    && (e.report matches Some(s) ==> reports(s, false, ""@, 0) && s.parts@.len()
                    == 0)
            },
    {
        if ok {
            return match step {
                S3Step::MakeDirectory => S3Next::Go(S3Step::Archive),
                S3Step::Archive => S3Next::Go(S3Step::Urls),
                S3Step::Urls => S3Next::Go(S3Step::Open),
                S3Step::Open => S3Next::Upload,
            };
        }
        self.publish(ServerEvent::BackupCompleted(backup_failed_json(backup)));
        S3Next::End(
            match step {
                S3Step::MakeDirectory => BackupEnd { report: None, remove: false },
                S3Step::Archive => BackupEnd { report: Some(failed_status()), remove: false },
                S3Step::Urls => BackupEnd { report: Some(failed_status()), remove: true },
                S3Step::Open => BackupEnd { report: Some(failed_status()), remove: true },
            },
        )
    }
}

/// The end of an upload: the archive is not kept, and the panel is told.
fn uploaded(status: BackupRemoteStatus) -> (r: UploadAction)
    ensures
        r == UploadAction::End(BackupEnd { report: Some(status), remove: true }),
{
    UploadAction::End(BackupEnd { report: Some(status), remove: true })
}

impl S3Upload {
    /// The end of an upload once all parts are there: the archive is removed, and
    /// the panel is told of the parts.
    pub open spec fn finished(v: UploadView, done: Seq<(i64, Seq<char>)>, a: UploadAction) -> bool {
        a matches UploadAction::End(e) && e.remove && (e.report matches Some(s) && reports(
            s,
            true,
            ""@,
            v.size as int,
        ) && parts_view(s.parts@) == done)
    }

    /// The end of an upload once a part has failed: the archive is removed, and the
    /// panel is told of the failure.
    pub open spec fn given_up(v: UploadView, a: UploadAction) -> bool {
        a matches UploadAction::End(e) && e.remove && (e.report matches Some(s) && reports(
            s,
            false,
            ""@,
            0,
        ) && parts_view(s.parts@) == v.done)
    }

    /// Begins to upload an archive of `size` bytes in parts of these lengths. An
    /// archive without parts is there at once.
    pub fn new(size: u64, lengths: Vec<u64>) -> (r: (Self, UploadAction))
        requires
            size <= i64::MAX,
            lengths@.len() <= i64::MAX,
        ensures
            r.0@ == (UploadView { size, lengths: lengths@, done: Seq::empty(), attempt: 0 }),
            if lengths@.len() == 0 {
                S3Upload::finished(r.0@, Seq::empty(), r.1)
            } else {
                r.1 == (UploadAction::Send { part: 0, length: lengths@[0] }) && going(r.0@)
            },
    {
        let first = if lengths.len() == 0 {
            let parts: Vec<BackupPart> = Vec::new();
            assert(parts_view(parts@) =~= Seq::empty());
            uploaded(
                BackupRemoteStatus {
                    checksum: "".to_owned(),
                    checksum_type: "sha1".to_owned(),
                    size: size as i64,
                    successful: true,
                    parts,
                },
            )
        } else {
            UploadAction::Send { part: 0, length: lengths[0] }
        };
        let done: Vec<BackupPart> = Vec::new();
        assert(parts_view(done@) =~= Seq::empty());
        (S3Upload { size, lengths, done, attempt: 0 }, first)
    }

    fn take_done(&mut self) -> (r: Vec<BackupPart>)
        ensures
            r@ == old(self).done@,
    {
        let mut v: Vec<BackupPart> = Vec::new();
        std::mem::swap(&mut v, &mut self.done);
        v
    }

    /// The archive could not be read on: the upload has failed.
    pub fn unreadable(&mut self) -> (r: UploadAction)
        ensures
            S3Upload::given_up(old(self)@, r),
    {
        uploaded(
            BackupRemoteStatus {
                checksum: "".to_owned(),
                checksum_type: "sha1".to_owned(),
                size: 0,
                successful: false,
                parts: self.take_done(),
            },
        )
    }

    /// What follows one try to send the current part: the answer was `status`, or
    /// none came; `etag` is what the storage calls the part.
    pub fn tried(&mut self, status: Option<u16>, etag: String) -> (r: UploadAction)
        requires
            going(old(self)@),
            old(self)@.size <= i64::MAX,
        ensures
            ({
                let v = old(self)@;
                let at = v.done.len() as int;
                let attempt = (v.attempt + 1) as u32;
                let more = v.done.push(((at + 1) as i64, etag@));
                match upload_next(status, attempt) {
                    Upload::Done => {
                        if at + 1 == v.lengths.len() {
                            S3Upload::finished(v, more, r)
                        } else {
                            &&& r == (UploadAction::Send {
                                part: (at + 1) as usize,
                                length: v.lengths[at + 1],
                            })
                            &&& final(self)@ == (UploadView { done: more, attempt: 0, ..v })
                            &&& going(final(self)@)
                        }
                    },
                    Upload::Retry(ms) => {
                        &&& r == (UploadAction::Resend { part: at as usize, ms })
                        &&& final(self)@ == (UploadView { attempt, ..v })
                        &&& going(final(self)@)
                    },
                    Upload::Failed => S3Upload::given_up(v, r),
                }
            }),
    {
        let ghost v = self@;
        assert(self.done@.len() == v.done.len());
        let attempt: u32 = self.attempt + 1;
        match upload_step(status, attempt) {
            Upload::Done => {
                let ghost before = self.done@;
                let at: usize = self.done.len();
                let n: usize = self.lengths.len();
                assert(at < n);
                let ghost shown = etag@;
                self.done.push(BackupPart { part_number: (at + 1) as i64, etag });
                self.attempt = 0;
                proof {
                    assert(parts_view(self.done@) =~= parts_view(before).push(
                        ((at + 1) as i64, shown),
                    ));
                }
                if at + 1 == n {
                    uploaded(
                        BackupRemoteStatus {
                            checksum: "".to_owned(),
                            checksum_type: "sha1".to_owned(),
                            size: self.size as i64,
                            successful: true,
                            parts: self.take_done(),
                        },
                    )
                } else {
                    UploadAction::Send { part: at + 1, length: self.lengths[at + 1] }
                }
            },
            Upload::Retry(ms) => {
                self.attempt = attempt;
                UploadAction::Resend { part: self.done.len(), ms }
            },
            Upload::Failed => self.unreadable(),
        }
    }
}

impl Server {
    /// Ends a backup on S3, once the panel has been told.
    pub fn s3_backup_done(&mut self, backup: &str, status: &BackupRemoteStatus)
        ensures
            final(self).same_but_outbox(*old(self)),
            final(self).said() == old(self).said().push(
                completed_frame(backup@, status.successful, ""@, if status.successful {
                    status.size as int
                } else {
                    0
                }),
            ),
    {
        let size: i64 = if status.successful {
            status.size
        } else {
            0
        };
        self.publish(
            ServerEvent::BackupCompleted(backup_payload(backup, status.successful, "", size)),
        );
    }
}

/// When an upload is reported as a success, every part is there, numbered from 1
/// in the order of the archive.
pub proof fn law_successful_upload_has_all_parts(v: UploadView, etag: Seq<char>, a: UploadAction)
    requires
        going(v),
        v.done.len() + 1 == v.lengths.len(),
        S3Upload::finished(v, v.done.push(((v.done.len() + 1) as i64, etag)), a),
    ensures
        a matches UploadAction::End(e) && e.remove && (e.report matches Some(s) && s.successful
            && s.parts@.len() == v.lengths.len() && numbered(parts_view(s.parts@))),
{
    let s = a->End_0.report->0;
    assert(parts_view(s.parts@).len() == s.parts@.len());
}

/// All parts but the last have the size that was asked for, and the last has what
/// is left; an archive that is too small for that is not cut.
pub proof fn law_parts_are_of_one_size(size: int, part_size: int, n: nat, i: int)
    requires
        0 <= i < n,
    ensures
        part_lengths(size, part_size, n).len() == n,
        i < n - 1 ==> part_lengths(size, part_size, n)[i] == part_size,
        part_lengths(size, part_size, n)[n - 1] == size - (n - 1) * part_size,
        divides(size, part_size, 1) && divides(size, part_size, 0),
        n > 1 ==> (divides(size, part_size, n as int) <==> part_size >= 0 && (n - 1) * part_size
            <= size),
{
}

/// An answer of success ends the tries of a part. Without an answer, or with one that
/// tells of trouble at the other end, it is tried again until it was tried six times;
/// any other answer is final.
pub proof fn law_when_uploads_are_tried_again(status: u16, attempt: u32)
    ensures
        200 <= status < 300 ==> upload_next(Some(status), attempt) is Done,
        status < 200 || 300 <= status < 500 || status >= 600 ==> upload_next(Some(status), attempt)
            is Failed,
        500 <= status < 600 && attempt >= 6 ==> upload_next(Some(status), attempt) is Failed,
        500 <= status < 600 && attempt < 6 ==> upload_next(Some(status), attempt) is Retry,
        attempt >= 6 ==> upload_next(None, attempt) is Failed,
        attempt < 6 ==> upload_next(None, attempt) is Retry,
{
}

/// The pause is 200 milliseconds after the first try, and doubles with every other.
pub proof fn law_pauses_double(attempt: u32)
    requires
        1 <= attempt < 5,
    ensures
        upload_next(None, 1) == Upload::Retry(200),
        upload_next(None, 2) == Upload::Retry(400),
        upload_next(None, 5) == Upload::Retry(3200),
        upload_next(None, attempt) matches Upload::Retry(p) ==> upload_next(
            None,
            (attempt + 1) as u32,
        ) == Upload::Retry((2 * p) as u64),
{
    reveal_with_fuel(pause, 6);
}

/// What listeners get of a backup names it, says how it went, and gives its checksum
/// and its size.
pub proof fn law_backups_are_told(backup: Seq<char>, successful: bool, checksum: Seq<char>, size: int)
    ensures
        payload_doc(backup, successful, checksum, size) matches Doc::Object(m) && m.len() == 5
            && m.contains(("uuid"@, Doc::Str(backup))) && m.contains(
            ("is_successful"@, Doc::Bool(successful)),
        ) && m.contains(("checksum"@, Doc::Str(checksum))) && m.contains(
            ("checksum_type"@, Doc::Str("sha1"@)),
        ) && m.contains(("file_size"@, Doc::Number(numbers::decimal_int(size)))),
        completed_frame(backup, successful, checksum, size) == (
            "backup completed"@,
            seq![json::compact(payload_doc(backup, successful, checksum, size))],
        ),
{
    let m = payload_doc(backup, successful, checksum, size)->Object_0;
    assert(m[4] == ("uuid"@, Doc::Str(backup)));
    assert(m[3] == ("is_successful"@, Doc::Bool(successful)));
    assert(m[0] == ("checksum"@, Doc::Str(checksum)));
    assert(m[1] == ("checksum_type"@, Doc::Str("sha1"@)));
    assert(m[2] == ("file_size"@, Doc::Number(numbers::decimal_int(size))));
}

/// The panel learns of an upload whether it went well, how large the archive is, and
/// the parts with their tags; one that failed is said to be of no size. The archive is
/// removed either way.
pub proof fn law_what_the_panel_learns(v: UploadView, done: Seq<(i64, Seq<char>)>, a: UploadAction)
    ensures
        S3Upload::finished(v, done, a) ==> (a matches UploadAction::End(e) && e.remove && (
        e.report matches Some(s) && s.successful && s.size == v.size && s.checksum@ == ""@
            && s.checksum_type@ == "sha1"@ && s.parts@.len() == done.len() && forall|i: int|
            0 <= i < done.len() ==> (#[trigger] s.parts@[i]).part_number == done[i].0
                && s.parts@[i].etag@ == done[i].1)),
        S3Upload::given_up(v, a) ==> (a matches UploadAction::End(e) && e.remove && (
        e.report matches Some(s) && !s.successful && s.size == 0 && s.checksum@ == ""@
            && s.checksum_type@ == "sha1"@ && s.parts@.len() == v.done.len() && forall|i: int|
            0 <= i < v.done.len() ==> (#[trigger] s.parts@[i]).part_number == v.done[i].0
                && s.parts@[i].etag@ == v.done[i].1)),
{
    if S3Upload::finished(v, done, a) {
        let s = a->End_0.report->0;
        assert forall|i: int| 0 <= i < done.len() implies (#[trigger] s.parts@[i]).part_number
            == done[i].0 && s.parts@[i].etag@ == done[i].1 by {
            assert(parts_view(s.parts@)[i] == done[i]);
        }
        assert(parts_view(s.parts@).len() == s.parts@.len());
    }
    if S3Upload::given_up(v, a) {
        let s = a->End_0.report->0;
        assert forall|i: int| 0 <= i < v.done.len() implies (#[trigger] s.parts@[i]).part_number
            == v.done[i].0 && s.parts@[i].etag@ == v.done[i].1 by {
            assert(parts_view(s.parts@)[i] == v.done[i]);
        }
        assert(parts_view(s.parts@).len() == s.parts@.len());
    }
}

/// The archive of a backup has its name, in the directory of backups.
pub proof fn law_where_archives_are(daemon: &Config, backup: Seq<char>)
    requires
        backup.len() > 0 && backup[0] != '/',
        daemon.system.backup_directory@.len() > 0 && daemon.system.backup_directory@.last() != '/',
    ensures
        archive_text(daemon, backup) == daemon.system.backup_directory@ + "/"@ + (backup
            + ".tar.gz"@),
{
}

} // verus!
