//! The files of a server.
use vstd::prelude::*;
use crate::error::{AppError, AppResult};
use crate::numbers;
use crate::paths;
use crate::text;

verus! {

/// A directory entry as the panel sees it.
#[derive(Debug, Clone)]
pub struct FileStat {
    pub name: String,
    pub created: String,
    pub modified: String,
    pub mode: String,
    pub mode_bits: String,
    pub size: i64,
    pub directory: bool,
    pub file: bool,
    pub symlink: bool,
    pub mime: String,
}

/// What the system says of a directory entry.
#[derive(Debug, Clone, Copy)]
pub struct EntryFacts {
    pub mode: u32,
    pub is_dir: bool,
    pub is_symlink: bool,
    /// seconds since the epoch
    pub changed: i64,
    pub modified: i64,
    pub size: i64,
}

/// The files of one server, below a root directory.
#[derive(Debug)]
pub struct Filesystem {
    root: String,
    denylist: Vec<String>,
    /// bytes; 0 is unlimited
    disk_limit: i64,
    /// whom new files belong to; -1 for nobody in particular
    chown_uid: i32,
    chown_gid: i32,
}

// ---------------------------------------------------------------------------
// Text in lower case, and times
// ---------------------------------------------------------------------------
/// A text in lower case (`str::to_lowercase`).
pub uninterp spec fn lowercase(s: Seq<char>) -> Seq<char>;

/// Lower-cases a text by the rules of Unicode (`str::to_lowercase`). The result
/// depends on the text alone.
#[verifier::external_body]
pub(crate) fn to_lowercase(s: &str) -> (r: String)
    ensures
        r@ == lowercase(s@),
{
    s.to_lowercase()
}

/// A time as text (`chrono::DateTime::to_rfc3339` of a timestamp); empty for
/// one that is out of range.
pub uninterp spec fn rfc3339(secs: i64) -> Seq<char>;

/// Writes a time (`chrono::DateTime::from_timestamp`, then `to_rfc3339`, in
/// UTC). The text depends on the time alone.
#[verifier::external_body]
pub(crate) fn fmt_time(secs: i64) -> (r: String)
    ensures
        r@ == rfc3339(secs),
{
    chrono::DateTime::from_timestamp(secs, 0).map(|d| d.to_rfc3339()).unwrap_or_default()
}

// ---------------------------------------------------------------------------
// Globs
// ---------------------------------------------------------------------------
/// Whether a pattern matches a text: `**` stands for any text, `*` for any
/// without a slash, `?` for one character that is no slash.
pub open spec fn glob(p: Seq<char>, t: Seq<char>) -> bool
    decreases p.len(),
{
    if p.len() == 0 {
        t.len() == 0
    } else if p[0] == '*' && p.len() > 1 && p[1] == '*' {
        exists|i: int| 0 <= i <= t.len() && glob(p.skip(2), #[trigger] t.skip(i))
    } else if p[0] == '*' {
        exists|i: int|
            0 <= i <= t.len() && (forall|j: int| 0 <= j < i ==> t[j] != '/') && glob(
                p.skip(1),
                #[trigger] t.skip(i),
            )
    } else if p[0] == '?' {
        t.len() > 0 && t[0] != '/' && glob(p.skip(1), t.skip(1))
    } else {
        t.len() > 0 && t[0] == p[0] && glob(p.skip(1), t.skip(1))
    }
}

/// Whether the pattern from `i` on matches the text from `j` on.
fn glob_from(p: &Vec<char>, i: usize, t: &Vec<char>, j: usize) -> (r: bool)
    requires
        i <= p@.len(),
        j <= t@.len(),
    ensures
        r == glob(p@.skip(i as int), t@.skip(j as int)),
    decreases p@.len() - i,
{
    let ghost ps = p@.skip(i as int);
    let ghost ts = t@.skip(j as int);
    if i == p.len() {
        return j == t.len();
    }
    let c: char = p[i];
    assert(ps[0] == c);
    if c == '*' && i + 1 < p.len() && p[i + 1] == '*' {
        assert(ps[1] == '*');
        assert(ps.skip(2) =~= p@.skip(i + 2));
        let mut k: usize = j;
        loop
            invariant
                i + 2 <= p.len(),
                j <= k <= t@.len(),
                ps == p@.skip(i as int),
                ts == t@.skip(j as int),
                ps.skip(2) == p@.skip(i + 2),
                ps.len() > 1,
                ps[0] == '*',
                ps[1] == '*',
                forall|x: int| 0 <= x < k - j ==> !glob(ps.skip(2), #[trigger] ts.skip(x)),
            decreases t@.len() - k,
        {
            assert(ts.skip(k - j) =~= t@.skip(k as int));
            if glob_from(p, i + 2, t, k) {
                assert(glob(ps.skip(2), ts.skip(k - j)));
                return true;
            }
            if k == t.len() {
                return false;
            }
            k = k + 1;
        }
    }
    assert(ps.skip(1) =~= p@.skip(i + 1));
    if c == '*' {
        let mut k: usize = j;
        loop
            invariant
                i + 1 <= p.len(),
                j <= k <= t@.len(),
                ps == p@.skip(i as int),
                ts == t@.skip(j as int),
                ps.skip(1) == p@.skip(i + 1),
                ps.len() > 0,
                ps[0] == '*',
                !(ps.len() > 1 && ps[1] == '*'),
                forall|x: int| 0 <= x < k - j ==> ts[x] != '/',
                forall|x: int| 0 <= x < k - j ==> !glob(ps.skip(1), #[trigger] ts.skip(x)),
            decreases t@.len() - k,
        {
            assert(ts.skip(k - j) =~= t@.skip(k as int));
            if glob_from(p, i + 1, t, k) {
                assert(glob(ps.skip(1), ts.skip(k - j)));
                return true;
            }
            assert(k < t@.len() ==> ts[k - j] == t@[k as int]);
            if k == t.len() || t[k] == '/' {
                return false;
            }
            k = k + 1;
        }
    }
    if j == t.len() {
        return false;
    }
    assert(ts[0] == t@[j as int]);
    assert(ts.skip(1) =~= t@.skip(j + 1));
    if c == '?' {
        if t[j] == '/' {
            return false;
        }
    } else if t[j] != c {
        return false;
    }
    glob_from(p, i + 1, t, j + 1)
}

/// Whether a pattern matches a text.
pub fn glob_match(pattern: &str, t: &str) -> (r: bool)
    ensures
        r == glob(pattern@, t@),
{
    let a = text::chars_of(pattern);
    let b = text::chars_of(t);
    assert(a@.skip(0) =~= a@);
    assert(b@.skip(0) =~= b@);
    glob_from(&a, 0, &b, 0)
}

// ---------------------------------------------------------------------------
// Paths inside the root
// ---------------------------------------------------------------------------
/// A path that climbs.
pub open spec fn climbs(p: Seq<char>) -> bool {
    paths::components(p).contains(".."@)
}

/// What a path that a user gives stands for, below a base.
pub open spec fn resolved(base: Seq<char>, path: Seq<char>) -> Seq<char> {
    paths::join(base, text::trim_start_of(path, '/'))
}

/// The message for a path that leads out of the root.
pub open spec fn escape_message() -> Seq<char> {
    "path escapes the server directory"@
}

/// The components of a path that are names.
pub open spec fn names(c: Seq<Seq<char>>) -> Seq<Seq<char>>
    decreases c.len(),
{
    if c.len() == 0 {
        c
    } else if c.last() == "/"@ || c.last() == ".."@ || c.last() == "."@ {
        names(c.drop_last())
    } else {
        names(c.drop_last()).push(c.last())
    }
}

/// A path as the denylist sees it: its names, joined by slashes.
pub open spec fn normalized(path: Seq<char>) -> Seq<char> {
    text::join(names(paths::components(path)), "/"@)
}

/// A pattern without the slash that ties it to the root.
pub open spec fn from_root(e: Seq<char>) -> Seq<char> {
    if e.len() > 0 && e[0] == '/' {
        e.skip(1)
    } else {
        e
    }
}

/// Whether an entry of the denylist covers a path: one with a slash matches the
/// path from the root, any other one component of it.
pub open spec fn covers(entry: Seq<char>, path: Seq<char>) -> bool {
    let e = text::trim(entry);
    if e.len() == 0 {
        false
    } else if text::first(e, '/') < e.len() {
        from_root(e).len() > 0 && glob(from_root(e), path)
    } else {
        exists|i: int|
            0 <= i < text::split_on(path, '/').len() && glob(
                e,
                #[trigger] text::split_on(path, '/')[i],
            )
    }
}

/// Whether a path is on the denylist.
pub open spec fn denied(list: Seq<Seq<char>>, path: Seq<char>) -> bool {
    exists|i: int| 0 <= i < list.len() && covers(#[trigger] list[i], normalized(path))
}

/// The denylist alone decides, whatever else two file systems are made of; an
/// empty one denies nothing.
pub proof fn law_denylist_decides(a: &Filesystem, b: &Filesystem, path: Seq<char>)
    requires
        a.deny() == b.deny(),
    ensures
        denied(a.deny(), path) == denied(b.deny(), path),
        a.deny().len() == 0 ==> !denied(a.deny(), path),
{
}

/// Splitting two texts joined by the separator is splitting each.
proof fn lemma_split_join(a: Seq<char>, c: char, b: Seq<char>)
    ensures
        text::split_on(a + seq![c] + b, c) == text::split_on(a, c) + text::split_on(b, c),
    decreases a.len(),
{
    let s = a + seq![c] + b;
    text::lemma_first(a, c);
    text::lemma_first(s, c);
    let i = text::first(a, c);
    if i >= a.len() {
        assert(text::first(s, c) == a.len()) by {
            let f = text::first(s, c);
            if f < a.len() {
                assert(s[f] == a[f]);
            }
            assert(s[a.len() as int] == c);
        }
        assert(s.take(a.len() as int) =~= a);
        assert(s.skip(a.len() as int + 1) =~= b);
        assert(text::split_on(a, c) =~= seq![a]);
    } else {
        assert(text::first(s, c) == i) by {
            let f = text::first(s, c);
            assert(s[i] == a[i]);
            if f < i {
                assert(s[f] == a[f]);
            }
        }
        let a2 = a.skip(i + 1);
        lemma_split_join(a2, c, b);
        assert(s.skip(i + 1) =~= a2 + seq![c] + b);
        assert(s.take(i) =~= a.take(i));
        assert(text::split_on(s, c) =~= text::split_on(a, c) + text::split_on(b, c));
    }
}

proof fn lemma_steps_concat(a: Seq<Seq<char>>, b: Seq<Seq<char>>, lead: bool)
    requires
        a.len() > 0,
    ensures
        paths::steps(a + b, lead) == paths::steps(a, lead) + paths::steps(b, false),
    decreases a.len(),
{
    let ab = a + b;
    if a.len() == 1 {
        assert(ab.skip(1) =~= b);
        assert(a.skip(1) =~= Seq::<Seq<char>>::empty());
        assert(paths::steps(a.skip(1), false) =~= Seq::<Seq<char>>::empty());
        assert(paths::steps(ab, lead) =~= paths::steps(a, lead) + paths::steps(b, false));
    } else {
        assert(ab.skip(1) =~= a.skip(1) + b);
        lemma_steps_concat(a.skip(1), b, false);
        assert(paths::steps(ab, lead) =~= paths::steps(a, lead) + paths::steps(b, false));
    }
}

/// The components of a relative path joined to a base follow those of the base.
pub proof fn lemma_join_components(base: Seq<char>, rel: Seq<char>)
    requires
        !paths::is_absolute(rel),
    ensures
        paths::starts_with(paths::join(base, rel), base),
{
    let p = paths::join(base, rel);
    if base.len() == 0 {
        text::lemma_first(base, '/');
        assert(text::split_on(base, '/') =~= seq![base]);
        assert(paths::steps(text::split_on(base, '/').skip(1), false) =~= Seq::empty());
        assert(paths::components(base) =~= Seq::empty());
        assert(paths::components(base) =~= paths::components(p).subrange(0, 0));
    } else {
        let slash = seq!['/'];
        reveal_strlit("/");
        assert("/"@ =~= slash);
        let lead = !paths::is_absolute(base);
        assert(p[0] == base[0]);
        assert(paths::is_absolute(p) == paths::is_absolute(base));
        if base.last() == '/' {
            let b = base.drop_last();
            assert(base =~= b + slash + Seq::<char>::empty());
            assert(p =~= b + slash + rel);
            lemma_split_join(b, '/', rel);
            lemma_split_join(b, '/', Seq::empty());
            text::lemma_split_nonempty(b, '/');
            lemma_steps_concat(text::split_on(b, '/'), text::split_on(rel, '/'), lead);
            lemma_steps_concat(
                text::split_on(b, '/'),
                text::split_on(Seq::<char>::empty(), '/'),
                lead,
            );
            let tail = text::split_on(Seq::<char>::empty(), '/');
            assert(tail =~= seq![Seq::<char>::empty()]);
            assert(paths::steps(tail.skip(1), false) =~= Seq::empty());
            assert(paths::steps(tail, false) =~= Seq::empty());
            let s = paths::steps(text::split_on(b, '/'), lead);
            assert(paths::steps(text::split_on(base, '/'), lead) =~= s);
        } else {
            assert(p =~= base + slash + rel);
            lemma_split_join(base, '/', rel);
            text::lemma_split_nonempty(base, '/');
            lemma_steps_concat(text::split_on(base, '/'), text::split_on(rel, '/'), lead);
        }
        let cb = paths::components(base);
        let cp = paths::components(p);
        assert(cb =~= cp.subrange(0, cb.len() as int));
    }
}

proof fn lemma_trim_start_relative(s: Seq<char>)
    ensures
        !paths::is_absolute(text::trim_start_of(s, '/')),
    decreases s.len(),
{
    if s.len() > 0 && s[0] == '/' {
        lemma_trim_start_relative(s.skip(1));
    }
}

/// Whatever a user gives, what it stands for lies below the base.
pub proof fn law_resolved_lies_below(base: Seq<char>, path: Seq<char>)
    ensures
        paths::starts_with(resolved(base, path), base),
{
    lemma_trim_start_relative(path);
    lemma_join_components(base, text::trim_start_of(path, '/'));
}

/// Resolves a path below a base; one that climbs is refused.
pub fn resolve_below(base: &str, path: &str) -> (r: AppResult<String>)
    ensures
        match r {
            Ok(p) => p@ == resolved(base@, path@) && !climbs(p@) && paths::starts_with(p@, base@),
            Err(e) => climbs(resolved(base@, path@)) && crate::error::is_bad_request(
                e,
                escape_message(),
            ),
        },
{
    let cleaned = text::trimmed_start_of(path, '/');
    let joined = paths::join_path(base, cleaned.as_str());
    let c = paths::components_of(joined.as_str());
    if text::has_text(&c, "..") {
        return Err(AppError::BadRequest("path escapes the server directory".to_owned()));
    }
    proof {
        law_resolved_lies_below(base@, path@);
    }
    Ok(joined)
}

impl Filesystem {
    pub closed spec fn base(&self) -> Seq<char> {
        self.root@
    }

    pub closed spec fn deny(&self) -> Seq<Seq<char>> {
        text::texts(self.denylist@)
    }

    pub closed spec fn limit(&self) -> i64 {
        self.disk_limit
    }

    pub closed spec fn owner(&self) -> (i32, i32) {
        (self.chown_uid, self.chown_gid)
    }

    pub fn new(root: String, denylist: Vec<String>) -> (r: Self)
        ensures
            r.base() == root@,
            r.deny() == text::texts(denylist@),
            r.limit() == 0,
            r.owner() == (-1i32, -1i32),
    {
        Filesystem { root, denylist, disk_limit: 0, chown_uid: -1, chown_gid: -1 }
    }

    pub fn set_disk_limit(&mut self, bytes: i64)
        ensures
            final(self).limit() == bytes,
            final(self).base() == old(self).base(),
            final(self).deny() == old(self).deny(),
            final(self).owner() == old(self).owner(),
    {
        self.disk_limit = bytes;
    }

    pub fn max_disk(&self) -> (r: i64)
        ensures
            r == self.limit(),
    {
        self.disk_limit
    }

    /// Whether `size` more bytes fit under the disk limit when `used` bytes are
    /// taken.
    pub fn has_space_for(&self, size: i64, used: u64) -> (r: bool)
        ensures
            r == (self.limit() <= 0 || used + size <= self.limit()),
    {
        if self.max_disk() <= 0 {
            return true;
        }
        used as i128 + size as i128 <= self.max_disk() as i128
    }

    /// Replaces the denylist: from now on only the new one decides.
    pub fn set_denylist(&mut self, denylist: Vec<String>)
        ensures
            final(self).deny() == text::texts(denylist@),
            final(self).base() == old(self).base(),
            final(self).limit() == old(self).limit(),
            final(self).owner() == old(self).owner(),
    {
        self.denylist = denylist;
    }

    pub fn denylist(&self) -> (r: &Vec<String>)
        ensures
            text::texts(r@) == self.deny(),
    {
        &self.denylist
    }

    pub fn root(&self) -> (r: &str)
        ensures
            r@ == self.base(),
    {
        self.root.as_str()
    }

    /// Whom new files belong to: user and group, or nobody in particular.
    pub fn set_chown_ids(&mut self, uid: i32, gid: i32)
        ensures
            final(self).owner() == (uid, gid),
            final(self).base() == old(self).base(),
            final(self).deny() == old(self).deny(),
            final(self).limit() == old(self).limit(),
    {
        self.chown_uid = uid;
        self.chown_gid = gid;
    }

    /// The user and group that a new file is given to, if any.
    pub fn chown_ids(&self) -> (r: Option<(u32, u32)>)
        ensures
            r == (if self.owner().0 >= 0 && self.owner().1 >= 0 {
                Some((self.owner().0 as u32, self.owner().1 as u32))
            } else {
                None
            }),
    {
        if self.chown_uid >= 0 && self.chown_gid >= 0 {
            Some((self.chown_uid as u32, self.chown_gid as u32))
        } else {
            None
        }
    }

    /// Resolves a path that a user gives. Absolute paths count from the root;
    /// one that climbs is refused.
    pub fn resolve(&self, path: &str) -> (r: AppResult<String>)
        ensures
            match r {
                Ok(p) => p@ == resolved(self.base(), path@) && !climbs(p@) && paths::starts_with(
                    p@,
                    self.base(),
                ),
                Err(e) => climbs(resolved(self.base(), path@)) && crate::error::is_bad_request(
                    e,
                    escape_message(),
                ),
            },
    {
        resolve_below(self.root.as_str(), path)
    }

    /// Resolves a name below a directory that was resolved before.
    pub fn resolve_under(&self, base: &str, rel: &str) -> (r: AppResult<String>)
        ensures
            match r {
                Ok(p) => p@ == resolved(base@, rel@) && !climbs(p@) && paths::starts_with(
                    p@,
                    base@,
                ),
                Err(e) => climbs(resolved(base@, rel@)) && crate::error::is_bad_request(
                    e,
                    escape_message(),
                ),
            },
    {
        resolve_below(base, rel)
    }

    /// Whether a path is on the denylist.
    pub fn is_denied(&self, path: &str) -> (r: bool)
        ensures
            r == denied(self.deny(), path@),
    {
        let c = paths::components_of(path);
        let n = names_of(&c);
        let norm = text::joined(n.as_slice(), "/");
        let mut i: usize = 0;
        while i < self.denylist.len()
            invariant
                i <= self.denylist.len(),
                norm@ == normalized(path@),
                forall|k: int| 0 <= k < i ==> !covers(#[trigger] self.deny()[k], norm@),
            decreases self.denylist.len() - i,
        {
            assert(self.deny()[i as int] == self.denylist@[i as int]@);
            if entry_covers(self.denylist[i].as_str(), norm.as_str()) {
                return true;
            }
            i = i + 1;
        }
        false
    }

    /// Refuses a path that is on the denylist.
    pub fn check_denied(&self, path: &str) -> (r: AppResult<()>)
        ensures
            match r {
                Ok(_) => !denied(self.deny(), path@),
                Err(e) => denied(self.deny(), path@) && crate::error::is_bad_request(
                    e,
                    "path is denied by the file denylist: "@ + path@,
                ),
            },
    {
        if self.is_denied(path) {
            Err(AppError::BadRequest(text::cat("path is denied by the file denylist: ", path)))
        } else {
            Ok(())
        }
    }
}

/// The components of a path that are names.
fn names_of(c: &Vec<String>) -> (r: Vec<String>)
    ensures
        text::texts(r@) == names(text::texts(c@)),
{
    let ghost all = text::texts(c@);
    let mut out: Vec<String> = Vec::new();
    let mut i: usize = 0;
    assert(text::texts(out@) =~= Seq::empty());
    while i < c.len()
        invariant
            i <= c.len(),
            all == text::texts(c@),
            text::texts(out@) == names(all.take(i as int)),
        decreases c.len() - i,
    {
        let ghost before = text::texts(out@);
        assert(all.take(i + 1).drop_last() =~= all.take(i as int));
        assert(all.take(i + 1).last() == c@[i as int]@);
        let p = c[i].as_str();
        if !(text::same(p, "/") || text::same(p, "..") || text::same(p, ".")) {
            out.push(c[i].clone());
            assert(text::texts(out@) =~= before.push(c@[i as int]@));
        }
        i = i + 1;
    }
    assert(all.take(i as int) =~= all);
    out
}

/// Whether an entry of the denylist covers a path.
fn entry_covers(entry: &str, path: &str) -> (r: bool)
    ensures
        r == covers(entry@, path@),
{
    let e = text::trimmed(entry);
    if e.as_str().is_empty() {
        return false;
    }
    let a = text::chars_of(e.as_str());
    assert(a@.skip(0) =~= a@);
    if text::find_from(a.as_slice(), 0, '/') < a.len() {
        let from: usize = if a[0] == '/' {
            1
        } else {
            0
        };
        let b = text::chars_of(path);
        assert(from_root(e@) =~= a@.skip(from as int));
        assert(b@.skip(0) =~= b@);
        return from < a.len() && glob_from(&a, from, &b, 0);
    }
    let parts = text::split_str(path, '/');
    let mut i: usize = 0;
    while i < parts.len()
        invariant
            i <= parts.len(),
            text::texts(parts@) == text::split_on(path@, '/'),
            e@ == text::trim(entry@),
            e@.len() > 0,
            text::first(e@, '/') >= e@.len(),
            forall|k: int|
                0 <= k < i ==> !glob(e@, #[trigger] text::split_on(path@, '/')[k]),
        decreases parts.len() - i,
    {
        assert(text::texts(parts@)[i as int] == parts@[i as int]@);
        if glob_match(e.as_str(), parts[i].as_str()) {
            assert(glob(e@, text::split_on(path@, '/')[i as int]));
            return true;
        }
        i = i + 1;
    }
    false
}

// ---------------------------------------------------------------------------
// Parts of paths
// ---------------------------------------------------------------------------
/// A piece between slashes that is not a step of a path.
pub open spec fn is_idle(piece: Seq<char>) -> bool {
    piece.len() == 0 || piece == "."@
}

/// The pieces behind the first `n` steps. A `.` is a step only where it opens a
/// relative path, which `lead` tells.
pub open spec fn behind_steps(pieces: Seq<Seq<char>>, n: nat, lead: bool) -> Seq<Seq<char>>
    decreases pieces.len(),
{
    if n == 0 || pieces.len() == 0 {
        pieces
    } else if pieces[0].len() == 0 || (pieces[0] == "."@ && !lead) {
        behind_steps(pieces.skip(1), n, false)
    } else {
        behind_steps(pieces.skip(1), (n - 1) as nat, false)
    }
}

/// Pieces without idle ones at the start.
pub open spec fn trim_head(pieces: Seq<Seq<char>>) -> Seq<Seq<char>>
    decreases pieces.len(),
{
    if pieces.len() > 0 && is_idle(pieces[0]) {
        trim_head(pieces.skip(1))
    } else {
        pieces
    }
}

/// Pieces without idle ones at the end.
pub open spec fn trim_tail(pieces: Seq<Seq<char>>) -> Seq<Seq<char>>
    decreases pieces.len(),
{
    if pieces.len() > 0 && is_idle(pieces.last()) {
        trim_tail(pieces.drop_last())
    } else {
        pieces
    }
}

/// A path without idle pieces at its end.
pub open spec fn tidy(path: Seq<char>) -> Seq<char> {
    let kept = trim_tail(text::split_on(path, '/'));
    if kept.len() > 0 || path.len() == 0 {
        text::join(kept, "/"@)
    } else if paths::is_absolute(path) {
        "/"@
    } else {
        "."@
    }
}

/// What a path is relative to one above it.
pub open spec fn below(path: Seq<char>, root: Seq<char>) -> Seq<char> {
    let c = paths::components(root);
    let n = if paths::is_absolute(root) {
        c.len() - 1
    } else {
        c.len() as int
    };
    if root.len() == 0 {
        tidy(path)
    } else {
        let rest = behind_steps(text::split_on(path, '/'), n as nat, !paths::is_absolute(root));
        text::join(trim_tail(trim_head(rest)), "/"@)
    }
}

/// What a path is relative to a root; one that is not below it is left as it is.
pub open spec fn relative(path: Seq<char>, root: Seq<char>) -> Seq<char> {
    if paths::starts_with(path, root) {
        below(path, root)
    } else {
        path
    }
}

/// A path of names with one slash between neighbours.
pub open spec fn is_name_path(x: Seq<char>) -> bool {
    forall|i: int|
        0 <= i < text::split_on(x, '/').len() ==> !is_idle(#[trigger] text::split_on(x, '/')[i])
            && text::split_on(x, '/')[i] != ".."@
}

proof fn lemma_behind_root(a: Seq<Seq<char>>, b: Seq<Seq<char>>, lead: bool)
    requires
        b.len() > 0,
        !is_idle(b[0]),
    ensures
        trim_head(behind_steps(a + b, paths::steps(a, lead).len(), lead)) == b,
    decreases a.len(),
{
    let ab = a + b;
    if a.len() == 0 {
        assert(ab =~= b);
    } else {
        let n = paths::steps(a, lead).len();
        lemma_behind_root(a.skip(1), b, false);
        assert(ab[0] == a[0]);
        assert(ab.skip(1) =~= a.skip(1) + b);
    }
}

/// What was joined to a root is relative to it what it was.
pub proof fn law_relative_undoes_join(root: Seq<char>, x: Seq<char>)
    requires
        is_name_path(x),
    ensures
        relative(paths::join(root, x), root) == x,
{
    let p = paths::join(root, x);
    let b = text::split_on(x, '/');
    let slash = seq!['/'];
    reveal_strlit("/");
    assert("/"@ =~= slash);
    text::law_join_split(x, '/');
    text::lemma_split_nonempty(x, '/');
    text::lemma_first(x, '/');
    assert(!is_idle(b[0]) && !is_idle(b[b.len() - 1]));
    if paths::is_absolute(x) {
        assert(text::first(x, '/') == 0);
        assert(b[0] =~= x.take(0));
    }
    assert(trim_tail(b) == b);
    lemma_join_components(root, x);
    if root.len() > 0 {
        let lead = !paths::is_absolute(root);
        let top = if root.last() == '/' {
            root.drop_last()
        } else {
            root
        };
        assert(p =~= top + slash + x);
        lemma_split_join(top, '/', x);
        let a = text::split_on(top, '/');
        if root.last() == '/' {
            assert(root =~= top + slash + Seq::<char>::empty());
            lemma_split_join(top, '/', Seq::empty());
            text::lemma_split_nonempty(top, '/');
            let tail = text::split_on(Seq::<char>::empty(), '/');
            lemma_steps_concat(a, tail, lead);
            assert(tail =~= seq![Seq::<char>::empty()]);
            assert(paths::steps(tail.skip(1), false) =~= Seq::empty());
            assert(paths::steps(tail, false) =~= Seq::empty());
        }
        assert(paths::steps(text::split_on(root, '/'), lead) =~= paths::steps(a, lead));
        lemma_behind_root(a, b, lead);
    }
}

/// A path that does not lie below a root is left as it is.
pub proof fn law_relative_leaves_others(root: Seq<char>, path: Seq<char>)
    requires
        !paths::starts_with(path, root),
    ensures
        relative(path, root) == path,
{
}

/// The last component of a path, if it is a name.
pub open spec fn last_name(path: Seq<char>) -> Option<Seq<char>> {
    let c = paths::components(path);
    if c.len() == 0 || c.last() == "/"@ || c.last() == ".."@ || c.last() == "."@ {
        None
    } else {
        Some(c.last())
    }
}

/// What follows the last dot of a file's name; nothing when the dot is the first
/// character.
pub open spec fn extension(name: Seq<char>) -> Seq<char> {
    let at = text::last_of(name, '.');
    if at > 0 {
        name.skip(at + 1)
    } else {
        Seq::empty()
    }
}

/// The pieces from `i` on without idle ones at the end.
fn without_tail(pieces: &Vec<String>, i: usize) -> (r: Vec<String>)
    requires
        i <= pieces@.len(),
    ensures
        text::texts(r@) == trim_tail(text::texts(pieces@).skip(i as int)),
{
    let ghost all = text::texts(pieces@);
    let ghost mid = all.skip(i as int);
    assert(mid.take(mid.len() as int) =~= mid);
    let mut j: usize = pieces.len();
    while j > i && (pieces[j - 1].as_str().is_empty() || text::same(pieces[j - 1].as_str(), "."))
        invariant
            i <= j <= pieces.len(),
            all == text::texts(pieces@),
            mid == all.skip(i as int),
            trim_tail(mid) == trim_tail(mid.take(j - i)),
        decreases j,
    {
        assert(mid.take(j - i).last() == pieces@[j - 1]@);
        assert(mid.take(j - i).drop_last() =~= mid.take(j - 1 - i));
        j = j - 1;
    }
    proof {
        if j > i {
            assert(mid.take(j - i).last() == pieces@[j - 1]@);
        }
    }
    let mut out: Vec<String> = Vec::new();
    let mut k: usize = i;
    while k < j
        invariant
            i <= k <= j <= pieces.len(),
            all == text::texts(pieces@),
            mid == all.skip(i as int),
            text::texts(out@) == mid.take(k - i),
        decreases j - k,
    {
        let ghost before = text::texts(out@);
        out.push(pieces[k].clone());
        assert(text::texts(out@) =~= before.push(pieces@[k as int]@));
        assert(mid.take(k + 1 - i) =~= mid.take(k - i).push(mid[k - i]));
        k = k + 1;
    }
    out
}

impl Filesystem {
    /// What a path is relative to the root; one that is not below the root is
    /// left as it is.
    pub fn rel(&self, abs: &str) -> (r: String)
        ensures
            r@ == relative(abs@, self.base()),
    {
        if !paths::is_below(abs, self.root.as_str()) {
            return abs.to_owned();
        }
        let pieces = text::split_str(abs, '/');
        let ghost all = text::texts(pieces@);
        assert(all.skip(0) =~= all);
        let root = text::chars_of(self.root.as_str());
        if root.len() == 0 {
            let kept = without_tail(&pieces, 0);
            assert(text::texts(kept@).len() == kept@.len());
            let path = text::chars_of(abs);
            if kept.len() > 0 || path.len() == 0 {
                return text::joined(kept.as_slice(), "/");
            }
            return if path[0] == '/' {
                "/".to_owned()
            } else {
                ".".to_owned()
            };
        }
        let relative = root[0] != '/';
        let c = paths::components_of(self.root.as_str());
        assert(text::texts(c@).len() == c@.len());
        let mut n: usize = if relative {
            c.len()
        } else {
            c.len() - 1
        };
        let ghost count = n as nat;
        let mut i: usize = 0;
        while i < pieces.len() && n > 0
            invariant
                i <= pieces.len(),
                all == text::texts(pieces@),
                behind_steps(all, count, relative) == behind_steps(
                    all.skip(i as int),
                    n as nat,
                    relative && i == 0,
                ),
            decreases pieces.len() - i,
        {
            assert(all.skip(i as int)[0] == pieces@[i as int]@);
            assert(all.skip(i as int).skip(1) =~= all.skip(i + 1));
            let p = pieces[i].as_str();
            if !(p.is_empty() || (text::same(p, ".") && !(relative && i == 0))) {
                n = n - 1;
            }
            i = i + 1;
        }
        let ghost rest = all.skip(i as int);
        assert(behind_steps(all, count, relative) == rest);
        while i < pieces.len() && (pieces[i].as_str().is_empty() || text::same(
            pieces[i].as_str(),
            ".",
        ))
            invariant
                i <= pieces.len(),
                all == text::texts(pieces@),
                trim_head(rest) == trim_head(all.skip(i as int)),
            decreases pieces.len() - i,
        {
            assert(all.skip(i as int)[0] == pieces@[i as int]@);
            assert(all.skip(i as int).skip(1) =~= all.skip(i + 1));
            i = i + 1;
        }
        proof {
            if i < pieces@.len() {
                assert(all.skip(i as int)[0] == pieces@[i as int]@);
            }
            assert(trim_head(rest) == all.skip(i as int));
        }
        let kept = without_tail(&pieces, i);
        text::joined(kept.as_slice(), "/")
    }
}

/// The last component of a path, if it is a name (`Path::file_name`).
pub fn file_name(path: &str) -> (r: Option<String>)
    ensures
        match r {
            Some(n) => last_name(path@) == Some(n@),
            None => last_name(path@) is None,
        },
{
    let c = paths::components_of(path);
    assert(text::texts(c@).len() == c@.len());
    if c.len() == 0 {
        return None;
    }
    let l = c[c.len() - 1].as_str();
    assert(text::texts(c@).last() == l@);
    if text::same(l, "/") || text::same(l, "..") || text::same(l, ".") {
        None
    } else {
        Some(l.to_owned())
    }
}

// ---------------------------------------------------------------------------
// Directory entries
// ---------------------------------------------------------------------------
/// The kind of a file, by the extension of its name in lower case.
pub open spec fn mime_of(ext: Seq<char>) -> Seq<char> {
    if ext == "txt"@ || ext == "log"@ || ext == "properties"@ || ext == "ini"@ || ext == "cfg"@ {
        "text/plain"@
    } else if ext == "json"@ {
        "application/json"@
    } else if ext == "yml"@ || ext == "yaml"@ {
        "text/yaml"@
    } else if ext == "xml"@ {
        "application/xml"@
    } else if ext == "html"@ || ext == "htm"@ {
        "text/html"@
    } else if ext == "sh"@ || ext == "bash"@ || ext == "bat"@ {
        "text/x-sh"@
    } else if ext == "md"@ {
        "text/markdown"@
    } else if ext == "jar"@ {
        "application/java-archive"@
    } else if ext == "zip"@ {
        "application/zip"@
    } else if ext == "gz"@ {
        "application/gzip"@
    } else if ext == "tar"@ {
        "application/x-tar"@
    } else if ext == "png"@ {
        "image/png"@
    } else if ext == "jpg"@ || ext == "jpeg"@ {
        "image/jpeg"@
    } else if ext == "gif"@ {
        "image/gif"@
    } else if ext == "svg"@ {
        "image/svg+xml"@
    } else if ext == "ico"@ {
        "image/x-icon"@
    } else if ext == "webp"@ {
        "image/webp"@
    } else if ext == "mp3"@ {
        "audio/mpeg"@
    } else if ext == "ogg"@ {
        "audio/ogg"@
    } else if ext == "mp4"@ {
        "video/mp4"@
    } else if ext == "webm"@ {
        "video/webm"@
    } else if ext == "pdf"@ {
        "application/pdf"@
    } else if ext == "class"@ {
        "application/java-vm"@
    } else if ext == "toml"@ {
        "text/toml"@
    } else if ext == "csv"@ {
        "text/csv"@
    } else {
        "application/octet-stream"@
    }
}

/// The kind of a file, by its name.
pub fn mime_for(name: &str) -> (r: &'static str)
    ensures
        r@ == mime_of(text::lower(extension(name@))),
{
    let a = text::chars_of(name);
    let ext = match text::rfind(a.as_slice(), '.') {
        Some(at) => if at > 0 {
            let e = text::slice_of(a.as_slice(), at + 1, a.len());
            assert(e@ =~= name@.skip(at + 1));
            text::string_of(e.as_slice())
        } else {
            String::new()
        },
        None => String::new(),
    };
    let l = text::lowered(ext.as_str());
    let e = l.as_str();
    if text::same(e, "txt") || text::same(e, "log") || text::same(e, "properties") || text::same(
        e,
        "ini",
    ) || text::same(e, "cfg") {
        "text/plain"
    } else if text::same(e, "json") {
        "application/json"
    } else if text::same(e, "yml") || text::same(e, "yaml") {
        "text/yaml"
    } else if text::same(e, "xml") {
        "application/xml"
    } else if text::same(e, "html") || text::same(e, "htm") {
        "text/html"
    } else if text::same(e, "sh") || text::same(e, "bash") || text::same(e, "bat") {
        "text/x-sh"
    } else if text::same(e, "md") {
        "text/markdown"
    } else if text::same(e, "jar") {
        "application/java-archive"
    } else if text::same(e, "zip") {
        "application/zip"
    } else if text::same(e, "gz") {
        "application/gzip"
    } else if text::same(e, "tar") {
        "application/x-tar"
    } else if text::same(e, "png") {
        "image/png"
    } else if text::same(e, "jpg") || text::same(e, "jpeg") {
        "image/jpeg"
    } else if text::same(e, "gif") {
        "image/gif"
    } else if text::same(e, "svg") {
        "image/svg+xml"
    } else if text::same(e, "ico") {
        "image/x-icon"
    } else if text::same(e, "webp") {
        "image/webp"
    } else if text::same(e, "mp3") {
        "audio/mpeg"
    } else if text::same(e, "ogg") {
        "audio/ogg"
    } else if text::same(e, "mp4") {
        "video/mp4"
    } else if text::same(e, "webm") {
        "video/webm"
    } else if text::same(e, "pdf") {
        "application/pdf"
    } else if text::same(e, "class") {
        "application/java-vm"
    } else if text::same(e, "toml") {
        "text/toml"
    } else if text::same(e, "csv") {
        "text/csv"
    } else {
        "application/octet-stream"
    }
}

/// Bit `b` of the permissions, as a letter or a dash.
pub open spec fn bit_char(mode: u32, b: u32, c: char) -> char {
    if (mode / b) % 2 == 1 {
        c
    } else {
        '-'
    }
}

/// A file's type and permissions, as a listing shows them.
pub open spec fn mode_text(f: EntryFacts) -> Seq<char> {
    let m = f.mode;
    seq![
        if f.is_dir {
            'd'
        } else if f.is_symlink {
            'l'
        } else {
            '-'
        },
        bit_char(m, 256, 'r'),
        bit_char(m, 128, 'w'),
        bit_char(m, 64, 'x'),
        bit_char(m, 32, 'r'),
        bit_char(m, 16, 'w'),
        bit_char(m, 8, 'x'),
        bit_char(m, 4, 'r'),
        bit_char(m, 2, 'w'),
        bit_char(m, 1, 'x'),
    ]
}

/// `n` in octal, without leading zeros.
pub open spec fn octal(n: nat) -> Seq<char>
    decreases n,
{
    if n < 8 {
        seq![numbers::digit(n)]
    } else {
        octal(n / 8).push(numbers::digit(n % 8))
    }
}

fn octal_u32(n: u32) -> (r: String)
    ensures
        r@ == octal(n as nat),
    decreases n,
{
    let d: u8 = (n % 8) as u8;
    if n < 8 {
        let mut out = String::new();
        out.push((48 + d) as char);
        out
    } else {
        let mut out = octal_u32(n / 8);
        out.push((48 + d) as char);
        out
    }
}

fn push_bit(out: &mut String, mode: u32, b: u32, c: char)
    requires
        b > 0,
    ensures
        final(out)@ == old(out)@.push(bit_char(mode, b, c)),
{
    out.push(
        if (mode / b) % 2 == 1 {
            c
        } else {
            '-'
        },
    );
}

/// A directory entry as the panel sees it.
pub fn stat_from_meta(path: &str, f: EntryFacts) -> (r: FileStat)
    ensures
        r.name@ == (match last_name(path@) {
            Some(n) => n,
            None => Seq::empty(),
        }),
        r.created@ == rfc3339(f.changed),
        r.modified@ == rfc3339(f.modified),
        r.mode@ == mode_text(f),
        r.mode_bits@ == octal((f.mode % 4096) as nat),
        r.size == f.size,
        r.directory == f.is_dir,
        r.file == !f.is_dir,
        r.symlink == f.is_symlink,
        r.mime@ == (if f.is_dir {
            "inode/directory"@
        } else {
            mime_of(text::lower(extension(r.name@)))
        }),
{
    let name = match file_name(path) {
        Some(n) => n,
        None => String::new(),
    };
    let mut mode = String::new();
    mode.push(
        if f.is_dir {
            'd'
        } else if f.is_symlink {
            'l'
        } else {
            '-'
        },
    );
    push_bit(&mut mode, f.mode, 256, 'r');
    push_bit(&mut mode, f.mode, 128, 'w');
    push_bit(&mut mode, f.mode, 64, 'x');
    push_bit(&mut mode, f.mode, 32, 'r');
    push_bit(&mut mode, f.mode, 16, 'w');
    push_bit(&mut mode, f.mode, 8, 'x');
    push_bit(&mut mode, f.mode, 4, 'r');
    push_bit(&mut mode, f.mode, 2, 'w');
    push_bit(&mut mode, f.mode, 1, 'x');
    assert(mode@ =~= mode_text(f));
    let mime = if f.is_dir {
        "inode/directory".to_owned()
    } else {
        mime_for(name.as_str()).to_owned()
    };
    FileStat {
        name,
        created: fmt_time(f.changed),
        modified: fmt_time(f.modified),
        mode,
        mode_bits: octal_u32(f.mode % 4096),
        size: f.size,
        directory: f.is_dir,
        file: !f.is_dir,
        symlink: f.is_symlink,
        mime,
    }
}

/// How a listing is ordered: directories first, then by name, letter case
/// aside.
pub open spec fn listed_before(a: FileStat, b: FileStat) -> bool {
    if a.directory != b.directory {
        a.directory
    } else {
        text::less(lowercase(a.name@), lowercase(b.name@))
    }
}

/// An ordered listing with one more entry, put behind those it does not come
/// before.
pub open spec fn insert_listed(v: Seq<FileStat>, f: FileStat) -> Seq<FileStat>
    decreases v.len(),
{
    if v.len() == 0 || !listed_before(f, v.last()) {
        v.push(f)
    } else {
        insert_listed(v.drop_last(), f).push(v.last())
    }
}

/// A listing in order, equal entries as they came.
pub open spec fn listing(v: Seq<FileStat>) -> Seq<FileStat>
    decreases v.len(),
{
    if v.len() == 0 {
        v
    } else {
        insert_listed(listing(v.drop_last()), v.last())
    }
}

/// No later entry comes before an earlier one.
pub open spec fn in_order(v: Seq<FileStat>) -> bool {
    forall|i: int, j: int| 0 <= i < j < v.len() ==> !listed_before(#[trigger] v[j], #[trigger] v[i])
}

proof fn lemma_listed_before_order(a: FileStat, b: FileStat, c: FileStat)
    ensures
        !listed_before(a, a),
        listed_before(a, b) && !listed_before(c, b) ==> !listed_before(c, a),
        !listed_before(b, a) && !listed_before(c, b) ==> !listed_before(c, a),
{
    let x = lowercase(a.name@);
    let y = lowercase(b.name@);
    let z = lowercase(c.name@);
    text::lemma_less_irreflexive(x);
    text::lemma_less_irreflexive(y);
    text::lemma_less_irreflexive(z);
    text::lemma_less_total(x, y);
    text::lemma_less_total(y, z);
    text::lemma_less_total(x, z);
    if text::less(x, y) && text::less(z, x) {
        text::lemma_less_transitive(z, x, y);
    }
    if text::less(z, x) && text::less(x, y) {
        text::lemma_less_transitive(z, x, y);
    }
    if text::less(z, x) && text::less(y, z) {
        text::lemma_less_transitive(y, z, x);
    }
}

proof fn lemma_insert_listed(v: Seq<FileStat>, f: FileStat)
    requires
        in_order(v),
    ensures
        in_order(insert_listed(v, f)),
        insert_listed(v, f).to_multiset() == v.to_multiset().insert(f),
        insert_listed(v, f).len() == v.len() + 1,
        forall|i: int|
            0 <= i < insert_listed(v, f).len() ==> insert_listed(v, f)[i] == f || v.contains(
                #[trigger] insert_listed(v, f)[i],
            ),
    decreases v.len(),
{
    broadcast use vstd::seq_lib::group_to_multiset_ensures;

    if v.len() == 0 || !listed_before(f, v.last()) {
        let r = v.push(f);
        assert forall|i: int, j: int| 0 <= i < j < r.len() implies !listed_before(
            #[trigger] r[j],
            #[trigger] r[i],
        ) by {
            if j == v.len() {
                lemma_listed_before_order(r[i], v.last(), f);
                if i < v.len() - 1 {
                    assert(!listed_before(v[v.len() - 1], v[i]));
                }
            }
        }
        assert forall|i: int| 0 <= i < r.len() implies r[i] == f || v.contains(
            #[trigger] r[i],
        ) by {
            if i < v.len() {
                assert(v[i] == r[i]);
            }
        }
    } else {
        let head = v.drop_last();
        let last = v.last();
        lemma_insert_listed(head, f);
        let h = insert_listed(head, f);
        let r = h.push(last);
        assert(v =~= head.push(last));
        assert forall|i: int, j: int| 0 <= i < j < r.len() implies !listed_before(
            #[trigger] r[j],
            #[trigger] r[i],
        ) by {
            if j == h.len() {
                if h[i] == f {
                    lemma_listed_before_order(last, last, last);
                    lemma_listed_before_order(f, last, last);
                } else {
                    assert(head.contains(h[i]));
                    let k = choose|k: int| 0 <= k < head.len() && head[k] == h[i];
                    assert(v[k] == h[i]);
                    assert(!listed_before(v[v.len() - 1], v[k]));
                }
            }
        }
        assert forall|i: int| 0 <= i < r.len() implies r[i] == f || v.contains(
            #[trigger] r[i],
        ) by {
            if i < h.len() {
                assert(h[i] == r[i]);
                if h[i] != f {
                    assert(head.contains(h[i]));
                    let k = choose|k: int| 0 <= k < head.len() && head[k] == h[i];
                    assert(v[k] == h[i]);
                }
            } else {
                assert(v[v.len() - 1] == r[i]);
            }
        }
    }
}

/// A listing holds the entries it was given, in order.
pub proof fn law_listing_is_ordered(v: Seq<FileStat>)
    ensures
        in_order(listing(v)),
        listing(v).to_multiset() == v.to_multiset(),
    decreases v.len(),
{
    broadcast use vstd::seq_lib::group_to_multiset_ensures;

    if v.len() > 0 {
        law_listing_is_ordered(v.drop_last());
        lemma_insert_listed(listing(v.drop_last()), v.last());
        assert(v =~= v.drop_last().push(v.last()));
    }
}

/// Whether an entry comes before another.
fn comes_before(a: &FileStat, b: &FileStat) -> (r: bool)
    ensures
        r == listed_before(*a, *b),
{
    if a.directory != b.directory {
        a.directory
    } else {
        let x = to_lowercase(a.name.as_str());
        let y = to_lowercase(b.name.as_str());
        text::before(x.as_str(), y.as_str())
    }
}

/// Puts a listing in order.
pub fn sort_listing(entries: Vec<FileStat>) -> (r: Vec<FileStat>)
    ensures
        r@ == listing(entries@),
{
    let ghost all = entries@;
    let mut rest = entries;
    let mut taken: Vec<FileStat> = Vec::new();
    // move the entries into a list whose end is the first one
    while rest.len() > 0
        invariant
            rest@.len() <= all.len(),
            rest@ == all.take(rest@.len() as int),
            taken@ == all.skip(rest@.len() as int).reverse(),
        decreases rest.len(),
    {
        let ghost n = rest@.len();
        let e = rest.pop().unwrap();
        taken.push(e);
        assert(rest@ =~= all.take(n - 1));
        assert(taken@ =~= all.skip(n - 1).reverse());
    }
    let mut out: Vec<FileStat> = Vec::new();
    assert(taken@ =~= all.reverse());
    while taken.len() > 0
        invariant
            taken@.len() <= all.len(),
            taken@ == all.reverse().take(taken@.len() as int),
            out@ == listing(all.take(all.len() - taken@.len())),
        decreases taken.len(),
    {
        let ghost n = taken@.len();
        let ghost k = all.len() - n;
        let e = taken.pop().unwrap();
        assert(taken@ =~= all.reverse().take(n - 1));
        assert(e == all[k]);
        assert(all.take(k + 1).drop_last() =~= all.take(k));
        assert(all.take(k + 1).last() == e);
        let ghost sorted = out@;
        let mut at: usize = out.len();
        assert(sorted.take(at as int) =~= sorted);
        assert(insert_listed(sorted, e) =~= insert_listed(sorted.take(at as int), e) + sorted.skip(
            at as int,
        ));
        while at > 0 && comes_before(&e, &out[at - 1])
            invariant
                at <= out.len(),
                sorted == out@,
                insert_listed(sorted, e) == insert_listed(sorted.take(at as int), e) + sorted.skip(
                    at as int,
                ),
            decreases at,
        {
            let ghost head = sorted.take(at as int);
            assert(head.last() == sorted[at - 1]);
            assert(head.drop_last() =~= sorted.take(at - 1));
            assert(insert_listed(head, e) + sorted.skip(at as int) =~= insert_listed(
                sorted.take(at - 1),
                e,
            ) + sorted.skip(at - 1));
            at = at - 1;
        }
        proof {
            if at > 0 {
                assert(sorted.take(at as int).last() == sorted[at - 1]);
            }
            assert(insert_listed(sorted.take(at as int), e) =~= sorted.take(at as int).push(e));
        }
        out.insert(at, e);
        assert(out@ =~= sorted.take(at as int).push(e) + sorted.skip(at as int));
    }
    assert(all.take(all.len() as int) =~= all);
    out
}

// ---------------------------------------------------------------------------
// Operations on files: what they may touch
// ---------------------------------------------------------------------------
/// What a canonical path says of an operation.
#[derive(Debug, Clone, Copy, PartialEq, Eq, Structural)]
pub enum Containment {
    /// the path does not exist; the directory above it is asked
    TryParent,
    Contained,
    Escapes,
}

/// Decides by the canonical form of a path, or of the nearest directory above it
/// that exists, whether it stays below the canonical root.
pub fn containment(canonical: Option<&str>, root: &str) -> (r: Containment)
    ensures
        r == (match canonical {
            None => Containment::TryParent,
            Some(c) => if paths::starts_with(c@, root@) {
                Containment::Contained
            } else {
                Containment::Escapes
            },
        }),
{
    match canonical {
        None => Containment::TryParent,
        Some(c) => if paths::is_below(c, root) {
            Containment::Contained
        } else {
            Containment::Escapes
        },
    }
}

/// The error for a file that cannot be opened: one that is missing is not found
/// when it was to be read, everything else is a bad request.
pub fn open_failure(missing: bool, reading: bool, creating: bool, path: &str, reason: &str) -> (r:
    AppError)
    ensures
        if missing && reading && !creating {
            r is ServerNotFound
        } else {
            crate::error::is_bad_request(r, "cannot open "@ + path@ + ": "@ + reason@)
        },
{
    if missing && reading && !creating {
        AppError::ServerNotFound
    } else {
        let mut m = text::cat3("cannot open ", path, ": ");
        m.append(reason);
        AppError::BadRequest(m)
    }
}

impl Filesystem {
    /// The file that a path stands for, unless it climbs or is on the denylist.
    pub fn guarded(&self, path: &str) -> (r: AppResult<String>)
        ensures
            match r {
                Ok(p) => p@ == resolved(self.base(), path@) && !climbs(p@) && !denied(
                    self.deny(),
                    path@,
                ) && paths::starts_with(p@, self.base()),
                Err(e) => if climbs(resolved(self.base(), path@)) {
                    crate::error::is_bad_request(e, escape_message())
                } else {
                    denied(self.deny(), path@) && crate::error::is_bad_request(
                        e,
                        "path is denied by the file denylist: "@ + path@,
                    )
                },
            },
    {
        let p = match self.resolve(path) {
            Ok(p) => p,
            Err(e) => {
                return Err(e);
            },
        };
        match self.check_denied(path) {
            Ok(_) => Ok(p),
            Err(e) => Err(e),
        }
    }

    /// The file that a name stands for below a directory, unless it is on the
    /// denylist or climbs.
    pub fn guarded_under(&self, base: &str, name: &str) -> (r: AppResult<String>)
        ensures
            match r {
                Ok(p) => p@ == resolved(base@, name@) && !climbs(p@) && !denied(
                    self.deny(),
                    name@,
                ) && paths::starts_with(p@, base@),
                Err(e) => if denied(self.deny(), name@) {
                    crate::error::is_bad_request(
                        e,
                        "path is denied by the file denylist: "@ + name@,
                    )
                } else {
                    climbs(resolved(base@, name@)) && crate::error::is_bad_request(
                        e,
                        escape_message(),
                    )
                },
            },
    {
        match self.check_denied(name) {
            Ok(_) => {},
            Err(e) => {
                return Err(e);
            },
        }
        self.resolve_under(base, name)
    }

    /// Refuses to unpack more than there is room for.
    pub fn check_unpack(&self, unpacked: u64, used: u64) -> (r: AppResult<()>)
        ensures
            ({
                let size = if unpacked > i64::MAX {
                    i64::MAX as int
                } else {
                    unpacked as int
                };
                match r {
                    Ok(_) => self.limit() <= 0 || used + size <= self.limit(),
                    Err(e) => !(self.limit() <= 0 || used + size <= self.limit())
                        && crate::error::is_bad_request(e, "filesystem: not enough disk space"@),
                }
            }),
    {
        let size: i64 = if unpacked > i64::MAX as u64 {
            i64::MAX
        } else {
            unpacked as i64
        };
        if self.has_space_for(size, used) {
            Ok(())
        } else {
            Err(AppError::BadRequest("filesystem: not enough disk space".to_owned()))
        }
    }

    /// Whether `bytes` can be written over a file of `current` bytes.
    pub fn check_write(&self, bytes: i64, current: i64, used: u64) -> (r: AppResult<()>)
        requires
            bytes >= 0,
            current >= 0,
        ensures
            match r {
                Ok(_) => self.limit() <= 0 || used + (bytes - current) <= self.limit(),
                Err(e) => !(self.limit() <= 0 || used + (bytes - current) <= self.limit())
                    && crate::error::is_bad_request(e, "filesystem: not enough disk space"@),
            },
    {
        if self.has_space_for(bytes - current, used) {
            Ok(())
        } else {
            Err(AppError::BadRequest("filesystem: not enough disk space".to_owned()))
        }
    }
}

/// Position of the last piece that is a step; `-1` when there is none.
pub open spec fn last_step(pieces: Seq<Seq<char>>) -> int
    decreases pieces.len(),
{
    if pieces.len() == 0 {
        -1
    } else if is_idle(pieces.last()) {
        last_step(pieces.drop_last())
    } else {
        pieces.len() - 1
    }
}

/// The directory that an absolute path lies in; the root lies in none.
pub open spec fn parent_of(path: Seq<char>) -> Option<Seq<char>> {
    let pieces = text::split_on(path, '/');
    let j = last_step(pieces);
    if j < 0 {
        None
    } else {
        let head = trim_tail(pieces.take(j));
        Some(
            if head.len() == 0 {
                if paths::is_absolute(path) {
                    "/"@
                } else {
                    Seq::empty()
                }
            } else {
                text::join(head, "/"@)
            },
        )
    }
}

/// The directory that an absolute path lies in (`Path::parent`).
pub fn parent(path: &str) -> (r: Option<String>)
    ensures
        match r {
            Some(p) => parent_of(path@) == Some(p@),
            None => parent_of(path@) is None,
        },
{
    let pieces = text::split_str(path, '/');
    let ghost all = text::texts(pieces@);
    let mut j: usize = pieces.len();
    assert(all.take(j as int) =~= all);
    while j > 0 && (pieces[j - 1].as_str().is_empty() || text::same(pieces[j - 1].as_str(), "."))
        invariant
            j <= pieces.len(),
            all == text::texts(pieces@),
            last_step(all) == last_step(all.take(j as int)),
        decreases j,
    {
        assert(all.take(j as int).last() == pieces@[j - 1]@);
        assert(all.take(j as int).drop_last() =~= all.take(j - 1));
        j = j - 1;
    }
    if j == 0 {
        return None;
    }
    assert(all.take(j as int).last() == pieces@[j - 1]@);
    assert(last_step(all) == j - 1);
    let mut k: usize = j - 1;
    let ghost head = all.take(k as int);
    assert(head.take(k as int) =~= head);
    while k > 0 && (pieces[k - 1].as_str().is_empty() || text::same(pieces[k - 1].as_str(), "."))
        invariant
            k <= head.len() <= pieces@.len(),
            all == text::texts(pieces@),
            head == all.take(head.len() as int),
            trim_tail(head) == trim_tail(head.take(k as int)),
        decreases k,
    {
        assert(head.take(k as int).last() == pieces@[k - 1]@);
        assert(head.take(k as int).drop_last() =~= head.take(k - 1));
        k = k - 1;
    }
    proof {
        if k > 0 {
            assert(head.take(k as int).last() == pieces@[k - 1]@);
        }
        assert(trim_tail(head) == head.take(k as int));
    }
    if k == 0 {
        let c = text::chars_of(path);
        if c.len() > 0 && c[0] == '/' {
            return Some("/".to_owned());
        }
        return Some(String::new());
    }
    let mut out: Vec<String> = Vec::new();
    let mut i: usize = 0;
    while i < k
        invariant
            i <= k <= head.len() <= pieces@.len(),
            all == text::texts(pieces@),
            head == all.take(head.len() as int),
            text::texts(out@) == head.take(i as int),
        decreases k - i,
    {
        let ghost before = text::texts(out@);
        out.push(pieces[i].clone());
        assert(text::texts(out@) =~= before.push(pieces@[i as int]@));
        assert(head.take(i + 1) =~= head.take(i as int).push(head[i as int]));
        i = i + 1;
    }
    Some(text::joined(out.as_slice(), "/"))
}

/// Refuses a rename that would move a file to another directory, or over a
/// directory.
pub fn check_rename(src: &str, dst: &str, to: &str, dst_is_dir: bool, src_is_dir: bool) -> (r:
    AppResult<()>)
    ensures
        match r {
            Ok(_) => parent_of(src@) == parent_of(dst@) && !(dst_is_dir && !src_is_dir),
            Err(e) => if parent_of(src@) != parent_of(dst@) {
                crate::error::is_bad_request(
                    e,
                    "rename source and target must be in the same directory"@,
                )
            } else {
                dst_is_dir && !src_is_dir && crate::error::is_bad_request(
                    e,
                    "cannot move file over directory "@ + to@,
                )
            },
        },
{
    let same = match (parent(src), parent(dst)) {
        (Some(a), Some(b)) => text::same(a.as_str(), b.as_str()),
        (None, None) => true,
        _ => false,
    };
    if !same {
        return Err(
            AppError::BadRequest(
                "rename source and target must be in the same directory".to_owned(),
            ),
        );
    }
    if dst_is_dir && !src_is_dir {
        return Err(AppError::BadRequest(text::cat("cannot move file over directory ", to)));
    }
    Ok(())
}

/// The name of the copy of a file that is tried after `attempt` others.
pub fn copy_name(name: &str, attempt: u64) -> (r: String)
    ensures
        r@ == (if attempt == 0 {
            "copy of "@ + name@
        } else {
            "copy of "@ + name@ + " ("@ + numbers::decimal(attempt as nat) + ")"@
        }),
{
    let mut out = text::cat("copy of ", name);
    if attempt > 0 {
        out.append(" (");
        let n = numbers::decimal_u64(attempt);
        out.append(n.as_str());
        out.append(")");
    }
    out
}

/// What an operation with a file that vanished or is a link comes to.
#[derive(Debug, Clone, Copy, PartialEq, Eq, Structural)]
pub enum Removal {
    /// there is nothing to remove
    Nothing,
    Tree,
    File,
}

/// How a path is removed.
pub fn removal(exists: bool, is_dir: bool) -> (r: Removal)
    ensures
        r == (if !exists {
            Removal::Nothing
        } else if is_dir {
            Removal::Tree
        } else {
            Removal::File
        }),
{
    if !exists {
        Removal::Nothing
    } else if is_dir {
        Removal::Tree
    } else {
        Removal::File
    }
}

// ---------------------------------------------------------------------------
// Disk usage
// ---------------------------------------------------------------------------
/// One file that was met: its links, device, inode and length.
pub type Met = (u64, u64, u64, u64);

/// Whether a file is another name of one that was met before.
pub open spec fn is_repeat(before: Seq<Met>, f: Met) -> bool {
    f.0 > 1 && exists|i: int|
        0 <= i < before.len() && (#[trigger] before[i]).0 > 1 && before[i].1 == f.1 && before[i].2
            == f.2
}

/// The length of all files, each inode counted once.
pub open spec fn total_length(files: Seq<Met>) -> int
    decreases files.len(),
{
    if files.len() == 0 {
        0
    } else {
        total_length(files.drop_last()) + (if is_repeat(files.drop_last(), files.last()) {
            0int
        } else {
            files.last().3 as int
        })
    }
}

/// Disk usage, added up file by file.
pub struct DiskUsage {
    total: u64,
    seen: Vec<(u64, u64)>,
    files: Ghost<Seq<Met>>,
}

/// `seen` holds the inodes of the files that have several names.
spec fn lists(seen: Seq<(u64, u64)>, files: Seq<Met>) -> bool {
    forall|k: (u64, u64)| #[trigger] seen.contains(k) <==> linked(files, k)
}

/// A file with several names and this inode was met.
spec fn linked(files: Seq<Met>, k: (u64, u64)) -> bool {
    exists|i: int|
        0 <= i < files.len() && (#[trigger] files[i]).0 > 1 && files[i].1 == k.0 && files[i].2
            == k.1
}

impl DiskUsage {
    /// The files that were added.
    pub closed spec fn met(&self) -> Seq<Met> {
        self.files@
    }

    #[verifier::type_invariant]
    spec fn wf(self) -> bool {
        &&& self.total == (if total_length(self.files@) > u64::MAX {
            u64::MAX as int
        } else {
            total_length(self.files@)
        })
        &&& lists(self.seen@, self.files@)
    }

    pub fn new() -> (r: Self)
        ensures
            r.met() == Seq::<Met>::empty(),
    {
        DiskUsage { total: 0, seen: Vec::new(), files: Ghost(Seq::empty()) }
    }

    /// Adds a file; one with several names counts once.
    pub fn add(&mut self, nlink: u64, dev: u64, ino: u64, len: u64)
        ensures
            final(self).met() == old(self).met().push((nlink, dev, ino, len)),
    {
        let mut cur = DiskUsage::new();
        std::mem::swap(&mut cur, self);
        proof {
            use_type_invariant(&cur);
        }
        let ghost before = cur.files@;
        let ghost f = (nlink, dev, ino, len);
        let ghost after = before.push(f);
        let sum: u64 = cur.total;
        let mut seen: Vec<(u64, u64)> = cur.seen;
        let ghost old_seen = seen@;
        let mut repeat = false;
        if nlink > 1 {
            let mut i: usize = 0;
            while i < seen.len() && !repeat
                invariant
                    i <= seen.len(),
                    repeat == exists|k: int|
                        0 <= k < i && #[trigger] seen@[k] == (dev, ino),
                decreases seen.len() - i,
            {
                if seen[i].0 == dev && seen[i].1 == ino {
                    assert(seen@[i as int] == (dev, ino));
                    repeat = true;
                }
                i = i + 1;
            }
            if !repeat {
                seen.push((dev, ino));
            }
        }
        proof {
            assert(after.drop_last() =~= before);
            assert(repeat == is_repeat(before, f)) by {
                if nlink > 1 {
                    assert(repeat == old_seen.contains((dev, ino)));
                    assert(old_seen.contains((dev, ino)) <==> linked(before, (dev, ino)));
                }
            }
            assert forall|k: (u64, u64)| #[trigger] seen@.contains(k) <==> linked(after, k) by {
                if seen@.contains(k) {
                    if old_seen.contains(k) {
                        let i = choose|i: int|
                            0 <= i < before.len() && (#[trigger] before[i]).0 > 1 && before[i].1
                                == k.0 && before[i].2 == k.1;
                        assert(after[i] == before[i]);
                    } else {
                        let j = choose|j: int| 0 <= j < seen@.len() && seen@[j] == k;
                        if j < old_seen.len() {
                            assert(old_seen[j] == k);
                        }
                        assert(k == (dev, ino));
                        assert(after[before.len() as int] == f);
                    }
                }
                if linked(after, k) {
                    let i = choose|i: int|
                        0 <= i < after.len() && (#[trigger] after[i]).0 > 1 && after[i].1 == k.0
                            && after[i].2 == k.1;
                    if i < before.len() {
                        assert(before[i] == after[i]);
                        assert(old_seen.contains(k));
                        let j = choose|j: int| 0 <= j < old_seen.len() && old_seen[j] == k;
                        assert(seen@[j] == k);
                    } else {
                        if repeat {
                            assert(old_seen.contains(k));
                            let j = choose|j: int| 0 <= j < old_seen.len() && old_seen[j] == k;
                            assert(seen@[j] == k);
                        } else {
                            assert(seen@[old_seen.len() as int] == k);
                        }
                    }
                }
            }
        }
        let total: u64 = if repeat {
            sum
        } else if sum > u64::MAX - len {
            u64::MAX
        } else {
            sum + len
        };
        assert(lists(seen@, after));
        *self = DiskUsage { total, seen, files: Ghost(after) };
    }

    /// The bytes in use.
    pub fn total(&self) -> (r: u64)
        ensures
            r == (if total_length(self.met()) > u64::MAX {
                u64::MAX as int
            } else {
                total_length(self.met())
            }),
    {
        proof {
            use_type_invariant(self);
        }
        self.total
    }
}

/// Another name for a file that was counted takes no more space.
pub proof fn law_hard_links_count_once(files: Seq<Met>, f: Met)
    requires
        is_repeat(files, f),
    ensures
        total_length(files.push(f)) == total_length(files),
{
    assert(files.push(f).drop_last() =~= files);
}

/// Bytes in lower-case hexadecimal.
pub fn encode(bytes: &[u8]) -> (r: String)
    ensures
        r@ == numbers::hex_bytes(bytes@),
{
    numbers::hex_lower(bytes)
}

// ---------------------------------------------------------------------------
// Patterns: laws
// ---------------------------------------------------------------------------
/// A text without wildcards.
pub open spec fn is_literal(p: Seq<char>) -> bool {
    forall|i: int| 0 <= i < p.len() ==> #[trigger] p[i] != '*' && p[i] != '?'
}

/// Characters that are no wildcards stand for themselves.
pub proof fn law_glob_literal(a: Seq<char>, p: Seq<char>, t: Seq<char>)
    requires
        is_literal(a),
    ensures
        glob(a, t) <==> a == t,
        glob(a + p, a + t) <==> glob(p, t),
        glob(a + p, t) ==> a.is_prefix_of(t) && glob(p, t.skip(a.len() as int)),
    decreases a.len(),
{
    if a.len() == 0 {
        assert(a + p =~= p && a + t =~= t);
        assert(t.len() == 0 ==> t =~= a);
        assert(a =~= t.subrange(0, 0));
        assert(t.skip(0) =~= t);
    } else {
        let b = a.skip(1);
        assert(a[0] != '*' && a[0] != '?');
        assert forall|i: int| 0 <= i < b.len() implies #[trigger] b[i] != '*' && b[i] != '?' by {
            assert(b[i] == a[i + 1]);
        }
        assert((a + p)[0] == a[0] && (a + t)[0] == a[0]);
        assert((a + p).skip(1) =~= b + p);
        assert((a + t).skip(1) =~= b + t);
        law_glob_literal(b, p, t);
        if t.len() > 0 {
            let u = t.skip(1);
            law_glob_literal(b, p, u);
            if glob(a, t) {
                assert(a =~= t) by {
                    assert(b == u);
                    assert(a =~= seq![a[0]] + b);
                    assert(t =~= seq![t[0]] + u);
                }
            }
            if a == t {
                assert(b == u);
            }
            if glob(a + p, t) {
                assert(t[0] == a[0]);
                assert(b == u.subrange(0, b.len() as int));
                assert(a =~= t.subrange(0, a.len() as int)) by {
                    assert forall|i: int| 0 <= i < a.len() implies a[i] == t[i] by {
                        if i > 0 {
                            assert(b[i - 1] == u.subrange(0, b.len() as int)[i - 1]);
                        }
                    }
                }
                assert(u.skip(b.len() as int) =~= t.skip(a.len() as int));
            }
        }
    }
}

/// A star stands for anything without a slash, two for anything, a question mark for
/// one character that is no slash.
pub proof fn law_glob_wildcards(x: Seq<char>, b: Seq<char>, t: Seq<char>)
    requires
        is_literal(b),
    ensures
        glob(seq!['*'] + b, x + b) <== (forall|i: int| 0 <= i < x.len() ==> x[i] != '/'),
        glob(seq!['*'], x) <==> (forall|i: int| 0 <= i < x.len() ==> x[i] != '/'),
        glob(seq!['*', '*'] + b, x + b) <== (b.len() > 0 ==> b[0] != '*'),
        glob(seq!['*', '*'], t),
        glob(seq!['?'], x) <==> x.len() == 1 && x[0] != '/',
        glob(seq!['*'] + b, t) && b.len() > 0 ==> exists|y: Seq<char>|
            #![trigger y + b]
            t == y + b && forall|i: int| 0 <= i < y.len() ==> y[i] != '/',
{
    let none = Seq::<char>::empty();
    let one = seq!['*'] + b;
    if b.len() > 0 {
        assert(one[1] == b[0]);
    }
    assert(one.skip(1) =~= b);
    assert((x + b).skip(x.len() as int) =~= b);
    law_glob_literal(b, none, b);
    if forall|i: int| 0 <= i < x.len() ==> x[i] != '/' {
        assert forall|j: int| 0 <= j < x.len() implies (x + b)[j] != '/' by {
            assert((x + b)[j] == x[j]);
        }
        assert(glob(one.skip(1), (x + b).skip(x.len() as int)));
        assert(glob(one, x + b));
    }
    // a star alone
    let star = seq!['*'];
    assert(star.skip(1) =~= none);
    assert(x.skip(x.len() as int) =~= none);
    if forall|i: int| 0 <= i < x.len() ==> x[i] != '/' {
        assert(glob(star.skip(1), x.skip(x.len() as int)));
    }
    if glob(star, x) {
        let i = choose|i: int|
            0 <= i <= x.len() && (forall|j: int| 0 <= j < i ==> x[j] != '/') && glob(
                star.skip(1),
                #[trigger] x.skip(i),
            );
        assert(x.skip(i).len() == 0);
    }
    // two stars
    let two = seq!['*', '*'] + b;
    assert(two.skip(2) =~= b);
    assert(glob(two.skip(2), (x + b).skip(x.len() as int)));
    assert(two[0] == '*' && two[1] == '*');
    let pair = seq!['*', '*'];
    assert(pair.skip(2) =~= none);
    assert(t.skip(t.len() as int) =~= none);
    assert(glob(pair.skip(2), t.skip(t.len() as int)));
    // a question mark
    let q = seq!['?'];
    assert(q.skip(1) =~= none);
    if x.len() > 0 {
        assert(glob(q.skip(1), x.skip(1)) <==> x.skip(1).len() == 0);
    }
    // what a star has matched
    if glob(one, t) && b.len() > 0 {
        let i = choose|i: int|
            0 <= i <= t.len() && (forall|j: int| 0 <= j < i ==> t[j] != '/') && glob(
                one.skip(1),
                #[trigger] t.skip(i),
            );
        law_glob_literal(b, none, t.skip(i));
        let y = t.take(i);
        assert(t =~= y + b);
        assert forall|j: int| 0 <= j < y.len() implies y[j] != '/' by {
            assert(y[j] == t[j]);
        }
    }
}

/// An entry without a slash covers whatever has a component that it matches, one with
/// a slash what it matches as a whole; a blank one covers nothing.
pub proof fn law_what_entries_cover(entry: Seq<char>, path: Seq<char>)
    requires
        text::trim(entry) == entry,
        is_literal(entry),
    ensures
        entry.len() == 0 ==> !covers(entry, path),
        entry.len() > 0 && text::first(entry, '/') == entry.len() ==> (covers(entry, path)
            <==> text::split_on(path, '/').contains(entry)),
        entry.len() > 0 && entry[0] != '/' && text::first(entry, '/') < entry.len() ==> (covers(
            entry,
            path,
        ) <==> path == entry),
        entry.len() > 1 && entry[0] == '/' ==> (covers(entry, path) <==> path == entry.skip(1)),
{
    let none = Seq::<char>::empty();
    text::lemma_first(entry, '/');
    let pieces = text::split_on(path, '/');
    assert forall|k: int| 0 <= k < pieces.len() implies (glob(entry, #[trigger] pieces[k])
        <==> pieces[k] == entry) by {
        law_glob_literal(entry, none, pieces[k]);
    }
    if entry.len() > 0 && text::first(entry, '/') == entry.len() {
        if pieces.contains(entry) {
            let k = choose|k: int| 0 <= k < pieces.len() && pieces[k] == entry;
            assert(glob(entry, pieces[k]));
        }
    }
    law_glob_literal(entry, none, path);
    if entry.len() > 1 && entry[0] == '/' {
        let e = entry.skip(1);
        assert forall|k: int| 0 <= k < e.len() implies #[trigger] e[k] != '*' && e[k] != '?' by {
            assert(e[k] == entry[k + 1]);
        }
        law_glob_literal(e, none, path);
        assert(text::first(entry, '/') == 0);
    }
}

/// A path is on the list if some entry covers it, however it is written; and only then.
pub proof fn law_what_is_denied(list: Seq<Seq<char>>, path: Seq<char>, i: int)
    ensures
        0 <= i < list.len() && covers(list[i], normalized(path)) ==> denied(list, path),
        (forall|j: int| 0 <= j < list.len() ==> !covers(#[trigger] list[j], normalized(path)))
            ==> !denied(list, path),
{
}

/// A slash or a dot behind a path changes nothing of how it is seen, a name behind it is
/// one more name, and a name at the root is seen as it is.
pub proof fn law_paths_are_normalized(p: Seq<char>, n: Seq<char>)
    requires
        p.len() > 0,
        paths::is_step(n),
        n != ".."@,
    ensures
        normalized(p + seq!['/']) == normalized(p),
        normalized(p + seq!['/', '.']) == normalized(p),
        names(paths::components(p + seq!['/'] + n)) == names(paths::components(p)).push(n),
        normalized(n) == n,
        normalized(seq!['/'] + n) == n,
{
    paths::law_components(p, n);
    reveal_strlit("/");
    let c = paths::components(p);
    assert(c.push(n).drop_last() =~= c);
    assert(n != "/"@) by {
        assert(n[0] != '/');
    }
    assert(n[0] != '/');
    let one = seq![n];
    let none = Seq::<Seq<char>>::empty();
    assert(one.drop_last() =~= none);
    assert(names(none) =~= none);
    assert(names(one) =~= one);
    assert(text::join(one, "/"@) == n);
    let two = seq!["/"@, n];
    assert(two.drop_last() =~= seq!["/"@]);
    assert(seq!["/"@].drop_last() =~= none);
    assert(names(seq!["/"@]) =~= none);
    assert(names(two) =~= one);
}

/// A path that a user gives is one below the root, with or without slashes before it;
/// one with a step upwards is found out.
pub proof fn law_user_paths(base: Seq<char>, k: nat, path: Seq<char>, p: Seq<char>)
    requires
        path.len() > 0 ==> path[0] != '/',
        p.len() > 0,
    ensures
        resolved(base, Seq::new(k, |i: int| '/') + path) == resolved(base, path),
        climbs(p + seq!['/'] + ".."@),
        climbs(".."@),
{
    text::law_trim_start_of(k, path, '/');
    text::law_trim_start_of(0, path, '/');
    assert(Seq::new(0, |i: int| '/') + path =~= path);
    reveal_strlit("..");
    reveal_strlit(".");
    assert("."@.len() != ".."@.len());
    assert(paths::is_step(".."@));
    paths::law_components(p, ".."@);
    assert(paths::components(p).push(".."@).last() == ".."@);
    assert(seq![".."@][0] == ".."@);
}

/// The last name of a path, and what stands behind the last dot of a name.
pub proof fn law_names_and_extensions(p: Seq<char>, n: Seq<char>, stem: Seq<char>, ext: Seq<char>)
    requires
        p.len() > 0,
        paths::is_step(n) && n != ".."@,
        forall|i: int| 0 <= i < ext.len() ==> #[trigger] ext[i] != '.',
    ensures
        last_name(p + seq!['/'] + n) == Some(n),
        last_name(n) == Some(n),
        last_name("/"@) is None,
        stem.len() > 0 ==> extension(stem + seq!['.'] + ext) == ext,
        extension(seq!['.'] + ext).len() == 0,
        extension(ext).len() == 0,
{
    paths::law_components(p, n);
    reveal_strlit("/");
    assert(n[0] != '/');
    text::law_last_of(stem, '.', ext);
    text::law_last_of(Seq::empty(), '.', ext);
    assert(Seq::<char>::empty() + seq!['.'] + ext =~= seq!['.'] + ext);
    assert((stem + seq!['.'] + ext).skip(stem.len() as int + 1) =~= ext);
}

/// Directories are listed before files, and within either the names decide, letter case
/// aside.
pub proof fn law_order_of_listings(a: FileStat, b: FileStat)
    ensures
        a.directory && !b.directory ==> listed_before(a, b) && !listed_before(b, a),
        a.directory == b.directory ==> (listed_before(a, b) <==> text::less(
            lowercase(a.name@),
            lowercase(b.name@),
        )),
{
}

/// The letters of a mode: what the file is, and for its owner, its group and others
/// whether they may read, write and execute it.
pub proof fn law_mode_letters(f: EntryFacts)
    ensures
        mode_text(f).len() == 10,
        f.is_dir ==> mode_text(f)[0] == 'd',
        !f.is_dir && f.is_symlink ==> mode_text(f)[0] == 'l',
        !f.is_dir && !f.is_symlink ==> mode_text(f)[0] == '-',
        mode_text(f)[1] == (if f.mode / 256 % 2 == 1 {
            'r'
        } else {
            '-'
        }),
        mode_text(f)[2] == (if f.mode / 128 % 2 == 1 {
            'w'
        } else {
            '-'
        }),
        mode_text(f)[3] == (if f.mode / 64 % 2 == 1 {
            'x'
        } else {
            '-'
        }),
        mode_text(f)[4] == (if f.mode / 32 % 2 == 1 {
            'r'
        } else {
            '-'
        }),
        mode_text(f)[5] == (if f.mode / 16 % 2 == 1 {
            'w'
        } else {
            '-'
        }),
        mode_text(f)[6] == (if f.mode / 8 % 2 == 1 {
            'x'
        } else {
            '-'
        }),
        mode_text(f)[7] == (if f.mode / 4 % 2 == 1 {
            'r'
        } else {
            '-'
        }),
        mode_text(f)[8] == (if f.mode / 2 % 2 == 1 {
            'w'
        } else {
            '-'
        }),
        mode_text(f)[9] == (if f.mode % 2 == 1 {
            'x'
        } else {
            '-'
        }),
{
}

/// A number in octal: its last digit is what is left of eights, before it stands how
/// many eights there are.
pub proof fn law_octal(n: nat, d: nat)
    requires
        d < 8,
    ensures
        octal(d) == seq![(48 + d) as char],
        n > 0 ==> octal(8 * n + d) == octal(n).push((48 + d) as char),
{
    if n > 0 {
        assert((8 * n + d) / 8 == n && (8 * n + d) % 8 == d);
    }
}

/// A file counts with its length, unless it is another name of one that was met: one
/// with several names on the same device and with the same inode.
pub proof fn law_files_count_once(files: Seq<Met>, f: Met, i: int)
    ensures
        f.0 <= 1 ==> total_length(files.push(f)) == total_length(files) + f.3,
        (forall|j: int|
            0 <= j < files.len() ==> (#[trigger] files[j]).1 != f.1 || files[j].2 != f.2)
            ==> total_length(files.push(f)) == total_length(files) + f.3,
        f.0 > 1 && 0 <= i < files.len() && files[i].0 > 1 && files[i].1 == f.1 && files[i].2 == f.2
            ==> total_length(files.push(f)) == total_length(files),
        total_length(Seq::empty()) == 0,
{
    assert(files.push(f).drop_last() =~= files);
}

proof fn lemma_last_step(a: Seq<Seq<char>>, n: Seq<char>)
    requires
        !is_idle(n),
    ensures
        last_step(a.push(n)) == a.len(),
{
}

/// A file lies in the directory that its path names before it.
pub proof fn law_parents(p: Seq<char>, n: Seq<char>)
    requires
        p.len() > 0 && p.last() != '/',
        paths::is_step(n),
        !is_idle(text::split_on(p, '/').last()),
    ensures
        parent_of(p + seq!['/'] + n) == Some(p),
        parent_of(seq!['/'] + n) == Some("/"@),
        parent_of("/"@) is None,
{
    reveal_strlit("/");
    let slash = seq!['/'];
    assert("/"@ =~= slash);
    let none = Seq::<char>::empty();
    text::law_split_on(n, '/', none);
    text::law_split_cat(p, '/', n);
    let a = text::split_on(p, '/');
    text::lemma_split_nonempty(p, '/');
    assert(a + seq![n] =~= a.push(n));
    lemma_last_step(a, n);
    assert(a.push(n).take(a.len() as int) =~= a);
    assert(trim_tail(a) == a);
    text::law_join_split(p, '/');
    // at the root
    let r = slash + n;
    text::law_split_on(none, '/', n);
    assert(none + slash + n =~= r);
    let b = seq![none];
    assert(text::split_on(r, '/') =~= b.push(n));
    lemma_last_step(b, n);
    assert(b.push(n).take(1) =~= b);
    assert(b.drop_last() =~= Seq::<Seq<char>>::empty());
    assert(trim_tail(b.drop_last()).len() == 0);
    assert(trim_tail(b) == trim_tail(b.drop_last()));
    // the root itself
    text::law_split_on(none, '/', none);
    assert(none + slash + none =~= "/"@);
    let c = seq![none] + seq![none];
    assert(text::split_on("/"@, '/') =~= c);
    assert(c.drop_last() =~= b);
    assert(last_step(b.drop_last()) == -1);
    assert(last_step(b) == -1);
    assert(last_step(c) == -1);
}

/// Some kinds of files.
pub proof fn law_mime_types()
    ensures
        mime_of("txt"@) == "text/plain"@,
        mime_of("json"@) == "application/json"@,
        mime_of("yml"@) == "text/yaml"@,
        mime_of("xml"@) == "application/xml"@,
        mime_of("jar"@) == "application/java-archive"@,
        mime_of("zip"@) == "application/zip"@,
        mime_of("gz"@) == "application/gzip"@,
        mime_of("tar"@) == "application/x-tar"@,
        mime_of("png"@) == "image/png"@,
        mime_of("jpg"@) == "image/jpeg"@,
        mime_of(""@) == "application/octet-stream"@,
{
    reveal_strlit("txt");
    reveal_strlit("log");
    reveal_strlit("properties");
    reveal_strlit("ini");
    reveal_strlit("cfg");
    reveal_strlit("json");
    reveal_strlit("yml");
    reveal_strlit("yaml");
    reveal_strlit("xml");
    reveal_strlit("html");
    reveal_strlit("htm");
    reveal_strlit("sh");
    reveal_strlit("bash");
    reveal_strlit("bat");
    reveal_strlit("md");
    reveal_strlit("jar");
    reveal_strlit("zip");
    reveal_strlit("gz");
    reveal_strlit("tar");
    reveal_strlit("png");
    reveal_strlit("jpg");
    reveal_strlit("jpeg");
    reveal_strlit("gif");
    reveal_strlit("svg");
    reveal_strlit("ico");
    reveal_strlit("webp");
    reveal_strlit("mp3");
    reveal_strlit("ogg");
    reveal_strlit("mp4");
    reveal_strlit("webm");
    reveal_strlit("pdf");
    reveal_strlit("class");
    reveal_strlit("toml");
    reveal_strlit("csv");
    reveal_strlit("");
    assert("properties"@.len() == 10 && "json"@.len() == 4 && "yaml"@.len() == 4 && "html"@.len()
        == 4 && "bash"@.len() == 4 && "jpeg"@.len() == 4 && "webp"@.len() == 4 && "webm"@.len()
        == 4 && "class"@.len() == 5 && "toml"@.len() == 4);
    assert("sh"@.len() == 2 && "md"@.len() == 2 && "gz"@.len() == 2 && ""@.len() == 0);
    assert("txt"@[0] == 't' && "log"@[0] == 'l' && "ini"@[0] == 'i' && "cfg"@[0] == 'c'
        && "yml"@[0] == 'y' && "xml"@[0] == 'x' && "htm"@[0] == 'h' && "bat"@[0] == 'b'
        && "jar"@[0] == 'j' && "zip"@[0] == 'z' && "tar"@[0] == 't' && "tar"@[1] == 'a'
        && "txt"@[1] == 'x' && "png"@[0] == 'p' && "jpg"@[0] == 'j' && "jpg"@[1] == 'p'
        && "jar"@[1] == 'a' && "gif"@[0] == 'g' && "svg"@[0] == 's' && "ico"@[0] == 'i'
        && "mp3"@[0] == 'm' && "ogg"@[0] == 'o' && "pdf"@[0] == 'p' && "pdf"@[1] == 'd'
        && "png"@[1] == 'n' && "csv"@[0] == 'c');
    assert("json"@[0] == 'j' && "yaml"@[0] == 'y' && "html"@[0] == 'h' && "bash"@[0] == 'b'
        && "jpeg"@[0] == 'j' && "jpeg"@[1] == 'p' && "json"@[1] == 's' && "webp"@[0] == 'w'
        && "webm"@[0] == 'w' && "toml"@[0] == 't');
    assert("sh"@[0] == 's' && "md"@[0] == 'm' && "gz"@[0] == 'g');
}

} // verus!
