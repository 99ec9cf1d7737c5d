//! The log of what users do, and how it is told to the panel.
use vstd::prelude::*;
use crate::codec;
use crate::json;
use crate::json::{Doc, Json};
use crate::models::activity::{user_of, Activity};
use crate::text;

verus! {

/// How many rows are deleted at a time.
pub const SQLITE_PARAM_CHUNK: usize = 900;

/// The table that keeps activities until the panel has accepted them.
pub const SCHEMA: &'static str =
    "CREATE TABLE IF NOT EXISTS activities (
                id        INTEGER PRIMARY KEY AUTOINCREMENT,
                user      TEXT,
                server    TEXT NOT NULL,
                event     TEXT NOT NULL,
                metadata  TEXT NOT NULL,
                ip        TEXT NOT NULL DEFAULT '',
                timestamp TEXT NOT NULL
            );
            CREATE INDEX IF NOT EXISTS idx_activities_event ON activities(event);";

/// Adds a row.
pub const INSERT: &'static str =
    "INSERT INTO activities (user, server, event, metadata, ip, timestamp)
             VALUES (?1, ?2, ?3, ?4, ?5, ?6)";

/// Reads the rows that are told one by one, oldest first.
pub const FETCH_PLAIN: &'static str =
    "SELECT id, user, server, event, metadata, ip, timestamp
                 FROM activities WHERE event NOT LIKE 'server:sftp.%' ORDER BY id LIMIT ?1";

/// Reads the rows that are merged, oldest first.
pub const FETCH_SFTP: &'static str =
    "SELECT id, user, server, event, metadata, ip, timestamp
                 FROM activities WHERE event LIKE 'server:sftp.%' ORDER BY id LIMIT ?1";

/// The metadata that a row holds; nothing where it cannot be read.
pub open spec fn metadata_doc(column: Seq<char>) -> Doc {
    match codec::parsed_json(vstd::utf8::encode_utf8(column)) {
        Ok(d) => d,
        Err(_) => Doc::Null,
    }
}

/// Reads the metadata of a row.
pub fn read_metadata(column: &str) -> (r: Json)
    ensures
        json::doc(r) == metadata_doc(column@),
{
    let bytes = text::bytes_of(column);
    match codec::parse_json(bytes.as_slice()) {
        Ok(d) => d,
        Err(_) => Json::Null,
    }
}

/// The minute that a time lies in, when it is a time at all
/// (`chrono::DateTime::parse_from_rfc3339`, formatted as `%Y-%m-%d_%H:%M`).
pub uninterp spec fn minute_of(timestamp: Seq<char>) -> Option<Seq<char>>;

/// The minute that a time lies in (`chrono::DateTime::parse_from_rfc3339`, then
/// `format`), which depends on the text alone.
#[verifier::external_body]
fn minute(timestamp: &str) -> (r: Option<String>)
    ensures
        match r {
            Some(m) => minute_of(timestamp@) == Some(m@),
            None => minute_of(timestamp@) is None,
        },
{
    chrono::DateTime::parse_from_rfc3339(timestamp).ok().map(
        |t| t.format("%Y-%m-%d_%H:%M").to_string(),
    )
}

/// A text that may be missing, or nothing.
pub open spec fn or_empty(u: Option<Seq<char>>) -> Seq<char> {
    match u {
        Some(s) => s,
        None => ""@,
    }
}

/// What is merged: the same user, server, address and event, in one minute.
pub open spec fn group_key(a: Activity) -> Seq<char> {
    or_empty(user_of(a.user)) + "|"@ + a.server@ + "|"@ + a.ip@ + "|"@ + a.event@ + "|"@ + (
    match minute_of(a.timestamp@) {
        Some(m) => m,
        None => a.timestamp@,
    })
}

/// The files that an activity is about.
pub open spec fn files_of(metadata: Doc) -> Seq<Doc> {
    match metadata {
        Doc::Object(m) => match json::lookup(m, "files"@) {
            Some(Doc::Array(items)) => items,
            _ => Seq::empty(),
        },
        _ => Seq::empty(),
    }
}

/// Some activities that are told as one.
#[derive(Debug)]
pub struct Group {
    pub key: String,
    pub user: Option<String>,
    pub server: String,
    pub event: String,
    pub ip: String,
    /// of the first one
    pub timestamp: String,
    pub files: Vec<Json>,
    /// the rows that were merged
    pub ids: Vec<i64>,
}

#[verifier::ext_equal]
pub struct GroupView {
    pub key: Seq<char>,
    pub user: Option<Seq<char>>,
    pub server: Seq<char>,
    pub event: Seq<char>,
    pub ip: Seq<char>,
    pub timestamp: Seq<char>,
    pub files: Seq<Doc>,
    pub ids: Seq<i64>,
}

impl View for Group {
    type V = GroupView;

    open spec fn view(&self) -> GroupView {
        GroupView {
            key: self.key@,
            user: user_of(self.user),
            server: self.server@,
            event: self.event@,
            ip: self.ip@,
            timestamp: self.timestamp@,
            files: json::docs(self.files@),
            ids: self.ids@,
        }
    }
}

pub open spec fn groups_view(v: Seq<Group>) -> Seq<GroupView> {
    v.map_values(|g: Group| g@)
}

/// The first group with a key, or how many there are.
pub open spec fn group_index(v: Seq<GroupView>, key: Seq<char>) -> int
    decreases v.len(),
{
    if v.len() == 0 {
        0
    } else if v[0].key == key {
        0
    } else {
        1 + group_index(v.skip(1), key)
    }
}

/// A group of one row.
pub open spec fn single(row: (i64, Activity)) -> GroupView {
    GroupView {
        key: group_key(row.1),
        user: user_of(row.1.user),
        server: row.1.server@,
        event: row.1.event@,
        ip: row.1.ip@,
        timestamp: row.1.timestamp@,
        files: files_of(json::doc(row.1.metadata)),
        ids: seq![row.0],
    }
}

/// A group with one more row: the earlier time, and the files of both.
pub open spec fn joined(g: GroupView, row: (i64, Activity)) -> GroupView {
    GroupView {
        timestamp: if text::less(row.1.timestamp@, g.timestamp) {
            row.1.timestamp@
        } else {
            g.timestamp
        },
        files: g.files + files_of(json::doc(row.1.metadata)),
        ids: g.ids.push(row.0),
        ..g
    }
}

/// The groups of some rows, of which there are at most `cap`. Rows that find no
/// group then are left for another time.
pub open spec fn merged(rows: Seq<(i64, Activity)>, cap: usize) -> Seq<GroupView>
    decreases rows.len(),
{
    if rows.len() == 0 {
        Seq::empty()
    } else {
        let before = merged(rows.drop_last(), cap);
        let row = rows.last();
        let at = group_index(before, group_key(row.1));
        if at < before.len() {
            before.update(at, joined(before[at], row))
        } else if before.len() < cap {
            before.push(single(row))
        } else {
            before
        }
    }
}

proof fn lemma_group_index(v: Seq<GroupView>, key: Seq<char>)
    ensures
        0 <= group_index(v, key) <= v.len(),
        group_index(v, key) < v.len() ==> v[group_index(v, key)].key == key,
        forall|i: int| 0 <= i < group_index(v, key) ==> (#[trigger] v[i]).key != key,
    decreases v.len(),
{
    if v.len() > 0 && v[0].key != key {
        lemma_group_index(v.skip(1), key);
        assert forall|i: int| 0 <= i < group_index(v, key) implies (#[trigger] v[i]).key != key by {
            if i > 0 {
                assert(v[i] == v.skip(1)[i - 1]);
            }
        }
    }
}

fn find_group(groups: &Vec<Group>, key: &str) -> (r: usize)
    ensures
        r == group_index(groups_view(groups@), key@),
{
    let ghost v = groups_view(groups@);
    let mut i: usize = 0;
    assert(v.skip(0) =~= v);
    while i < groups.len()
        invariant
            i <= groups.len(),
            v == groups_view(groups@),
            group_index(v, key@) == i + group_index(v.skip(i as int), key@),
        decreases groups.len() - i,
    {
        assert(v.skip(i as int)[0] == groups@[i as int]@);
        assert(v.skip(i as int).skip(1) =~= v.skip(i + 1));
        if text::same(groups[i].key.as_str(), key) {
            return i;
        }
        i = i + 1;
    }
    assert(v.skip(i as int).len() == 0);
    i
}

/// Copies of the files that an activity is about.
fn read_files(metadata: &Json) -> (r: Vec<Json>)
    ensures
        json::docs(r@) == files_of(json::doc(*metadata)),
{
    let mut out: Vec<Json> = Vec::new();
    proof {
        assert(json::docs(out@) =~= Seq::empty());
    }
    match metadata {
        Json::Object(m) => {
            proof {
                json::lemma_doc_object(*m);
                json::lemma_rank(json::members(m@), "files"@);
            }
            let (at, found) = json::place(m, "files");
            if found {
                match &m[at].1 {
                    Json::Array(items) => {
                        proof {
                            json::lemma_doc_array(*items);
                        }
                        let mut i: usize = 0;
                        while i < items.len()
                            invariant
                                i <= items.len(),
                                json::docs(out@) =~= json::docs(items@).take(i as int),
                            decreases items.len() - i,
                        {
                            let ghost before = out@;
                            let c = items[i].copy();
                            let ghost d = json::doc(c);
                            out.push(c);
                            assert(json::docs(out@) =~= json::docs(before).push(d));
                            i = i + 1;
                        }
                    },
                    _ => {},
                }
            }
        },
        _ => {},
    }
    out
}

fn key_of(a: &Activity) -> (r: String)
    ensures
        r@ == group_key(*a),
{
    let mut key = match &a.user {
        Some(u) => u.clone(),
        None => "".to_owned(),
    };
    key.append("|");
    key.append(a.server.as_str());
    key.append("|");
    key.append(a.ip.as_str());
    key.append("|");
    key.append(a.event.as_str());
    key.append("|");
    match minute(a.timestamp.as_str()) {
        Some(m) => {
            key.append(m.as_str());
        },
        None => {
            key.append(a.timestamp.as_str());
        },
    }
    key
}

fn copy_user(u: &Option<String>) -> (r: Option<String>)
    ensures
        user_of(r) == user_of(*u),
{
    match u {
        Some(s) => Some(s.clone()),
        None => None,
    }
}

/// Merges rows of file transfers, given in the order they were added: those of
/// one user, server, address and event within one minute become one group, with
/// the files of all. At most `cap` groups are made.
pub fn merge_sftp(rows: &Vec<(i64, Activity)>, cap: usize) -> (r: Vec<Group>)
    ensures
        groups_view(r@) == merged(rows@, cap),
{
    let mut groups: Vec<Group> = Vec::new();
    let mut i: usize = 0;
    assert(groups_view(groups@) =~= Seq::empty());
    while i < rows.len()
        invariant
            i <= rows.len(),
            groups_view(groups@) == merged(rows@.take(i as int), cap),
        decreases rows.len() - i,
    {
        assert(rows@.take(i + 1).drop_last() =~= rows@.take(i as int));
        let ghost before = groups_view(groups@);
        let a = &rows[i].1;
        let key = key_of(a);
        let files = read_files(&a.metadata);
        let at = find_group(&groups, key.as_str());
        proof {
            lemma_group_index(before, key@);
        }
        if at < groups.len() {
            let mut g = groups.remove(at);
            let ghost g0 = g@;
            assert(g0 == before[at as int]);
            if text::before(a.timestamp.as_str(), g.timestamp.as_str()) {
                g.timestamp = a.timestamp.clone();
            }
            let mut more = files;
            let ghost gf = g.files@;
            let ghost mf = more@;
            g.files.append(&mut more);
            assert(json::docs(g.files@) =~= json::docs(gf) + json::docs(mf));
            g.ids.push(rows[i].0);
            assert(g@ =~= joined(g0, rows@[i as int]));
            let ghost gv = g@;
            groups.insert(at, g);
            assert(groups_view(groups@) =~= before.update(at as int, gv));
        } else if groups.len() < cap {
            let mut ids: Vec<i64> = Vec::new();
            ids.push(rows[i].0);
            let g = Group {
                key,
                user: copy_user(&a.user),
                server: a.server.clone(),
                event: a.event.clone(),
                ip: a.ip.clone(),
                timestamp: a.timestamp.clone(),
                files,
                ids,
            };
            assert(g@ =~= single(rows@[i as int]));
            let ghost gv = g@;
            groups.push(g);
            assert(groups_view(groups@) =~= before.push(gv));
        }
        i = i + 1;
    }
    assert(rows@.take(i as int) =~= rows@);
    groups
}

impl Group {
    /// The activity that stands for the group.
    pub fn activity(self) -> (r: Activity)
        ensures
            user_of(r.user) == self@.user,
            r.server@ == self@.server,
            r.event@ == self@.event,
            r.ip@ == self@.ip,
            r.timestamp@ == self@.timestamp,
            json::doc(r.metadata) == Doc::Object(seq![("files"@, Doc::Array(self@.files))]),
    {
        let files = Json::Array(self.files);
        proof {
            json::lemma_doc_array(self.files);
        }
        let mut m: Vec<(String, Json)> = Vec::new();
        m.push(("files".to_owned(), files));
        proof {
            json::lemma_doc_object(m);
            assert(json::members(m@) =~= seq![("files"@, Doc::Array(self@.files))]);
        }
        Activity {
            user: self.user,
            server: self.server,
            event: self.event,
            metadata: Json::Object(m),
            ip: self.ip,
            timestamp: self.timestamp,
        }
    }
}

/// The rows of all groups.
pub open spec fn group_ids(v: Seq<GroupView>) -> Seq<i64>
    decreases v.len(),
{
    if v.len() == 0 {
        Seq::empty()
    } else {
        group_ids(v.drop_last()) + v.last().ids
    }
}

/// The rows to delete once the panel has accepted the groups: those that were
/// merged, and no others.
pub fn merged_ids(groups: &Vec<Group>) -> (r: Vec<i64>)
    ensures
        r@ == group_ids(groups_view(groups@)),
{
    let ghost v = groups_view(groups@);
    let mut out: Vec<i64> = Vec::new();
    let mut i: usize = 0;
    assert(v.take(0) =~= Seq::empty());
    while i < groups.len()
        invariant
            i <= groups.len(),
            v == groups_view(groups@),
            out@ == group_ids(v.take(i as int)),
        decreases groups.len() - i,
    {
        assert(v.take(i + 1).drop_last() =~= v.take(i as int));
        let mut j: usize = 0;
        let ghost before = out@;
        while j < groups[i].ids.len()
            invariant
                i < groups.len(),
                j <= groups[i as int].ids.len(),
                out@ =~= before + groups@[i as int].ids@.take(j as int),
            decreases groups[i as int].ids.len() - j,
        {
            out.push(groups[i].ids[j]);
            j = j + 1;
        }
        assert(groups@[i as int].ids@.take(j as int) =~= v[i as int].ids);
        i = i + 1;
    }
    assert(v.take(i as int) =~= v);
    out
}

/// The files of the rows with a key, in their order.
pub open spec fn files_for(rows: Seq<(i64, Activity)>, key: Seq<char>) -> Seq<Doc>
    decreases rows.len(),
{
    if rows.len() == 0 {
        Seq::empty()
    } else if group_key(rows.last().1) == key {
        files_for(rows.drop_last(), key) + files_of(json::doc(rows.last().1.metadata))
    } else {
        files_for(rows.drop_last(), key)
    }
}

/// The rows with a key, in their order.
pub open spec fn ids_for(rows: Seq<(i64, Activity)>, key: Seq<char>) -> Seq<i64>
    decreases rows.len(),
{
    if rows.len() == 0 {
        Seq::empty()
    } else if group_key(rows.last().1) == key {
        ids_for(rows.drop_last(), key).push(rows.last().0)
    } else {
        ids_for(rows.drop_last(), key)
    }
}

/// A group stands for all rows with its key: it has their files, and they are
/// the rows that are deleted with it. No two groups have one key, there are no
/// more than allowed, and a row is left out only when there are that many.
pub proof fn law_group_stands_for_all_its_rows(rows: Seq<(i64, Activity)>, cap: usize)
    ensures
        forall|i: int|
            0 <= i < merged(rows, cap).len() ==> (#[trigger] merged(rows, cap)[i]).files
                == files_for(rows, merged(rows, cap)[i].key),
        forall|i: int|
            0 <= i < merged(rows, cap).len() ==> (#[trigger] merged(rows, cap)[i]).ids == ids_for(
                rows,
                merged(rows, cap)[i].key,
            ),
        forall|i: int, j: int|
            0 <= i < j < merged(rows, cap).len() ==> (#[trigger] merged(rows, cap)[i]).key != (
            #[trigger] merged(rows, cap)[j]).key,
        merged(rows, cap).len() <= cap,
        forall|k: Seq<char>| #[trigger]
            group_index(merged(rows, cap), k) >= merged(rows, cap).len() && ids_for(rows, k).len()
                > 0 ==> merged(rows, cap).len() == cap,
    decreases rows.len(),
{
    if rows.len() > 0 {
        let rest = rows.drop_last();
        law_group_stands_for_all_its_rows(rest, cap);
        let before = merged(rest, cap);
        let after = merged(rows, cap);
        let row = rows.last();
        let key = group_key(row.1);
        let at = group_index(before, key);
        lemma_group_index(before, key);
        if at < before.len() {
            assert forall|i: int| 0 <= i < after.len() implies (#[trigger] after[i]).files
                == files_for(rows, after[i].key) && after[i].ids == ids_for(rows, after[i].key) by {
                assert(after[i].key == before[i].key);
                if i != at {
                    assert(after[i] == before[i]);
                    assert(before[i].key != before[at].key);
                }
            }
            assert forall|i: int, j: int| 0 <= i < j < after.len() implies (#[trigger] after[i]).key
                != (#[trigger] after[j]).key by {
                assert(after[i].key == before[i].key);
                assert(after[j].key == before[j].key);
            }
            assert forall|k: Seq<char>| #[trigger]
                group_index(after, k) >= after.len() && ids_for(rows, k).len()
                    > 0 implies after.len() == cap by {
                lemma_group_index(after, k);
                lemma_group_index(before, k);
                if k == key {
                    assert(after[at].key == k);
                }
                if group_index(before, k) < before.len() {
                    assert(after[group_index(before, k)].key == k);
                }
            }
        } else if before.len() < cap {
            assert(ids_for(rest, key).len() == 0);
            lemma_no_ids_no_files(rest, key);
            assert forall|i: int| 0 <= i < after.len() implies (#[trigger] after[i]).files
                == files_for(rows, after[i].key) && after[i].ids == ids_for(rows, after[i].key) by {
                if i < before.len() {
                    assert(after[i] == before[i]);
                    assert(before[i].key != key);
                } else {
                    assert(after[i].files =~= files_for(rows, key));
                    assert(after[i].ids =~= ids_for(rows, key));
                }
            }
            assert forall|i: int, j: int| 0 <= i < j < after.len() implies (#[trigger] after[i]).key
                != (#[trigger] after[j]).key by {
                assert(after[i] == before[i]);
                if j < before.len() {
                    assert(after[j] == before[j]);
                }
            }
            assert forall|k: Seq<char>| #[trigger]
                group_index(after, k) >= after.len() && ids_for(rows, k).len()
                    > 0 implies after.len() == cap by {
                lemma_group_index(after, k);
                lemma_group_index(before, k);
                assert(after[before.len() as int].key == key);
                if group_index(before, k) < before.len() {
                    assert(after[group_index(before, k)].key == k);
                }
            }
        } else {
            assert forall|i: int| 0 <= i < after.len() implies (#[trigger] after[i]).files
                == files_for(rows, after[i].key) && after[i].ids == ids_for(rows, after[i].key) by {
                assert(before[i].key != key);
            }
        }
    }
}

proof fn lemma_no_ids_no_files(rows: Seq<(i64, Activity)>, key: Seq<char>)
    requires
        ids_for(rows, key).len() == 0,
    ensures
        files_for(rows, key).len() == 0,
        ids_for(rows, key) =~= Seq::empty(),
        files_for(rows, key) =~= Seq::empty(),
    decreases rows.len(),
{
    if rows.len() > 0 {
        lemma_no_ids_no_files(rows.drop_last(), key);
    }
}

// ---------------------------------------------------------------------------
// Rows that are told one by one
// ---------------------------------------------------------------------------
/// The ids of the rows whose address is one or is none.
pub open spec fn ids_where(rows: Seq<(i64, Activity)>, valid: Seq<bool>, want: bool) -> Seq<i64>
    decreases rows.len(),
{
    if rows.len() == 0 {
        Seq::empty()
    } else {
        let rest = ids_where(rows.drop_last(), valid, want);
        if valid[rows.len() - 1] == want {
            rest.push(rows.last().0)
        } else {
            rest
        }
    }
}

/// The rows whose address is one.
pub open spec fn rows_where(rows: Seq<(i64, Activity)>, valid: Seq<bool>) -> Seq<(i64, Activity)>
    decreases rows.len(),
{
    if rows.len() == 0 {
        Seq::empty()
    } else {
        let rest = rows_where(rows.drop_last(), valid);
        if valid[rows.len() - 1] {
            rest.push(rows.last())
        } else {
            rest
        }
    }
}

/// Parts the rows whose address is none, which are only deleted, from those
/// that the panel is told. `valid` tells of each row whether its address is one.
pub fn flush_plain(rows: Vec<(i64, Activity)>, valid: &Vec<bool>) -> (r: (
    Vec<i64>,
    Vec<(i64, Activity)>,
))
    requires
        rows@.len() == valid@.len(),
    ensures
        r.0@ == ids_where(rows@, valid@, false),
        r.1@ == rows_where(rows@, valid@),
{
    let ghost all = rows@;
    let n: usize = rows.len();
    let mut rest = rows;
    let mut invalid: Vec<i64> = Vec::new();
    let mut kept: Vec<(i64, Activity)> = Vec::new();
    let mut i: usize = 0;
    assert(all.skip(0) =~= all);
    assert(all.take(0) =~= Seq::empty());
    while rest.len() > 0
        invariant
            n == all.len(),
            i + rest@.len() == n,
            valid@.len() == all.len(),
            rest@ == all.skip(i as int),
            invalid@ == ids_where(all.take(i as int), valid@, false),
            kept@ == rows_where(all.take(i as int), valid@),
        decreases rest.len(),
    {
        let row = rest.remove(0);
        assert(row == all[i as int]);
        assert(rest@ =~= all.skip(i + 1));
        assert(all.take(i + 1).drop_last() =~= all.take(i as int));
        assert(all.take(i + 1).last() == row);
        if valid[i] {
            kept.push(row);
        } else {
            invalid.push(row.0);
        }
        i = i + 1;
    }
    assert(all.take(i as int) =~= all);
    (invalid, kept)
}

/// The ids of some rows.
pub open spec fn row_ids(rows: Seq<(i64, Activity)>) -> Seq<i64> {
    rows.map_values(|r: (i64, Activity)| r.0)
}

/// The ids of the rows that the panel was told, and that are deleted then.
pub fn told_ids(rows: &Vec<(i64, Activity)>) -> (r: Vec<i64>)
    ensures
        r@ == row_ids(rows@),
{
    let mut out: Vec<i64> = Vec::new();
    let mut i: usize = 0;
    while i < rows.len()
        invariant
            i <= rows.len(),
            out@ =~= row_ids(rows@).take(i as int),
        decreases rows.len() - i,
    {
        out.push(rows[i].0);
        i = i + 1;
    }
    assert(row_ids(rows@).take(i as int) =~= row_ids(rows@));
    out
}

/// Every row is either told and deleted, or deleted only: none is lost and none
/// is dealt with twice.
pub proof fn law_every_row_is_dealt_with(rows: Seq<(i64, Activity)>, valid: Seq<bool>)
    requires
        rows.len() <= valid.len(),
    ensures
        row_ids(rows_where(rows, valid)) == ids_where(rows, valid, true),
        row_ids(rows).to_multiset() =~= ids_where(rows, valid, true).to_multiset().add(
            ids_where(rows, valid, false).to_multiset(),
        ),
    decreases rows.len(),
{
    broadcast use vstd::seq_lib::group_to_multiset_ensures;

    if rows.len() > 0 {
        let rest = rows.drop_last();
        law_every_row_is_dealt_with(rest, valid);
        assert(row_ids(rows) =~= row_ids(rest).push(rows.last().0));
        if valid[rows.len() - 1] {
            assert(row_ids(rows_where(rows, valid)) =~= row_ids(rows_where(rest, valid)).push(
                rows.last().0,
            ));
        }
    } else {
        assert(row_ids(rows) =~= Seq::empty());
        assert(row_ids(rows_where(rows, valid)) =~= ids_where(rows, valid, true));
    }
}

// ---------------------------------------------------------------------------
// Deleting
// ---------------------------------------------------------------------------
/// The rows of some portions.
pub open spec fn in_a_row(v: Seq<Vec<i64>>) -> Seq<i64>
    decreases v.len(),
{
    if v.len() == 0 {
        Seq::empty()
    } else {
        in_a_row(v.drop_last()) + v.last()@
    }
}

/// The rows to delete in portions: all of them, in their order, each portion but
/// the last one as large as allowed.
pub fn delete_ids(ids: &Vec<i64>) -> (r: Vec<Vec<i64>>)
    ensures
        in_a_row(r@) == ids@,
        forall|i: int|
            0 <= i < r@.len() - 1 ==> (#[trigger] r@[i])@.len() == SQLITE_PARAM_CHUNK,
        r@.len() > 0 ==> 0 < r@.last()@.len() <= SQLITE_PARAM_CHUNK,
{
    let mut out: Vec<Vec<i64>> = Vec::new();
    let mut i: usize = 0;
    while i < ids.len()
        invariant
            i <= ids.len(),
            in_a_row(out@) =~= ids@.take(i as int),
            forall|k: int|
                0 <= k < out@.len() - 1 ==> (#[trigger] out@[k])@.len() == SQLITE_PARAM_CHUNK,
            out@.len() > 0 ==> 0 < out@.last()@.len() <= SQLITE_PARAM_CHUNK,
            out@.len() > 0 && i < ids.len() ==> out@.last()@.len() == SQLITE_PARAM_CHUNK,
        decreases ids.len() - i,
    {
        let mut chunk: Vec<i64> = Vec::new();
        let ghost start = i;
        while i < ids.len() && chunk.len() < SQLITE_PARAM_CHUNK
            invariant
                start <= i <= ids.len(),
                i == start + chunk@.len(),
                chunk@.len() <= SQLITE_PARAM_CHUNK,
                chunk@ =~= ids@.subrange(start as int, i as int),
            decreases ids.len() - i,
        {
            chunk.push(ids[i]);
            i = i + 1;
        }
        let ghost before = out@;
        let ghost c = chunk;
        out.push(chunk);
        proof {
            assert(out@.drop_last() =~= before);
            assert(in_a_row(out@) =~= ids@.take(i as int));
            assert forall|k: int| 0 <= k < out@.len() - 1 implies (#[trigger] out@[k])@.len()
                == SQLITE_PARAM_CHUNK by {
                assert(out@[k] == before[k]);
            }
        }
    }
    assert(ids@.take(i as int) =~= ids@);
    out
}

/// As many question marks, with commas between them.
pub open spec fn marks(n: nat) -> Seq<char>
    decreases n,
{
    if n == 0 {
        ""@
    } else if n == 1 {
        "?"@
    } else {
        marks((n - 1) as nat) + ",?"@
    }
}

/// Deletes `n` rows.
pub fn delete_statement(n: usize) -> (r: String)
    ensures
        r@ == "DELETE FROM activities WHERE id IN ("@ + marks(n as nat) + ")"@,
{
    let mut list = "".to_owned();
    let mut i: usize = 0;
    while i < n
        invariant
            i <= n,
            list@ == marks(i as nat),
        decreases n - i,
    {
        if i == 0 {
            list = "?".to_owned();
        } else {
            list.append(",?");
        }
        i = i + 1;
    }
    text::cat3("DELETE FROM activities WHERE id IN (", list.as_str(), ")")
}

proof fn lemma_parted(a: Seq<char>, x: Seq<char>, b: Seq<char>, y: Seq<char>)
    requires
        forall|i: int| 0 <= i < a.len() ==> #[trigger] a[i] != '|',
        forall|i: int| 0 <= i < b.len() ==> #[trigger] b[i] != '|',
        a + "|"@ + x == b + "|"@ + y,
    ensures
        a == b && x == y,
{
    reveal_strlit("|");
    assert("|"@ =~= seq!['|']);
    let s = a + "|"@ + x;
    text::law_first(a, '|', x);
    text::law_first(b, '|', y);
    assert(a.len() == b.len());
    assert(a =~= s.take(a.len() as int));
    assert(b =~= s.take(a.len() as int));
    assert(x =~= s.skip(a.len() as int + 1));
    assert(y =~= s.skip(a.len() as int + 1));
}

/// Two rows are merged exactly if user, server, address and event are the same and they
/// lie in one minute.
pub proof fn law_what_is_merged(a: Activity, b: Activity, m: Seq<char>, n: Seq<char>)
    requires
        minute_of(a.timestamp@) == Some(m),
        minute_of(b.timestamp@) == Some(n),
        a.user is Some && b.user is Some,
        forall|i: int| 0 <= i < a.user->0@.len() ==> #[trigger] a.user->0@[i] != '|',
        forall|i: int| 0 <= i < b.user->0@.len() ==> #[trigger] b.user->0@[i] != '|',
        forall|i: int| 0 <= i < a.server@.len() ==> #[trigger] a.server@[i] != '|',
        forall|i: int| 0 <= i < b.server@.len() ==> #[trigger] b.server@[i] != '|',
        forall|i: int| 0 <= i < a.ip@.len() ==> #[trigger] a.ip@[i] != '|',
        forall|i: int| 0 <= i < b.ip@.len() ==> #[trigger] b.ip@[i] != '|',
        forall|i: int| 0 <= i < a.event@.len() ==> #[trigger] a.event@[i] != '|',
        forall|i: int| 0 <= i < b.event@.len() ==> #[trigger] b.event@[i] != '|',
    ensures
        group_key(a) == group_key(b) <==> a.user->0@ == b.user->0@ && a.server@ == b.server@
            && a.ip@ == b.ip@ && a.event@ == b.event@ && m == n,
{
    let bar = "|"@;
    let a4 = a.event@ + bar + m;
    let a3 = a.ip@ + bar + a4;
    let a2 = a.server@ + bar + a3;
    let b4 = b.event@ + bar + n;
    let b3 = b.ip@ + bar + b4;
    let b2 = b.server@ + bar + b3;
    assert(group_key(a) =~= a.user->0@ + bar + a2);
    assert(group_key(b) =~= b.user->0@ + bar + b2);
    if group_key(a) == group_key(b) {
        lemma_parted(a.user->0@, a2, b.user->0@, b2);
        lemma_parted(a.server@, a3, b.server@, b3);
        lemma_parted(a.ip@, a4, b.ip@, b4);
        lemma_parted(a.event@, m, b.event@, n);
    }
}

/// What a group says of its rows holds of them: who did what where, and when first.
pub open spec fn speaks_of(g: GroupView, row: (i64, Activity)) -> bool {
    &&& g.user == user_of(row.1.user)
    &&& g.server == row.1.server@
    &&& g.event == row.1.event@
    &&& g.ip == row.1.ip@
}

/// A group is about one of its rows, and its time is that of one of them.
pub proof fn law_groups_speak_of_their_rows(rows: Seq<(i64, Activity)>, cap: usize, i: int)
    requires
        0 <= i < merged(rows, cap).len(),
    ensures
        exists|r: int|
            0 <= r < rows.len() && group_key((#[trigger] rows[r]).1) == merged(rows, cap)[i].key
                && speaks_of(merged(rows, cap)[i], rows[r]),
        exists|r: int|
            0 <= r < rows.len() && group_key((#[trigger] rows[r]).1) == merged(rows, cap)[i].key
                && rows[r].1.timestamp@ == merged(rows, cap)[i].timestamp,
    decreases rows.len(),
{
    if rows.len() > 0 {
        let rest = rows.drop_last();
        let before = merged(rest, cap);
        let after = merged(rows, cap);
        let row = rows.last();
        let n = rows.len() - 1;
        assert(rows[n] == row);
        let at = group_index(before, group_key(row.1));
        lemma_group_index(before, group_key(row.1));
        if i < before.len() {
            law_groups_speak_of_their_rows(rest, cap, i);
            let r = choose|r: int|
                0 <= r < rest.len() && group_key((#[trigger] rest[r]).1) == before[i].key
                    && speaks_of(before[i], rest[r]);
            let t = choose|t: int|
                0 <= t < rest.len() && group_key((#[trigger] rest[t]).1) == before[i].key
                    && rest[t].1.timestamp@ == before[i].timestamp;
            assert(rows[r] == rest[r] && rows[t] == rest[t]);
            if at == i {
                assert(after[i] == joined(before[i], row));
                assert(speaks_of(after[i], rows[r]));
                if text::less(row.1.timestamp@, before[i].timestamp) {
                    assert(rows[n].1.timestamp@ == after[i].timestamp);
                } else {
                    assert(rows[t].1.timestamp@ == after[i].timestamp);
                }
            } else {
                assert(after[i] == before[i]);
                assert(speaks_of(after[i], rows[r]));
            }
        } else {
            assert(after[i] == single(row));
            assert(speaks_of(after[i], rows[n]));
        }
    }
}

/// The time of a group is that of the earliest of its rows, and all their files are
/// kept.
pub proof fn law_groups_have_the_earliest_time(g: GroupView, row: (i64, Activity))
    ensures
        ({
            let after = joined(g, row);
            &&& !text::less(row.1.timestamp@, after.timestamp)
            &&& !text::less(g.timestamp, after.timestamp)
            &&& after.timestamp == g.timestamp || after.timestamp == row.1.timestamp@
            &&& after.files == g.files + files_of(json::doc(row.1.metadata))
            &&& after.ids == g.ids.push(row.0)
            &&& after.key == g.key && after.user == g.user && after.server == g.server
                && after.event == g.event && after.ip == g.ip
        }),
{
    text::lemma_less_irreflexive(row.1.timestamp@);
    text::lemma_less_irreflexive(g.timestamp);
    if text::less(row.1.timestamp@, g.timestamp) && text::less(g.timestamp, row.1.timestamp@) {
        text::lemma_less_transitive(row.1.timestamp@, g.timestamp, row.1.timestamp@);
    }
}

/// The files of an activity are those listed under that name in what is known of it.
pub proof fn law_files_of_activities(m: Seq<(Seq<char>, Doc)>, items: Seq<Doc>, d: Doc)
    ensures
        json::lookup(m, "files"@) == Some(Doc::Array(items)) ==> files_of(Doc::Object(m)) == items,
        json::lookup(m, "files"@) is None ==> files_of(Doc::Object(m)).len() == 0,
        !(d is Object) ==> files_of(d).len() == 0,
{
}

/// There are as many marks as asked for, with commas between them.
pub proof fn law_marks(n: nat, i: int)
    requires
        n > 0,
        0 <= i < 2 * n - 1,
    ensures
        marks(n).len() == 2 * n - 1,
        marks(n)[i] == (if i % 2 == 0 {
            '?'
        } else {
            ','
        }),
    decreases n,
{
    reveal_strlit("?");
    reveal_strlit(",?");
    if n > 1 {
        if i < 2 * n - 3 {
            law_marks((n - 1) as nat, i);
        } else {
            law_marks((n - 1) as nat, 0);
        }
    }
}

/// What nobody in particular did is merged by the rest: server, address, event and minute.
pub proof fn law_activities_of_nobody(a: Activity, m: Seq<char>)
    requires
        a.user is None,
        minute_of(a.timestamp@) == Some(m),
    ensures
        group_key(a) == ""@ + "|"@ + a.server@ + "|"@ + a.ip@ + "|"@ + a.event@ + "|"@ + m,
{
}

} // verus!
