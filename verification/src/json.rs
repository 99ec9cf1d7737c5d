//! JSON documents as plain trees, addressed by dotted paths.
use vstd::prelude::*;
use crate::numbers;
use crate::text;

verus! {

/// A JSON document. A number is kept as its literal text, an object as its
/// members in ascending key order.
#[derive(Debug, PartialEq)]
pub enum Json {
    Null,
    Bool(bool),
    Number(String),
    Str(String),
    Array(Vec<Json>),
    Object(Vec<(String, Json)>),
}

/// The mathematical counterpart of [`Json`].
pub enum Doc {
    Null,
    Bool(bool),
    Number(Seq<char>),
    Str(Seq<char>),
    Array(Seq<Doc>),
    Object(Seq<(Seq<char>, Doc)>),
}

/// Why a value could not be set.
#[derive(Debug, Clone, Copy, PartialEq, Eq, Structural)]
pub enum PathFault {
    /// an array is addressed by something other than an index
    InvalidIndex,
    /// an array is addressed beyond its end
    OutOfBounds(usize),
    /// the path leads through a scalar
    ThroughScalar,
    /// `name[n]` addresses something that is no array, or a later element of
    /// an array that is not there
    ArrayElement,
    /// `name[n]` addresses an element that an existing array does not have
    MissingElement,
}

// ---------------------------------------------------------------------------
// Definitions
// ---------------------------------------------------------------------------
/// The document that a tree holds.
pub open spec fn doc(j: Json) -> Doc
    decreases j,
{
    match j {
        Json::Null => Doc::Null,
        Json::Bool(b) => Doc::Bool(b),
        Json::Number(n) => Doc::Number(n@),
        Json::Str(s) => Doc::Str(s@),
        Json::Array(items) => Doc::Array(
            Seq::new(
                items@.len(),
                |i: int|
                    if 0 <= i < items@.len() {
                        doc(items@[i])
                    } else {
                        Doc::Null
                    },
            ),
        ),
        Json::Object(m) => Doc::Object(
            Seq::new(
                m@.len(),
                |i: int|
                    if 0 <= i < m@.len() {
                        (m@[i].0@, doc(m@[i].1))
                    } else {
                        (Seq::empty(), Doc::Null)
                    },
            ),
        ),
    }
}

/// The documents that a list of trees holds.
pub open spec fn docs(items: Seq<Json>) -> Seq<Doc> {
    Seq::new(items.len(), |i: int| doc(items[i]))
}

/// The members that an object's list holds.
pub open spec fn members(m: Seq<(String, Json)>) -> Seq<(Seq<char>, Doc)> {
    Seq::new(m.len(), |i: int| (m[i].0@, doc(m[i].1)))
}

/// How many leading members have a key before `k`.
pub open spec fn rank(m: Seq<(Seq<char>, Doc)>, k: Seq<char>) -> int
    decreases m.len(),
{
    if m.len() == 0 || !text::less(m[0].0, k) {
        0
    } else {
        1 + rank(m.skip(1), k)
    }
}

/// The value of the member `k`.
pub open spec fn lookup(m: Seq<(Seq<char>, Doc)>, k: Seq<char>) -> Option<Doc> {
    let i = rank(m, k);
    if i < m.len() && m[i].0 == k {
        Some(m[i].1)
    } else {
        None
    }
}

/// The members with `k` set to `v`: in place where it exists, else where its
/// key belongs.
pub open spec fn put(m: Seq<(Seq<char>, Doc)>, k: Seq<char>, v: Doc) -> Seq<(Seq<char>, Doc)> {
    let i = rank(m, k);
    if i < m.len() && m[i].0 == k {
        m.update(i, (k, v))
    } else {
        m.insert(i, (k, v))
    }
}

/// The keys stand in strictly ascending order.
pub open spec fn ascending(m: Seq<(Seq<char>, Doc)>) -> bool {
    forall|i: int, j: int| 0 <= i < j < m.len() ==> text::less(#[trigger] m[i].0, #[trigger] m[j].0)
}

/// The keys of every object stand in strictly ascending order.
pub open spec fn ordered(d: Doc) -> bool
    decreases d,
{
    match d {
        Doc::Array(items) => forall|i: int|
            0 <= i < items.len() ==> ordered(#[trigger] items[i]),
        Doc::Object(m) => ascending(m) && forall|i: int|
            0 <= i < m.len() ==> ordered((#[trigger] m[i]).1),
        _ => true,
    }
}

/// The segments of a dotted path; the empty path has none.
pub open spec fn segments(path: Seq<char>) -> Seq<Seq<char>> {
    if path.len() == 0 {
        Seq::empty()
    } else {
        text::split_on(path, '.')
    }
}

/// The element of an array of `len` elements that a segment addresses.
pub open spec fn element_index(seg: Seq<char>, len: nat) -> Result<int, PathFault> {
    match numbers::parse_unsigned(seg, usize::MAX as int) {
        None => Err(PathFault::InvalidIndex),
        Some(i) => if i >= len {
            Err(PathFault::OutOfBounds(i as usize))
        } else {
            Ok(i)
        },
    }
}

/// The value at a path.
pub open spec fn get_path(t: Doc, segs: Seq<Seq<char>>) -> Option<Doc>
    decreases segs.len(),
{
    if segs.len() == 0 {
        Some(t)
    } else {
        match t {
            Doc::Object(m) => match lookup(m, segs[0]) {
                Some(c) => get_path(c, segs.skip(1)),
                None => None,
            },
            Doc::Array(items) => match element_index(segs[0], items.len()) {
                Ok(i) => get_path(items[i], segs.skip(1)),
                Err(_) => None,
            },
            _ => None,
        }
    }
}

/// What is descended into for a member: the member itself where it is an
/// object or an array, else a new object.
pub open spec fn container(c: Option<Doc>) -> Doc {
    match c {
        Some(Doc::Object(m)) => Doc::Object(m),
        Some(Doc::Array(items)) => Doc::Array(items),
        _ => Doc::Object(Seq::empty()),
    }
}

/// The document with the value at a path set, missing objects created on the
/// way.
pub open spec fn put_path(t: Doc, segs: Seq<Seq<char>>, v: Doc) -> Result<Doc, PathFault>
    decreases segs.len(),
{
    if segs.len() == 0 {
        Ok(v)
    } else {
        match t {
            Doc::Object(m) => match put_path(container(lookup(m, segs[0])), segs.skip(1), v) {
                Ok(c) => Ok(Doc::Object(put(m, segs[0], c))),
                Err(e) => Err(e),
            },
            Doc::Array(items) => match element_index(segs[0], items.len()) {
                Ok(i) => match put_path(items[i], segs.skip(1), v) {
                    Ok(c) => Ok(Doc::Array(items.update(i, c))),
                    Err(e) => Err(e),
                },
                Err(e) => Err(e),
            },
            _ => Err(PathFault::ThroughScalar),
        }
    }
}

/// One path is a prefix of the other, segment by segment: keys are compared as
/// texts, and indices of elements as numbers.
pub open spec fn overlap(t: Doc, p: Seq<Seq<char>>, q: Seq<Seq<char>>) -> bool
    decreases p.len(),
{
    if p.len() == 0 || q.len() == 0 {
        true
    } else {
        match t {
            Doc::Object(m) => p[0] == q[0] && overlap(
                container(lookup(m, p[0])),
                p.skip(1),
                q.skip(1),
            ),
            Doc::Array(items) => match element_index(p[0], items.len()) {
                Ok(i) => element_index(q[0], items.len()) == Ok::<int, PathFault>(i) && overlap(
                    items[i],
                    p.skip(1),
                    q.skip(1),
                ),
                Err(_) => false,
            },
            _ => false,
        }
    }
}

/// A string as a JSON literal (`serde_json::to_string` of a string).
pub uninterp spec fn quoted(s: Seq<char>) -> Seq<char>;

/// The document on one line, without white space.
pub open spec fn compact(d: Doc) -> Seq<char>
    decreases d,
{
    match d {
        Doc::Null => "null"@,
        Doc::Bool(b) => if b {
            "true"@
        } else {
            "false"@
        },
        Doc::Number(n) => n,
        Doc::Str(s) => quoted(s),
        Doc::Array(items) => "["@ + text::join(compact_items(items), ","@) + "]"@,
        Doc::Object(m) => "{"@ + text::join(compact_members(m), ","@) + "}"@,
    }
}

/// The elements of an array, each on one line.
pub open spec fn compact_items(items: Seq<Doc>) -> Seq<Seq<char>>
    decreases items,
{
    if items.len() == 0 {
        Seq::empty()
    } else {
        compact_items(items.drop_last()).push(compact(items[items.len() - 1]))
    }
}

/// The members of an object, each on one line.
pub open spec fn compact_members(m: Seq<(Seq<char>, Doc)>) -> Seq<Seq<char>>
    decreases m,
{
    if m.len() == 0 {
        Seq::empty()
    } else {
        compact_members(m.drop_last()).push(
            quoted(m[m.len() - 1].0) + ":"@ + compact(m[m.len() - 1].1),
        )
    }
}

// ---------------------------------------------------------------------------
// Proofs
// ---------------------------------------------------------------------------
pub proof fn lemma_doc_array(items: Vec<Json>)
    ensures
        doc(Json::Array(items)) == Doc::Array(docs(items@)),
{
    assert(doc(Json::Array(items))->Array_0 =~= docs(items@));
}

pub proof fn lemma_doc_object(m: Vec<(String, Json)>)
    ensures
        doc(Json::Object(m)) == Doc::Object(members(m@)),
{
    assert(doc(Json::Object(m))->Object_0 =~= members(m@));
}

pub proof fn lemma_rank(m: Seq<(Seq<char>, Doc)>, k: Seq<char>)
    ensures
        0 <= rank(m, k) <= m.len(),
        forall|i: int| 0 <= i < rank(m, k) ==> text::less(#[trigger] m[i].0, k),
        rank(m, k) < m.len() ==> !text::less(m[rank(m, k)].0, k),
    decreases m.len(),
{
    if m.len() > 0 && text::less(m[0].0, k) {
        lemma_rank(m.skip(1), k);
        assert forall|i: int| 0 <= i < rank(m, k) implies text::less(#[trigger] m[i].0, k) by {
            if i > 0 {
                assert(m.skip(1)[i - 1].0 == m[i].0);
            }
        }
    }
}

/// `rank` is the only place with these properties.
proof fn lemma_rank_unique(m: Seq<(Seq<char>, Doc)>, k: Seq<char>, r: int)
    requires
        0 <= r <= m.len(),
        forall|i: int| 0 <= i < r ==> text::less(#[trigger] m[i].0, k),
        r < m.len() ==> !text::less(m[r].0, k),
    ensures
        rank(m, k) == r,
{
    lemma_rank(m, k);
    if rank(m, k) < r {
        assert(text::less(m[rank(m, k)].0, k));
    } else if r < rank(m, k) {
        assert(text::less(m[r].0, k));
    }
}

/// What was set is what is found.
pub proof fn law_put_lookup(m: Seq<(Seq<char>, Doc)>, k: Seq<char>, v: Doc)
    ensures
        lookup(put(m, k, v), k) == Some(v),
{
    lemma_rank(m, k);
    text::lemma_less_irreflexive(k);
    let n = put(m, k, v);
    let i = rank(m, k);
    assert forall|j: int| 0 <= j < i implies text::less(#[trigger] n[j].0, k) by {
        assert(n[j] == m[j]);
    }
    lemma_rank_unique(n, k, i);
}

/// Setting a member keeps the keys in order.
pub proof fn law_put_ascending(m: Seq<(Seq<char>, Doc)>, k: Seq<char>, v: Doc)
    requires
        ascending(m),
    ensures
        ascending(put(m, k, v)),
{
    lemma_rank(m, k);
    let n = put(m, k, v);
    let i = rank(m, k);
    assert forall|a: int, b: int| 0 <= a < b < n.len() implies text::less(
        #[trigger] n[a].0,
        #[trigger] n[b].0,
    ) by {
        if i < m.len() && m[i].0 == k {
            assert(n[a].0 == m[a].0 && n[b].0 == m[b].0);
        } else {
            if a < i {
                if b == i {
                    assert(text::less(m[a].0, k));
                } else if b < i {
                    assert(n[a] == m[a] && n[b] == m[b]);
                } else {
                    assert(n[a] == m[a] && n[b] == m[b - 1]);
                }
            } else if a == i {
                assert(n[b] == m[b - 1]);
                text::lemma_less_total(m[i].0, k);
                if b - 1 > i {
                    assert(text::less(m[i].0, m[b - 1].0));
                    text::lemma_less_transitive(k, m[i].0, m[b - 1].0);
                }
            } else {
                assert(n[a] == m[a - 1] && n[b] == m[b - 1]);
            }
        }
    }
}

/// Setting one member leaves every other as it was.
pub proof fn law_put_others(
    m: Seq<(Seq<char>, Doc)>,
    k: Seq<char>,
    v: Doc,
    other: Seq<char>,
)
    requires
        ascending(m),
        other != k,
    ensures
        lookup(put(m, k, v), other) == lookup(m, other),
{
    lemma_rank(m, k);
    lemma_rank(m, other);
    text::lemma_less_total(k, other);
    text::lemma_less_irreflexive(k);
    let n = put(m, k, v);
    let i = rank(m, k);
    let r = rank(m, other);
    if i < m.len() && m[i].0 == k {
        assert forall|j: int| 0 <= j < r implies text::less(#[trigger] n[j].0, other) by {
            assert(n[j].0 == m[j].0);
        }
        lemma_rank_unique(n, other, r);
    } else if text::less(k, other) {
        // the new member stands before `other`
        if r < i {
            assert(text::less(m[r].0, k));
            text::lemma_less_transitive(m[r].0, k, other);
        }
        assert forall|j: int| 0 <= j < r + 1 implies text::less(#[trigger] n[j].0, other) by {
            if j < i {
                assert(n[j] == m[j]);
            } else if j > i {
                assert(n[j] == m[j - 1]);
            }
        }
        if r + 1 < n.len() {
            assert(n[r + 1] == m[r]);
        }
        lemma_rank_unique(n, other, r + 1);
    } else {
        // the new member stands behind `other`
        if r > i {
            assert(text::less(m[i].0, other));
            text::lemma_less_transitive(m[i].0, other, k);
        }
        assert forall|j: int| 0 <= j < r implies text::less(#[trigger] n[j].0, other) by {
            assert(n[j] == m[j]);
        }
        if r < i {
            assert(n[r] == m[r]);
        } else {
            if text::less(k, other) {
                text::lemma_less_transitive(k, other, k);
            }
            if r < m.len() && m[r].0 == other {
                assert(!text::less(m[i].0, k));
            }
        }
        lemma_rank_unique(n, other, r);
    }
}

/// A new object takes any path.
proof fn lemma_put_path_fresh(segs: Seq<Seq<char>>, v: Doc)
    ensures
        put_path(Doc::Object(Seq::empty()), segs, v) is Ok,
    decreases segs.len(),
{
    if segs.len() > 0 {
        lemma_put_path_fresh(segs.skip(1), v);
        assert(lookup(Seq::empty(), segs[0]) is None);
    }
}

/// What was set at a path is what is read there.
pub proof fn law_put_get_path(t: Doc, segs: Seq<Seq<char>>, v: Doc)
    requires
        put_path(t, segs, v) is Ok,
    ensures
        get_path(put_path(t, segs, v)->Ok_0, segs) == Some(v),
    decreases segs.len(),
{
    if segs.len() > 0 {
        match t {
            Doc::Object(m) => {
                let child = container(lookup(m, segs[0]));
                law_put_get_path(child, segs.skip(1), v);
                law_put_lookup(m, segs[0], put_path(child, segs.skip(1), v)->Ok_0);
            },
            Doc::Array(items) => {
                let i = element_index(segs[0], items.len())->Ok_0;
                numbers::lemma_parse_unsigned(segs[0], usize::MAX as int);
                law_put_get_path(items[i], segs.skip(1), v);
            },
            _ => {},
        }
    }
}

proof fn lemma_container_ordered(m: Seq<(Seq<char>, Doc)>, k: Seq<char>)
    requires
        ordered(Doc::Object(m)),
    ensures
        ordered(container(lookup(m, k))),
{
    lemma_rank(m, k);
    let i = rank(m, k);
    if i < m.len() {
        assert(ordered(m[i].1));
    }
}

proof fn lemma_put_path_others(t: Doc, p: Seq<Seq<char>>, v: Doc, q: Seq<Seq<char>>)
    requires
        ordered(t),
        put_path(t, p, v) is Ok,
        !overlap(t, p, q),
    ensures
        get_path(put_path(t, p, v)->Ok_0, q) == get_path(t, q),
    decreases p.len(),
{
    match t {
        Doc::Object(m) => {
            let child = container(lookup(m, p[0]));
            let c = put_path(child, p.skip(1), v)->Ok_0;
            if p[0] == q[0] {
                lemma_container_ordered(m, p[0]);
                lemma_put_path_others(child, p.skip(1), v, q.skip(1));
                law_put_lookup(m, p[0], c);
                let rest = q.skip(1);
                assert(!overlap(child, p.skip(1), rest));
                assert(rest.len() > 0);
                assert(lookup(Seq::empty(), rest[0]) is None);
                assert(get_path(Doc::Object(Seq::empty()), rest) is None);
                assert(get_path(t, q) == get_path(child, rest)) by {
                    match lookup(m, p[0]) {
                        Some(d) => {
                            assert(get_path(t, q) == get_path(d, rest));
                        },
                        None => {},
                    }
                }
            } else {
                law_put_others(m, p[0], c, q[0]);
            }
        },
        Doc::Array(items) => {
            let i = element_index(p[0], items.len())->Ok_0;
            numbers::lemma_parse_unsigned(p[0], usize::MAX as int);
            numbers::lemma_parse_unsigned(q[0], usize::MAX as int);
            if element_index(q[0], items.len()) == Ok::<int, PathFault>(i) {
                assert(ordered(items[i]));
                lemma_put_path_others(items[i], p.skip(1), v, q.skip(1));
            }
        },
        _ => {},
    }
}

/// What was set at a path is what is read there.
pub proof fn law_set_reads_back(t: Doc, path: Seq<char>, v: Doc)
    ensures
        put_path(t, segments(path), v) matches Ok(after) ==> get_path(after, segments(path))
            == Some(v),
{
    if put_path(t, segments(path), v) is Ok {
        law_put_get_path(t, segments(path), v);
    }
}

/// Setting the value at a path leaves the value at every other path as it was,
/// unless one of the two is a prefix of the other.
pub proof fn law_set_leaves_others(t: Doc, path: Seq<char>, v: Doc, other: Seq<char>)
    requires
        ordered(t),
        put_path(t, segments(path), v) is Ok,
        !overlap(t, segments(path), segments(other)),
    ensures
        get_path(put_path(t, segments(path), v)->Ok_0, segments(other)) == get_path(
            t,
            segments(other),
        ),
{
    lemma_put_path_others(t, segments(path), v, segments(other));
}

/// Setting the value at a path keeps the keys of every object in order.
pub proof fn law_set_keeps_order(t: Doc, segs: Seq<Seq<char>>, v: Doc)
    requires
        ordered(t),
        ordered(v),
        put_path(t, segs, v) is Ok,
    ensures
        ordered(put_path(t, segs, v)->Ok_0),
    decreases segs.len(),
{
    if segs.len() > 0 {
        match t {
            Doc::Object(m) => {
                let k = segs[0];
                let child = container(lookup(m, k));
                let c = put_path(child, segs.skip(1), v)->Ok_0;
                lemma_container_ordered(m, k);
                law_set_keeps_order(child, segs.skip(1), v);
                law_put_ascending(m, k, c);
                lemma_rank(m, k);
                let n = put(m, k, c);
                let r = rank(m, k);
                assert forall|i: int| 0 <= i < n.len() implies ordered((#[trigger] n[i]).1) by {
                    if i != r {
                        assert(n[i] == m[i] || n[i] == m[i - 1]);
                    }
                }
            },
            Doc::Array(items) => {
                let i = element_index(segs[0], items.len())->Ok_0;
                numbers::lemma_parse_unsigned(segs[0], usize::MAX as int);
                assert(ordered(items[i]));
                law_set_keeps_order(items[i], segs.skip(1), v);
                let c = put_path(items[i], segs.skip(1), v)->Ok_0;
                let n = items.update(i, c);
                assert forall|j: int| 0 <= j < n.len() implies ordered(#[trigger] n[j]) by {
                    if j != i {
                        assert(n[j] == items[j]);
                    }
                }
            },
            _ => {},
        }
    }
}

// ---------------------------------------------------------------------------
// Executable operations
// ---------------------------------------------------------------------------
/// Writes a string as a JSON literal (`serde_json::to_string`). Which literal
/// depends on the string alone.
#[verifier::external_body]
pub(crate) fn quote(s: &str) -> (r: String)
    ensures
        r@ == quoted(s@),
{
    serde_json::to_string(s).unwrap_or_default()
}

/// Where the member `k` is or belongs.
pub(crate) fn place(m: &Vec<(String, Json)>, k: &str) -> (r: (usize, bool))
    ensures
        r.0 == rank(members(m@), k@),
        r.0 <= m@.len(),
        r.1 == (r.0 < m@.len() && m@[r.0 as int].0@ == k@),
{
    let mut i: usize = 0;
    while i < m.len() && text::before(m[i].0.as_str(), k)
        invariant
            i <= m.len(),
            forall|j: int| 0 <= j < i ==> text::less(#[trigger] m@[j].0@, k@),
        decreases m.len() - i,
    {
        i = i + 1;
    }
    proof {
        assert forall|j: int| 0 <= j < i implies text::less(#[trigger] members(m@)[j].0, k@) by {
            assert(text::less(m@[j].0@, k@));
        }
        lemma_rank_unique(members(m@), k@, i as int);
    }
    (i, i < m.len() && text::same(m[i].0.as_str(), k))
}

impl Json {
    /// A copy of the document.
    pub fn copy(&self) -> (r: Json)
        ensures
            doc(r) == doc(*self),
        decreases self,
    {
        match self {
            Json::Null => Json::Null,
            Json::Bool(b) => Json::Bool(*b),
            Json::Number(n) => Json::Number(n.clone()),
            Json::Str(s) => Json::Str(s.clone()),
            Json::Array(items) => {
                let mut out: Vec<Json> = Vec::new();
                let mut i: usize = 0;
                while i < items.len()
                    invariant
                        i <= items.len(),
                        docs(out@) == docs(items@).take(i as int),
                        self == Json::Array(*items),
                    decreases items.len() - i,
                {
                    assert(decreases_to!(self->Array_0@ => self->Array_0@[i as int]));
                    let c = items[i].copy();
                    let ghost before = out@;
                    out.push(c);
                    assert(docs(out@) =~= docs(before).push(doc(c)));
                    i = i + 1;
                }
                proof {
                    assert(docs(items@).take(i as int) =~= docs(items@));
                    lemma_doc_array(out);
                    lemma_doc_array(*items);
                }
                Json::Array(out)
            },
            Json::Object(m) => {
                let mut out: Vec<(String, Json)> = Vec::new();
                let mut i: usize = 0;
                while i < m.len()
                    invariant
                        i <= m.len(),
                        members(out@) == members(m@).take(i as int),
                        self == Json::Object(*m),
                    decreases m.len() - i,
                {
                    assert(decreases_to!(self->Object_0@ => self->Object_0@[i as int]));
                    let c = m[i].1.copy();
                    let k = m[i].0.clone();
                    let ghost before = out@;
                    out.push((k, c));
                    assert(members(out@) =~= members(before).push((k@, doc(c))));
                    i = i + 1;
                }
                proof {
                    assert(members(m@).take(i as int) =~= members(m@));
                    lemma_doc_object(out);
                    lemma_doc_object(*m);
                }
                Json::Object(out)
            },
        }
    }
}

/// The segments of a dotted path.
pub fn path_segments(path: &str) -> (r: Vec<String>)
    ensures
        text::texts(r@) == segments(path@),
{
    if path.is_empty() {
        let out: Vec<String> = Vec::new();
        assert(text::texts(out@) =~= Seq::<Seq<char>>::empty());
        out
    } else {
        text::split_str(path, '.')
    }
}

/// The element of an array of `len` elements that a segment addresses.
pub(crate) fn element_at(seg: &str, len: usize) -> (r: Result<usize, PathFault>)
    ensures
        match r {
            Ok(i) => element_index(seg@, len as nat) == Ok::<int, PathFault>(i as int) && i < len,
            Err(e) => element_index(seg@, len as nat) == Err::<int, PathFault>(e),
        },
{
    match numbers::read_usize(seg) {
        None => Err(PathFault::InvalidIndex),
        Some(i) => if i >= len {
            Err(PathFault::OutOfBounds(i))
        } else {
            Ok(i)
        },
    }
}

impl Json {
    /// The value that the segments from `i` on address.
    fn get_segments(&self, segs: &Vec<String>, i: usize) -> (r: Option<&Json>)
        requires
            i <= segs@.len(),
        ensures
            match r {
                Some(j) => get_path(doc(*self), text::texts(segs@).skip(i as int)) == Some(doc(*j)),
                None => get_path(doc(*self), text::texts(segs@).skip(i as int)) is None,
            },
        decreases segs@.len() - i,
    {
        if i == segs.len() {
            return Some(self);
        }
        let seg = segs[i].as_str();
        assert(text::texts(segs@).skip(i as int)[0] == seg@);
        assert(text::texts(segs@).skip(i as int).skip(1) =~= text::texts(segs@).skip(i + 1));
        match self {
            Json::Object(m) => {
                proof {
                    lemma_doc_object(*m);
                }
                let (at, found) = place(m, seg);
                if found {
                    m[at].1.get_segments(segs, i + 1)
                } else {
                    None
                }
            },
            Json::Array(items) => {
                proof {
                    lemma_doc_array(*items);
                }
                match element_at(seg, items.len()) {
                    Ok(k) => items[k].get_segments(segs, i + 1),
                    Err(_) => None,
                }
            },
            _ => None,
        }
    }

    /// The value at a dotted path.
    pub fn get_at_path(&self, path: &str) -> (r: Option<&Json>)
        ensures
            match r {
                Some(j) => get_path(doc(*self), segments(path@)) == Some(doc(*j)),
                None => get_path(doc(*self), segments(path@)) is None,
            },
    {
        let segs = path_segments(path);
        assert(text::texts(segs@).skip(0) =~= text::texts(segs@));
        self.get_segments(&segs, 0)
    }

    /// Sets the value that the segments from `i` on address. On failure
    /// nothing has changed.
    pub(crate) fn set_segments(&mut self, segs: &Vec<String>, i: usize, value: Json) -> (r: Result<
        (),
        PathFault,
    >)
        requires
            i <= segs@.len(),
        ensures
            match r {
                Ok(_) => put_path(doc(*old(self)), text::texts(segs@).skip(i as int), doc(value))
                    == Ok::<Doc, PathFault>(doc(*final(self))),
                Err(e) => put_path(doc(*old(self)), text::texts(segs@).skip(i as int), doc(value))
                    == Err::<Doc, PathFault>(e) && doc(*final(self)) == doc(*old(self)),
            },
        decreases segs@.len() - i,
    {
        if i == segs.len() {
            *self = value;
            return Ok(());
        }
        let seg = segs[i].as_str();
        let ghost rest = text::texts(segs@).skip(i + 1);
        assert(text::texts(segs@).skip(i as int)[0] == seg@);
        assert(text::texts(segs@).skip(i as int).skip(1) =~= rest);
        match self {
            Json::Object(m) => {
                let ghost m0 = *m;
                proof {
                    lemma_doc_object(m0);
                }
                let (at, found) = place(m, seg);
                let mut child = Json::Object(Vec::new());
                proof {
                    lemma_doc_object(child->Object_0);
                    assert(members(child->Object_0@) =~= Seq::empty());
                    lemma_put_path_fresh(rest, doc(value));
                }
                let descend = found && matches!(m[at].1, Json::Object(_) | Json::Array(_));
                if descend {
                    let r = m[at].1.set_segments(segs, i + 1, value);
                    proof {
                        lemma_doc_object(*m);
                        if r is Ok {
                            assert(members(m@) =~= put(members(m0@), seg@, doc(m@[at as int].1)));
                        } else {
                            assert(members(m@) =~= members(m0@));
                        }
                    }
                    r
                } else {
                    let r = child.set_segments(segs, i + 1, value);
                    if found {
                        m[at].1 = child;
                    } else {
                        m.insert(at, (seg.to_owned(), child));
                    }
                    proof {
                        lemma_doc_object(*m);
                        assert(members(m@) =~= put(members(m0@), seg@, doc(child)));
                    }
                    r
                }
            },
            Json::Array(items) => {
                let ghost items0 = *items;
                proof {
                    lemma_doc_array(items0);
                }
                match element_at(seg, items.len()) {
                    Ok(k) => {
                        let r = items[k].set_segments(segs, i + 1, value);
                        proof {
                            lemma_doc_array(*items);
                            assert(docs(items@) =~= docs(items0@).update(
                                k as int,
                                doc(items@[k as int]),
                            ));
                            if r is Err {
                                assert(docs(items@) =~= docs(items0@));
                            }
                        }
                        r
                    },
                    Err(e) => Err(e),
                }
            },
            _ => Err(PathFault::ThroughScalar),
        }
    }

    /// Sets the value at a dotted path, creating objects on the way. On
    /// failure nothing has changed.
    pub fn set_p(&mut self, path: &str, value: Json) -> (r: Result<(), PathFault>)
        ensures
            match r {
                Ok(_) => put_path(doc(*old(self)), segments(path@), doc(value)) == Ok::<
                    Doc,
                    PathFault,
                >(doc(*final(self))),
                Err(e) => put_path(doc(*old(self)), segments(path@), doc(value)) == Err::<
                    Doc,
                    PathFault,
                >(e) && doc(*final(self)) == doc(*old(self)),
            },
            r is Ok ==> get_path(doc(*final(self)), segments(path@)) == Some(doc(value)),
            r is Ok && ordered(doc(*old(self))) ==> forall|other: Seq<char>|
                !overlap(doc(*old(self)), segments(path@), #[trigger] segments(other)) ==> get_path(
                    doc(*final(self)),
                    segments(other),
                ) == get_path(doc(*old(self)), segments(other)),
    {
        let segs = path_segments(path);
        assert(text::texts(segs@).skip(0) =~= text::texts(segs@));
        proof {
            let before = doc(*self);
            let v = doc(value);
            law_set_reads_back(before, path@, v);
            if ordered(before) && put_path(before, segments(path@), v) is Ok {
                assert forall|other: Seq<char>|
                    !overlap(before, segments(path@), #[trigger] segments(other)) implies get_path(
                    put_path(before, segments(path@), v)->Ok_0,
                    segments(other),
                ) == get_path(before, segments(other)) by {
                    law_set_leaves_others(before, path@, v, other);
                }
            }
        }
        self.set_segments(&segs, 0, value)
    }
}

impl Json {
    /// The document on one line, without white space.
    pub fn compact_text(&self) -> (r: String)
        ensures
            r@ == compact(doc(*self)),
        decreases self,
    {
        match self {
            Json::Null => "null".to_owned(),
            Json::Bool(b) => if *b {
                "true".to_owned()
            } else {
                "false".to_owned()
            },
            Json::Number(n) => n.clone(),
            Json::Str(s) => quote(s.as_str()),
            Json::Array(items) => {
                let mut parts: Vec<String> = Vec::new();
                let mut i: usize = 0;
                while i < items.len()
                    invariant
                        i <= items.len(),
                        self == Json::Array(*items),
                        text::texts(parts@) == compact_items(docs(items@).take(i as int)),
                    decreases items.len() - i,
                {
                    assert(decreases_to!(self->Array_0@ => self->Array_0@[i as int]));
                    let ghost before = parts@;
                    let c = items[i].compact_text();
                    parts.push(c);
                    assert(text::texts(parts@) =~= text::texts(before).push(c@));
                    assert(docs(items@).take(i + 1).drop_last() =~= docs(items@).take(i as int));
                    i = i + 1;
                }
                let body = text::joined(parts.as_slice(), ",");
                proof {
                    lemma_doc_array(*items);
                    assert(docs(items@).take(i as int) =~= docs(items@));
                }
                text::cat3("[", body.as_str(), "]")
            },
            Json::Object(m) => {
                let mut parts: Vec<String> = Vec::new();
                let mut i: usize = 0;
                while i < m.len()
                    invariant
                        i <= m.len(),
                        self == Json::Object(*m),
                        text::texts(parts@) == compact_members(members(m@).take(i as int)),
                    decreases m.len() - i,
                {
                    assert(decreases_to!(self->Object_0@ => self->Object_0@[i as int]));
                    let ghost before = parts@;
                    let k = quote(m[i].0.as_str());
                    let v = m[i].1.compact_text();
                    let c = text::cat3(k.as_str(), ":", v.as_str());
                    parts.push(c);
                    assert(text::texts(parts@) =~= text::texts(before).push(c@));
                    assert(members(m@).take(i + 1).drop_last() =~= members(m@).take(i as int));
                    i = i + 1;
                }
                let body = text::joined(parts.as_slice(), ",");
                proof {
                    lemma_doc_object(*m);
                    assert(members(m@).take(i as int) =~= members(m@));
                }
                text::cat3("{", body.as_str(), "}")
            },
        }
    }
}

/// Adds a member to the end of a list of members.
pub(crate) fn add_member(m: &mut Vec<(String, Json)>, k: &str, v: Json)
    ensures
        members(final(m)@) == members(old(m)@).push((k@, doc(v))),
{
    let ghost before = m@;
    let ghost d = doc(v);
    m.push((k.to_owned(), v));
    assert(members(m@) =~= members(before).push((k@, d)));
}

/// An object with these members.
pub(crate) fn object(m: Vec<(String, Json)>) -> (r: Json)
    ensures
        doc(r) == Doc::Object(members(m@)),
{
    proof {
        lemma_doc_object(m);
    }
    Json::Object(m)
}

/// A list of members without any.
pub(crate) fn no_members() -> (r: Vec<(String, Json)>)
    ensures
        members(r@) == Seq::<(Seq<char>, Doc)>::empty(),
{
    let r: Vec<(String, Json)> = Vec::new();
    assert(members(r@) =~= Seq::empty());
    r
}

// ---------------------------------------------------------------------------
// Longer paths
// ---------------------------------------------------------------------------
/// What is read at a path is what is read at its rest, in the value at its front.
pub proof fn law_paths_compose(t: Doc, a: Seq<Seq<char>>, b: Seq<Seq<char>>)
    ensures
        get_path(t, a + b) == (match get_path(t, a) {
            Some(c) => get_path(c, b),
            None => None,
        }),
    decreases a.len(),
{
    if a.len() == 0 {
        assert(a + b =~= b);
    } else {
        assert((a + b)[0] == a[0]);
        assert((a + b).skip(1) =~= a.skip(1) + b);
        match t {
            Doc::Object(m) => {
                if let Some(c) = lookup(m, a[0]) {
                    law_paths_compose(c, a.skip(1), b);
                }
            },
            Doc::Array(items) => {
                if let Ok(i) = element_index(a[0], items.len()) {
                    law_paths_compose(items[i], a.skip(1), b);
                }
            },
            _ => {},
        }
    }
}

/// A value that is there can be set.
pub proof fn law_present_values_can_be_set(t: Doc, segs: Seq<Seq<char>>, v: Doc)
    requires
        get_path(t, segs) is Some,
    ensures
        put_path(t, segs, v) is Ok,
    decreases segs.len(),
{
    if segs.len() > 0 {
        match t {
            Doc::Object(m) => {
                let c = lookup(m, segs[0])->0;
                law_present_values_can_be_set(c, segs.skip(1), v);
                if segs.len() > 1 {
                    assert(get_path(c, segs.skip(1)) is Some);
                    assert(c is Object || c is Array);
                }
                assert(put_path(container(lookup(m, segs[0])), segs.skip(1), v) is Ok);
            },
            Doc::Array(items) => {
                let i = element_index(segs[0], items.len())->Ok_0;
                law_present_values_can_be_set(items[i], segs.skip(1), v);
            },
            _ => {},
        }
    }
}

/// Below an object every path can be set that leads through no array; whatever is
/// missing on the way, or is no object, becomes one.
pub proof fn law_paths_through_objects_can_be_set(t: Doc, segs: Seq<Seq<char>>, v: Doc)
    requires
        t is Object,
        forall|k: int|
            0 < k < segs.len() ==> !(#[trigger] get_path(t, segs.take(k)) matches Some(
                Doc::Array(_),
            )),
    ensures
        put_path(t, segs, v) is Ok,
    decreases segs.len(),
{
    if segs.len() > 0 {
        let m = t->Object_0;
        let child = container(lookup(m, segs[0]));
        let rest = segs.skip(1);
        if rest.len() > 0 {
            assert(segs.take(1)[0] == segs[0]);
            assert(segs.take(1).skip(1) =~= Seq::empty());
            match lookup(m, segs[0]) {
                Some(c) => {
                    assert(get_path(t, segs.take(1)) == get_path(c, segs.take(1).skip(1)));
                    assert(get_path(c, Seq::<Seq<char>>::empty()) == Some(c));
                    assert(!(c is Array));
                },
                None => {},
            }
            assert(child is Object);
            assert forall|k: int| 0 < k < rest.len() implies !(#[trigger] get_path(
                child,
                rest.take(k),
            ) matches Some(Doc::Array(_))) by {
                assert(segs.take(k + 1).skip(1) =~= rest.take(k));
                assert(segs.take(k + 1)[0] == segs[0]);
                assert(!(get_path(t, segs.take(k + 1)) matches Some(Doc::Array(_))));
                match lookup(m, segs[0]) {
                    Some(c) => {
                        if c != child {
                            assert(lookup(Seq::empty(), rest.take(k)[0]) is None);
                        }
                    },
                    None => {
                        assert(lookup(Seq::empty(), rest.take(k)[0]) is None);
                    },
                }
            }
            law_paths_through_objects_can_be_set(child, rest, v);
        } else {
            assert(put_path(child, rest, v) is Ok);
        }
    }
}

/// Setting the value at a path, whole, leaves the value at every other path as it
/// was, unless one of the two is a prefix of the other.
pub proof fn law_put_leaves_others(t: Doc, p: Seq<Seq<char>>, v: Doc, q: Seq<Seq<char>>)
    requires
        ordered(t),
        put_path(t, p, v) is Ok,
        !overlap(t, p, q),
    ensures
        get_path(put_path(t, p, v)->Ok_0, q) == get_path(t, q),
{
    lemma_put_path_others(t, p, v, q);
}

/// What lies at a path of a document in order is in order.
pub proof fn lemma_get_path_ordered(t: Doc, segs: Seq<Seq<char>>)
    requires
        ordered(t),
    ensures
        get_path(t, segs) matches Some(d) ==> ordered(d),
    decreases segs.len(),
{
    if segs.len() > 0 {
        match t {
            Doc::Object(m) => {
                lemma_rank(m, segs[0]);
                let i = rank(m, segs[0]);
                if i < m.len() && m[i].0 == segs[0] {
                    assert(ordered(m[i].1));
                    lemma_get_path_ordered(m[i].1, segs.skip(1));
                }
            },
            Doc::Array(items) => {
                if let Ok(i) = element_index(segs[0], items.len()) {
                    numbers::lemma_parse_unsigned(segs[0], usize::MAX as int);
                    assert(ordered(items[i]));
                    lemma_get_path_ordered(items[i], segs.skip(1));
                }
            },
            _ => {},
        }
    }
}

/// How documents are written on one line.
pub proof fn law_how_documents_are_written(s: Seq<char>, a: Doc, b: Doc, k: Seq<char>, l: Seq<char>)
    ensures
        compact(Doc::Null) == "null"@,
        compact(Doc::Bool(true)) == "true"@ && compact(Doc::Bool(false)) == "false"@,
        compact(Doc::Number(s)) == s,
        compact(Doc::Str(s)) == quoted(s),
        compact(Doc::Array(Seq::empty())) == "["@ + "]"@,
        compact(Doc::Array(seq![a, b])) == "["@ + (compact(a) + ","@ + compact(b)) + "]"@,
        compact(Doc::Object(Seq::empty())) == "{"@ + "}"@,
        compact(Doc::Object(seq![(k, a), (l, b)])) == "{"@ + (quoted(k) + ":"@ + compact(a) + ","@
            + (quoted(l) + ":"@ + compact(b))) + "}"@,
{
    let none = Seq::<Doc>::empty();
    let two = seq![a, b];
    assert(two.drop_last() =~= seq![a]);
    assert(seq![a].drop_last() =~= none);
    assert(compact_items(none) =~= Seq::<Seq<char>>::empty());
    assert(compact_items(seq![a]) =~= seq![compact(a)]);
    assert(compact_items(two) =~= seq![compact(a), compact(b)]);
    let t = seq![compact(a), compact(b)];
    assert(t.drop_last() =~= seq![compact(a)]);
    assert(text::join(t.drop_last(), ","@) == compact(a));
    let nothing = Seq::<(Seq<char>, Doc)>::empty();
    let m = seq![(k, a), (l, b)];
    assert(m.drop_last() =~= seq![(k, a)]);
    assert(seq![(k, a)].drop_last() =~= nothing);
    let x = quoted(k) + ":"@ + compact(a);
    let y = quoted(l) + ":"@ + compact(b);
    assert(compact_members(nothing) =~= Seq::<Seq<char>>::empty());
    assert(compact_members(seq![(k, a)]) =~= seq![x]);
    assert(compact_members(m) =~= seq![x, y]);
    assert(seq![x, y].drop_last() =~= seq![x]);
    assert(text::join(seq![x, y].drop_last(), ","@) == x);
    assert("["@ + text::join(Seq::empty(), ","@) + "]"@ =~= "["@ + "]"@);
    assert("{"@ + text::join(Seq::empty(), ","@) + "}"@ =~= "{"@ + "}"@);
}

} // verus!
