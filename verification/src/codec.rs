//! Documents as JSON and YAML text.
use serde::Serialize;
use serde_json::ser::PrettyFormatter;
use serde_json::{Serializer, Value};
use std::collections::BTreeMap;
use vstd::prelude::*;
use crate::json;
use crate::json::{Doc, Json};
use crate::text;

verus! {

/// One value of a document, with the number of its elements or the keys of its
/// members where it has such.
#[derive(Debug)]
enum JsonToken {
    Null,
    Bool(bool),
    Number(String),
    Str(String),
    Array(usize),
    Object(Vec<String>),
}

/// One value of a document that is written: the text of a plain value, a string, or
/// the number of elements or the keys of members.
#[derive(Debug)]
enum Piece {
    Plain(String),
    Str(String),
    Array(usize),
    Object(Vec<String>),
}

// ---------------------------------------------------------------------------
// Definitions
// ---------------------------------------------------------------------------
/// One line of a listing: a plain value, the length of an array, or the keys of
/// an object.
pub enum Line {
    Plain(Doc),
    Array(nat),
    Object(Seq<Seq<char>>),
}

/// The line that a token stands for.
spec fn line(t: JsonToken) -> Line {
    match t {
        JsonToken::Null => Line::Plain(Doc::Null),
        JsonToken::Bool(b) => Line::Plain(Doc::Bool(b)),
        JsonToken::Number(n) => Line::Plain(Doc::Number(n@)),
        JsonToken::Str(s) => Line::Plain(Doc::Str(s@)),
        JsonToken::Array(n) => Line::Array(n as nat),
        JsonToken::Object(keys) => Line::Object(text::texts(keys@)),
    }
}

/// The listing that a list of tokens stands for.
spec fn listing(v: Seq<JsonToken>) -> Seq<Line> {
    v.map_values(|t: JsonToken| line(t))
}

/// The keys of an object's members.
pub open spec fn keys_of(m: Seq<(Seq<char>, Doc)>) -> Seq<Seq<char>> {
    m.map_values(|e: (Seq<char>, Doc)| e.0)
}

/// A value, then all that it holds, the last element or member first.
pub open spec fn lines(d: Doc) -> Seq<Line>
    decreases d,
{
    match d {
        Doc::Array(a) => seq![Line::Array(a.len())] + item_lines(a),
        Doc::Object(m) => seq![Line::Object(keys_of(m))] + member_lines(m),
        _ => seq![Line::Plain(d)],
    }
}

/// The elements of an array and all that they hold, the last one first.
pub open spec fn item_lines(a: Seq<Doc>) -> Seq<Line>
    decreases a,
{
    if a.len() == 0 {
        Seq::empty()
    } else {
        lines(a[a.len() - 1]) + item_lines(a.drop_last())
    }
}

/// The members of an object and all that they hold, the last one first.
pub open spec fn member_lines(m: Seq<(Seq<char>, Doc)>) -> Seq<Line>
    decreases m,
{
    if m.len() == 0 {
        Seq::empty()
    } else {
        lines(m[m.len() - 1].1) + member_lines(m.drop_last())
    }
}

/// The document that JSON bytes hold (`serde_json::from_slice`), or the text of
/// the error.
pub uninterp spec fn parsed_json(raw: Seq<u8>) -> Result<Doc, Seq<char>>;

/// The texts that JSON bytes hold by ascending name (`serde_json::from_slice` as a
/// map of texts), or the text of the error.
pub uninterp spec fn parsed_table(raw: Seq<u8>) -> Result<
    Seq<(Seq<char>, Seq<char>)>,
    Seq<char>,
>;

/// The document that YAML bytes hold (`serde_yaml::from_slice`), or the text of the
/// error.
pub uninterp spec fn parsed_yaml(raw: Seq<u8>) -> Result<Doc, Seq<char>>;

/// A document as JSON text over several lines with this indentation
/// (`serde_json::ser::PrettyFormatter`).
pub uninterp spec fn indented_json(d: Doc, indent: Seq<u8>) -> Seq<u8>;

/// A document as YAML text (`serde_yaml::to_string`), or the text of the error.
pub uninterp spec fn written_yaml(d: Doc) -> Result<Seq<char>, Seq<char>>;

/// The line of a value that is written: as in a listing, with a plain value's text.
pub enum PieceView {
    Plain(Seq<char>),
    Str(Seq<char>),
    Array(nat),
    Object(Seq<Seq<char>>),
}

/// What is written for a line of a listing.
pub open spec fn piece_of(l: Line) -> PieceView {
    match l {
        Line::Plain(Doc::Str(s)) => PieceView::Str(s),
        Line::Plain(d) => PieceView::Plain(json::compact(d)),
        Line::Array(n) => PieceView::Array(n),
        Line::Object(keys) => PieceView::Object(keys),
    }
}

/// What is written for a document.
pub open spec fn pieces_of(d: Doc) -> Seq<PieceView> {
    lines(d).map_values(|l: Line| piece_of(l))
}

/// The pieces that a list holds.
spec fn pieces_view(v: Seq<Piece>) -> Seq<PieceView> {
    v.map_values(
        |p: Piece|
            match p {
                Piece::Plain(t) => PieceView::Plain(t@),
                Piece::Str(s) => PieceView::Str(s@),
                Piece::Array(n) => PieceView::Array(n as nat),
                Piece::Object(keys) => PieceView::Object(text::texts(keys@)),
            },
    )
}

/// The bytes are an object written on one line that holds nothing but texts, its
/// keys in ascending order.
pub open spec fn is_written_table(raw: Seq<u8>, m: Seq<(Seq<char>, Doc)>) -> bool {
    &&& raw == vstd::utf8::encode_utf8(json::compact(Doc::Object(m)))
    &&& json::ascending(m)
    &&& forall|i: int| 0 <= i < m.len() ==> (#[trigger] m[i]).1 is Str
}

/// The members of an object whose values are all texts.
pub open spec fn texts_of(m: Seq<(Seq<char>, Doc)>) -> Seq<(Seq<char>, Seq<char>)> {
    m.map_values(|e: (Seq<char>, Doc)| (e.0, e.1->Str_0))
}

// ---------------------------------------------------------------------------
// Calls
// ---------------------------------------------------------------------------
/// Parses JSON (`serde_json::from_slice`) and lists the document, each value
/// before what it holds, and of that the last first. What is listed depends on
/// the bytes alone. The keys of an object are those of a `BTreeMap`, in ascending
/// order.
#[verifier::external_body]
fn list_json(raw: &[u8]) -> (r: Result<Vec<JsonToken>, String>)
    ensures
        match r {
            Ok(v) => parsed_json(raw@) matches Ok(d) && listing(v@) == lines(d) && json::ordered(d),
            Err(e) => parsed_json(raw@) == Err::<Doc, Seq<char>>(e@),
        },
{
    let mut todo = vec![serde_json::from_slice(raw).map_err(|e| e.to_string())?];
    let mut out = vec![];
    while let Some(value) = todo.pop() {
        out.push(match value {
            Value::Null => JsonToken::Null,
            Value::Bool(b) => JsonToken::Bool(b),
            Value::Number(n) => JsonToken::Number(n.to_string()),
            Value::String(s) => JsonToken::Str(s),
            Value::Array(a) => { todo.extend(a.iter().cloned()); JsonToken::Array(a.len()) },
            Value::Object(m) => { todo.extend(m.values().cloned()); JsonToken::Object(m.keys().cloned().collect()) },
        });
    }
    Ok(out)
}

/// Parses JSON as a map of texts (`serde_json::from_slice` into a `BTreeMap`). The
/// outcome depends on the bytes alone. An object of texts that was written on one
/// line is read back as it was.
#[verifier::external_body]
pub(crate) fn parse_table(raw: &[u8]) -> (r: Result<Vec<(String, String)>, String>)
    ensures
        match r {
            Ok(v) => parsed_table(raw@) == Ok::<Seq<(Seq<char>, Seq<char>)>, Seq<char>>(
                text::pairs(v@),
            ) && forall|m: Seq<(Seq<char>, Doc)>| #[trigger]
                is_written_table(raw@, m) ==> text::pairs(v@) == texts_of(m),
            Err(e) => parsed_table(raw@) == Err::<Seq<(Seq<char>, Seq<char>)>, Seq<char>>(e@)
                && forall|m: Seq<(Seq<char>, Doc)>| !#[trigger] is_written_table(raw@, m),
        },
{
    let table: BTreeMap<String, String> = serde_json::from_slice(raw).map_err(|e| e.to_string())?;
    Ok(table.into_iter().collect())
}

/// Parses YAML (`serde_yaml::from_slice`) and lists the document, each value before
/// what it holds, and of that the last first. What is listed depends on the bytes
/// alone. The keys of an object are those of a `BTreeMap`, in ascending order.
#[verifier::external_body]
fn list_yaml(raw: &[u8]) -> (r: Result<Vec<JsonToken>, String>)
    ensures
        match r {
            Ok(v) => parsed_yaml(raw@) matches Ok(d) && listing(v@) == lines(d) && json::ordered(d),
            Err(e) => parsed_yaml(raw@) == Err::<Doc, Seq<char>>(e@),
        },
{
    let mut todo = vec![serde_yaml::from_slice(raw).map_err(|e| e.to_string())?];
    let mut out = vec![];
    while let Some(value) = todo.pop() {
        out.push(match value {
            Value::Null => JsonToken::Null,
            Value::Bool(b) => JsonToken::Bool(b),
            Value::Number(n) => JsonToken::Number(n.to_string()),
            Value::String(s) => JsonToken::Str(s),
            Value::Array(a) => { todo.extend(a.iter().cloned()); JsonToken::Array(a.len()) },
            Value::Object(m) => { todo.extend(m.values().cloned()); JsonToken::Object(m.keys().cloned().collect()) },
        });
    }
    Ok(out)
}

/// Writes a document as JSON over several lines (`serde_json::Serializer` with a
/// `PrettyFormatter`), which cannot fail on a vector. A plain value is the one that
/// its text stands for (`serde_yaml::from_str`, which reads numbers exactly). What
/// is written depends on the document and the indentation alone.
#[verifier::external_body]
fn write_json(pieces: Vec<Piece>, indent: &[u8]) -> (r: Vec<u8>)
    ensures
        forall|d: Doc|
            pieces_view(pieces@) == #[trigger] pieces_of(d) ==> r@ == indented_json(d, indent@),
{
    let (mut done, mut out) = (vec![], vec![]);
    for piece in pieces.into_iter().rev() {
        let value = match piece {
            Piece::Plain(t) => serde_yaml::from_str(&t).unwrap_or_default(),
            Piece::Str(s) => Value::String(s),
            Piece::Array(n) => done.split_off(done.len().saturating_sub(n)).into(),
            Piece::Object(k) => { let v = done.split_off(done.len().saturating_sub(k.len())); k.into_iter().zip(v).collect() },
        };
        done.push(value);
    }
    let mut writer = Serializer::with_formatter(&mut out, PrettyFormatter::with_indent(indent));
    done.pop().serialize(&mut writer).ok();
    out
}

/// Writes a document as YAML (`serde_yaml::to_string`). A plain value is the one
/// that its text stands for (`serde_yaml::from_str`, which reads numbers exactly).
/// The outcome depends on the document alone.
#[verifier::external_body]
fn write_yaml(pieces: Vec<Piece>) -> (r: Result<String, String>)
    ensures
        forall|d: Doc|
            pieces_view(pieces@) == #[trigger] pieces_of(d) ==> written_yaml(d) == (match r {
                Ok(t) => Ok::<Seq<char>, Seq<char>>(t@),
                Err(e) => Err(e@),
            }),
{
    let mut done = vec![];
    for piece in pieces.into_iter().rev() {
        let value = match piece {
            Piece::Plain(t) => serde_yaml::from_str(&t).unwrap_or_default(),
            Piece::Str(s) => Value::String(s),
            Piece::Array(n) => done.split_off(done.len().saturating_sub(n)).into(),
            Piece::Object(k) => { let v = done.split_off(done.len().saturating_sub(k.len())); k.into_iter().zip(v).collect() },
        };
        done.push(value);
    }
    serde_yaml::to_string(&done.pop()).map_err(|e| e.to_string())
}

// ---------------------------------------------------------------------------
// Trees
// ---------------------------------------------------------------------------
/// The value listed from `from` on, and where its lines end.
fn read_value(v: &Vec<JsonToken>, from: usize, Ghost(d): Ghost<Doc>) -> (r: (Json, usize))
    requires
        from + lines(d).len() <= v@.len(),
        listing(v@).subrange(from as int, from + lines(d).len()) == lines(d),
    ensures
        json::doc(r.0) == d,
        r.1 == from + lines(d).len(),
    decreases v@.len() - from, 1nat,
{
    let ghost l = listing(v@);
    let ghost all = l.subrange(from as int, from + lines(d).len());
    let n: usize = v.len();
    proof {
        assert(lines(d).len() > 0);
        assert(all[0] == l[from as int]);
        match d {
            Doc::Array(a) => {
                assert(l.subrange(from + 1, from + lines(d).len()) =~= all.skip(1));
                assert(lines(d).skip(1) =~= item_lines(a));
            },
            Doc::Object(m) => {
                assert(l.subrange(from + 1, from + lines(d).len()) =~= all.skip(1));
                assert(lines(d).skip(1) =~= member_lines(m));
            },
            _ => {},
        }
    }
    assert(from < n);
    match &v[from] {
        JsonToken::Null => (Json::Null, from + 1),
        JsonToken::Bool(b) => (Json::Bool(*b), from + 1),
        JsonToken::Number(n) => (Json::Number(n.clone()), from + 1),
        JsonToken::Str(s) => (Json::Str(s.clone()), from + 1),
        JsonToken::Array(n) => {
            let (items, end) = read_items(v, from + 1, *n, Ghost(d->Array_0));
            proof {
                json::lemma_doc_array(items);
            }
            (Json::Array(items), end)
        },
        JsonToken::Object(keys) => {
            let (m, end) = read_members(v, from + 1, keys, Ghost(d->Object_0));
            proof {
                json::lemma_doc_object(m);
            }
            (Json::Object(m), end)
        },
    }
}

/// The elements of an array, listed from `from` on.
fn read_items(v: &Vec<JsonToken>, from: usize, n: usize, Ghost(a): Ghost<Seq<Doc>>) -> (r: (
    Vec<Json>,
    usize,
))
    requires
        a.len() == n,
        from + item_lines(a).len() <= v@.len(),
        listing(v@).subrange(from as int, from + item_lines(a).len()) == item_lines(a),
    ensures
        json::docs(r.0@) == a,
        r.1 == from + item_lines(a).len(),
    decreases v@.len() - from, 2nat,
{
    let ghost l = listing(v@);
    let ghost stop = from + item_lines(a).len();
    let mut back: Vec<Json> = Vec::new();
    let mut i: usize = from;
    let mut left: usize = n;
    assert(a.take(n as int) =~= a);
    while left > 0
        invariant
            l == listing(v@),
            a.len() == n,
            left <= n,
            from <= i <= stop <= v@.len(),
            l.subrange(i as int, stop) == item_lines(a.take(left as int)),
            back@.len() == n - left,
            forall|j: int| 0 <= j < back@.len() ==> json::doc(#[trigger] back@[j]) == a[n - 1 - j],
        decreases left,
    {
        let ghost rest = a.take(left as int);
        let ghost d = rest[left - 1];
        let ghost tail = item_lines(rest.drop_last());
        let ghost end = i + lines(d).len();
        proof {
            let all = l.subrange(i as int, stop);
            assert(all == lines(d) + tail);
            assert(all.len() == lines(d).len() + tail.len());
            assert(l.subrange(i as int, end) =~= all.take(lines(d).len() as int));
            assert(all.take(lines(d).len() as int) =~= lines(d));
            assert(l.subrange(end, stop) =~= all.skip(lines(d).len() as int));
            assert(all.skip(lines(d).len() as int) =~= tail);
            assert(rest.drop_last() =~= a.take(left - 1));
        }
        let (item, next) = read_value(v, i, Ghost(d));
        back.push(item);
        i = next;
        left = left - 1;
    }
    let mut out: Vec<Json> = Vec::new();
    while back.len() > 0
        invariant
            a.len() == n,
            out@.len() + back@.len() == n,
            forall|j: int| 0 <= j < back@.len() ==> json::doc(#[trigger] back@[j]) == a[n - 1 - j],
            forall|j: int| 0 <= j < out@.len() ==> json::doc(#[trigger] out@[j]) == a[j],
        decreases back@.len(),
    {
        if let Some(x) = back.pop() {
            out.push(x);
        }
    }
    assert(json::docs(out@) =~= a);
    (out, i)
}

/// The members of an object with these keys, listed from `from` on.
fn read_members(
    v: &Vec<JsonToken>,
    from: usize,
    keys: &Vec<String>,
    Ghost(m): Ghost<Seq<(Seq<char>, Doc)>>,
) -> (r: (Vec<(String, Json)>, usize))
    requires
        text::texts(keys@) == keys_of(m),
        from + member_lines(m).len() <= v@.len(),
        listing(v@).subrange(from as int, from + member_lines(m).len()) == member_lines(m),
    ensures
        json::members(r.0@) == m,
        r.1 == from + member_lines(m).len(),
    decreases v@.len() - from, 2nat,
{
    let ghost l = listing(v@);
    let ghost stop = from + member_lines(m).len();
    let n: usize = keys.len();
    proof {
        assert(keys_of(m).len() == n);
    }
    let mut back: Vec<Json> = Vec::new();
    let mut i: usize = from;
    let mut left: usize = n;
    assert(m.take(n as int) =~= m);
    while left > 0
        invariant
            l == listing(v@),
            m.len() == n,
            left <= n,
            from <= i <= stop <= v@.len(),
            l.subrange(i as int, stop) == member_lines(m.take(left as int)),
            back@.len() == n - left,
            forall|j: int|
                0 <= j < back@.len() ==> json::doc(#[trigger] back@[j]) == m[n - 1 - j].1,
        decreases left,
    {
        let ghost rest = m.take(left as int);
        let ghost d = rest[left - 1].1;
        let ghost tail = member_lines(rest.drop_last());
        let ghost end = i + lines(d).len();
        proof {
            let all = l.subrange(i as int, stop);
            assert(all == lines(d) + tail);
            assert(all.len() == lines(d).len() + tail.len());
            assert(l.subrange(i as int, end) =~= all.take(lines(d).len() as int));
            assert(all.take(lines(d).len() as int) =~= lines(d));
            assert(l.subrange(end, stop) =~= all.skip(lines(d).len() as int));
            assert(all.skip(lines(d).len() as int) =~= tail);
            assert(rest.drop_last() =~= m.take(left - 1));
        }
        let (value, next) = read_value(v, i, Ghost(d));
        back.push(value);
        i = next;
        left = left - 1;
    }
    let mut out = json::no_members();
    let mut k: usize = 0;
    assert(m.take(0) =~= Seq::empty());
    while k < n
        invariant
            k <= n == keys@.len(),
            m.len() == n,
            text::texts(keys@) == keys_of(m),
            back@.len() == n - k,
            forall|j: int|
                0 <= j < back@.len() ==> json::doc(#[trigger] back@[j]) == m[n - 1 - j].1,
            json::members(out@) == m.take(k as int),
        decreases n - k,
    {
        if let Some(x) = back.pop() {
            assert(text::texts(keys@)[k as int] == keys@[k as int]@);
            assert(keys_of(m)[k as int] == m[k as int].0);
            json::add_member(&mut out, keys[k].as_str(), x);
            assert(m.take(k + 1) =~= m.take(k as int).push(m[k as int]));
        }
        k = k + 1;
    }
    assert(m.take(n as int) =~= m);
    (out, i)
}

/// Parses JSON bytes.
pub fn parse_json(raw: &[u8]) -> (r: Result<Json, String>)
    ensures
        parsed_json(raw@) == (match r {
            Ok(j) => Ok::<Doc, Seq<char>>(json::doc(j)),
            Err(e) => Err(e@),
        }),
        r matches Ok(j) ==> json::ordered(json::doc(j)),
{
    match list_json(raw) {
        Ok(v) => {
            let ghost d = parsed_json(raw@)->Ok_0;
            assert(listing(v@).subrange(0, lines(d).len() as int) =~= lines(d));
            let (j, _end) = read_value(&v, 0, Ghost(d));
            Ok(j)
        },
        Err(e) => Err(e),
    }
}

/// Parses YAML bytes.
pub fn parse_yaml(raw: &[u8]) -> (r: Result<Json, String>)
    ensures
        parsed_yaml(raw@) == (match r {
            Ok(j) => Ok::<Doc, Seq<char>>(json::doc(j)),
            Err(e) => Err(e@),
        }),
        r matches Ok(j) ==> json::ordered(json::doc(j)),
{
    match list_yaml(raw) {
        Ok(v) => {
            let ghost d = parsed_yaml(raw@)->Ok_0;
            assert(listing(v@).subrange(0, lines(d).len() as int) =~= lines(d));
            let (j, _end) = read_value(&v, 0, Ghost(d));
            Ok(j)
        },
        Err(e) => Err(e),
    }
}

/// What is written for the elements of an array.
spec fn item_pieces(a: Seq<Doc>) -> Seq<PieceView> {
    item_lines(a).map_values(|l: Line| piece_of(l))
}

/// What is written for the members of an object.
spec fn member_pieces(m: Seq<(Seq<char>, Doc)>) -> Seq<PieceView> {
    member_lines(m).map_values(|l: Line| piece_of(l))
}

/// Appends what is written for a value.
fn add_value(j: &Json, out: &mut Vec<Piece>)
    ensures
        pieces_view(final(out)@) == pieces_view(old(out)@) + pieces_of(json::doc(*j)),
    decreases j,
{
    let ghost start = pieces_view(out@);
    match j {
        Json::Null => {
            add_piece(out, Piece::Plain("null".to_owned()));
        },
        Json::Bool(b) => {
            add_piece(
                out,
                Piece::Plain(
                    if *b {
                        "true".to_owned()
                    } else {
                        "false".to_owned()
                    },
                ),
            );
        },
        Json::Number(n) => {
            add_piece(out, Piece::Plain(n.clone()));
        },
        Json::Str(s) => {
            add_piece(out, Piece::Str(s.clone()));
        },
        Json::Array(items) => {
            let ghost all = json::docs(items@);
            let mut k: usize = items.len();
            add_piece(out, Piece::Array(k));
            let ghost head = pieces_view(out@);
            proof {
                json::lemma_doc_array(*items);
                assert(all.take(k as int) =~= all);
            }
            while k > 0
                invariant
                    k <= items.len(),
                    j == Json::Array(*items),
                    all == json::docs(items@),
                    head + item_pieces(all) == pieces_view(out@) + item_pieces(all.take(k as int)),
                decreases k,
            {
                assert(decreases_to!(j->Array_0@ => j->Array_0@[k - 1]));
                let ghost before = pieces_view(out@);
                add_value(&items[k - 1], out);
                proof {
                    let rest = all.take(k as int);
                    assert(rest.drop_last() =~= all.take(k - 1));
                    assert(rest[k - 1] == json::doc(items@[k - 1]));
                    assert(pieces_view(out@) + item_pieces(all.take(k - 1)) =~= before + item_pieces(
                        rest,
                    ));
                }
                k = k - 1;
            }
            proof {
                assert(item_pieces(all.take(0)) =~= Seq::empty());
                assert(pieces_view(out@) =~= start + pieces_of(json::doc(*j)));
            }
        },
        Json::Object(m) => {
            let ghost all = json::members(m@);
            let mut keys: Vec<String> = Vec::new();
            let mut i: usize = 0;
            while i < m.len()
                invariant
                    i <= m.len(),
                    all == json::members(m@),
                    text::texts(keys@) == keys_of(all.take(i as int)),
                decreases m.len() - i,
            {
                let ghost before = keys@;
                keys.push(m[i].0.clone());
                proof {
                    assert(text::texts(keys@) =~= text::texts(before).push(m@[i as int].0@));
                    assert(keys_of(all.take(i + 1)) =~= keys_of(all.take(i as int)).push(
                        all[i as int].0,
                    ));
                }
                i = i + 1;
            }
            let mut k: usize = m.len();
            assert(all.take(k as int) =~= all);
            add_piece(out, Piece::Object(keys));
            let ghost head = pieces_view(out@);
            proof {
                json::lemma_doc_object(*m);
            }
            while k > 0
                invariant
                    k <= m.len(),
                    j == Json::Object(*m),
                    all == json::members(m@),
                    head + member_pieces(all) == pieces_view(out@) + member_pieces(all.take(k as int)),
                decreases k,
            {
                assert(decreases_to!(j->Object_0@ => j->Object_0@[k - 1]));
                let ghost before = pieces_view(out@);
                add_value(&m[k - 1].1, out);
                proof {
                    let rest = all.take(k as int);
                    assert(rest.drop_last() =~= all.take(k - 1));
                    assert(rest[k - 1].1 == json::doc(m@[k - 1].1));
                    assert(pieces_view(out@) + member_pieces(all.take(k - 1)) =~= before + member_pieces(
                        rest,
                    ));
                }
                k = k - 1;
            }
            proof {
                assert(member_pieces(all.take(0)) =~= Seq::empty());
                assert(pieces_view(out@) =~= start + pieces_of(json::doc(*j)));
            }
        },
    }
}

fn add_piece(out: &mut Vec<Piece>, p: Piece)
    ensures
        pieces_view(final(out)@) == pieces_view(old(out)@) + pieces_view(seq![p]),
{
    let ghost before = out@;
    out.push(p);
    assert(pieces_view(out@) =~= pieces_view(before) + pieces_view(seq![p]));
}

/// What is written for a document.
fn pieces(j: &Json) -> (r: Vec<Piece>)
    ensures
        pieces_view(r@) == pieces_of(json::doc(*j)),
{
    let mut out: Vec<Piece> = Vec::new();
    add_value(j, &mut out);
    assert(pieces_view(out@) =~= pieces_of(json::doc(*j)));
    out
}

/// A document as JSON text over several lines, each level indented by four
/// spaces.
pub fn pretty_json(d: &Json) -> (r: Vec<u8>)
    ensures
        r@ == indented_json(json::doc(*d), seq![32u8, 32u8, 32u8, 32u8]),
{
    let indent: Vec<u8> = vec![32, 32, 32, 32];
    assert(indent@ =~= seq![32u8, 32u8, 32u8, 32u8]);
    write_json(pieces(d), indent.as_slice())
}

/// A document as YAML text.
pub fn yaml_text(d: &Json) -> (r: Result<String, String>)
    ensures
        written_yaml(json::doc(*d)) == (match r {
            Ok(t) => Ok::<Seq<char>, Seq<char>>(t@),
            Err(e) => Err(e@),
        }),
{
    write_yaml(pieces(d))
}

} // verus!
