//! Rules applied to JSON and YAML documents.
use vstd::prelude::*;
use crate::codec;
use crate::error::{AppError, AppResult};
use crate::json;
use crate::json::{Doc, Json, PathFault};
use crate::models::configuration::{PatternConfig, PatternReplace, ReplaceValue};
use crate::numbers;
use crate::parser::template;
use crate::parser::template::TemplatableConfig;
use crate::pattern;
use crate::text;

verus! {

/// A path that ends in, or leads through, one element of an array.
pub const ARRAY_ELEMENT: &'static str = r"^([^\[\]]+)\[([\d]+)](\..+)?$";

/// A value that could not be set, and the path it was to be set at.
#[derive(Debug)]
pub struct SetError {
    pub fault: PathFault,
    pub path: String,
}

// ---------------------------------------------------------------------------
// Definitions
// ---------------------------------------------------------------------------
/// What went wrong, in words.
pub open spec fn fault_text(fault: PathFault, path: Seq<char>) -> Seq<char> {
    match fault {
        PathFault::InvalidIndex => "invalid array index in path: "@ + path,
        PathFault::OutOfBounds(i) => "array index "@ + numbers::decimal(i as nat)
            + " out of bounds while setting path: "@ + path,
        PathFault::ThroughScalar => "cannot set path through scalar value: "@ + path,
        PathFault::ArrayElement => "error while parsing array element at path: "@ + path,
        PathFault::MissingElement => "failed to find array element at path: "@ + path,
    }
}

/// The array that `name[index]` addresses, given what is at `name`: the array
/// there, or a new one of a single element where there is none yet.
pub open spec fn base_items(here: Option<Doc>, index: int, nested: bool) -> Result<
    Seq<Doc>,
    PathFault,
> {
    let missing = match here {
        None => true,
        Some(Doc::Null) => true,
        Some(Doc::Array(items)) => items.len() == 0,
        Some(_) => false,
    };
    if missing {
        if index != 0 {
            Err(PathFault::ArrayElement)
        } else if nested {
            Ok(seq![Doc::Object(Seq::empty())])
        } else {
            Ok(seq![Doc::Null])
        }
    } else {
        match here {
            Some(Doc::Array(items)) => Ok(items),
            _ => Err(PathFault::ArrayElement),
        }
    }
}

/// The document with one element of an array set, or something inside it.
/// `path` is the whole path, for the error alone.
pub open spec fn set_element_doc(
    t: Doc,
    path: Seq<char>,
    base: Seq<char>,
    index: int,
    trailing: Option<Seq<char>>,
    v: Doc,
) -> Result<Doc, (PathFault, Seq<char>)> {
    let segs = json::segments(base);
    match base_items(json::get_path(t, segs), index, trailing is Some) {
        Err(e) => Err((e, path)),
        Ok(items) => if index >= items.len() {
            Err((PathFault::MissingElement, path))
        } else {
            let inner = match trailing {
                Some(tr) => text::trim_start_of(tr, '.'),
                None => Seq::empty(),
            };
            match json::put_path(items[index], json::segments(inner), v) {
                Err(e) => Err((e, inner)),
                Ok(c) => match json::put_path(t, segs, Doc::Array(items.update(index, c))) {
                    Ok(d) => Ok(d),
                    Err(e) => Err((e, base)),
                },
            }
        },
    }
}

/// The index written in `name[index]`; a number too large to be one counts
/// as zero.
pub open spec fn written_index(s: Seq<char>) -> int {
    match numbers::parse_unsigned(s, usize::MAX as int) {
        Some(i) => i,
        None => 0,
    }
}

/// The third group of an array path: what follows the brackets.
pub open spec fn trailing_group(g: Seq<Option<Seq<char>>>) -> Option<Seq<char>> {
    if 3 < g.len() {
        g[3]
    } else {
        None
    }
}

/// The document with the value at a path set.
pub open spec fn set_value_doc(t: Doc, path: Seq<char>, v: Doc) -> Result<
    Doc,
    (PathFault, Seq<char>),
> {
    let p = ARRAY_ELEMENT@;
    if pattern::compiles(p) && pattern::groups(p, path) is Some {
        let g = pattern::groups(p, path)->0;
        set_element_doc(
            t,
            path,
            template::group(g, 1),
            written_index(template::group(g, 2)),
            trailing_group(g),
            v,
        )
    } else {
        match json::put_path(t, json::segments(path), v) {
            Ok(d) => Ok(d),
            Err(e) => Err((e, path)),
        }
    }
}

/// A value as the text that a `regex:` condition is held against.
pub open spec fn scalar_text(d: Doc) -> Seq<char> {
    match d {
        Doc::Str(s) => s,
        _ => json::compact(d),
    }
}

/// The document after a rule with a condition. A `regex:` condition asks for a
/// present value that it matches, and substitutes inside that value; any other
/// condition is held against the whole document, and only where the path
/// exists.
pub open spec fn set_replacement_doc(
    t: Doc,
    if_value: Seq<char>,
    path: Seq<char>,
    value: Seq<char>,
    typed: Doc,
) -> Result<Doc, (PathFault, Seq<char>)> {
    let here = json::get_path(t, json::segments(path));
    let tag = "regex:"@;
    if if_value.len() == 0 {
        set_value_doc(t, path, typed)
    } else if tag.is_prefix_of(if_value) {
        let p = if_value.skip(tag.len() as int);
        match here {
            None => Ok(t),
            Some(cur) => if pattern::compiles(p) && pattern::matches(p, scalar_text(cur)) {
                set_value_doc(
                    t,
                    path,
                    Doc::Str(pattern::substituted(p, scalar_text(cur), value)),
                )
            } else {
                Ok(t)
            },
        }
    } else if here is Some && json::compact(t) != if_value {
        Ok(t)
    } else {
        set_value_doc(t, path, typed)
    }
}

/// The value a rule sets, typed: a boolean stays one, text that is an integer
/// becomes a number, everything else is text.
pub open spec fn typed_doc(value: ReplaceValue, resolved: Seq<char>) -> Doc {
    match value {
        ReplaceValue::Bool(b) => Doc::Bool(b),
        _ => match numbers::parse_signed(resolved) {
            Some(i) => Doc::Number(numbers::decimal_int(i)),
            None => Doc::Str(resolved),
        },
    }
}

/// One child of a wildcard: set where that is possible; null children and
/// failures are passed over.
pub open spec fn child_doc(c: Doc, suffix: Seq<char>, v: Doc) -> Doc {
    if c is Null {
        c
    } else {
        match set_value_doc(c, suffix, v) {
            Ok(d) => d,
            Err(_) => c,
        }
    }
}

/// A container with every child set.
pub open spec fn children_doc(t: Doc, suffix: Seq<char>, v: Doc) -> Doc {
    match t {
        Doc::Array(items) => Doc::Array(
            Seq::new(items.len(), |i: int| child_doc(items[i], suffix, v)),
        ),
        Doc::Object(m) => Doc::Object(
            Seq::new(m.len(), |i: int| (m[i].0, child_doc(m[i].1, suffix, v))),
        ),
        _ => t,
    }
}

/// The document with every child below a prefix set.
pub open spec fn wildcard_doc(t: Doc, segs: Seq<Seq<char>>, suffix: Seq<char>, v: Doc) -> Doc
    decreases segs.len(),
{
    if segs.len() == 0 {
        children_doc(t, suffix, v)
    } else {
        match t {
            Doc::Object(m) => {
                let i = json::rank(m, segs[0]);
                if i < m.len() && m[i].0 == segs[0] {
                    Doc::Object(
                        m.update(i, (m[i].0, wildcard_doc(m[i].1, segs.skip(1), suffix, v))),
                    )
                } else {
                    t
                }
            },
            Doc::Array(items) => match json::element_index(segs[0], items.len()) {
                Ok(i) => Doc::Array(
                    items.update(i, wildcard_doc(items[i], segs.skip(1), suffix, v)),
                ),
                Err(_) => t,
            },
            _ => t,
        }
    }
}

/// The document after one rule.
pub open spec fn rule_doc(t: Doc, rule: PatternReplace, interface: Seq<char>) -> Result<
    Doc,
    (PathFault, Seq<char>),
> {
    let value = template::lookup(rule.replace_with, interface);
    let typed = typed_doc(rule.replace_with, value);
    let path = rule.match_@;
    let star = text::find(path, ".*"@);
    if star >= 0 {
        let prefix = text::trim_end_of(text::trim_start_of(path.take(star), '.'), '.');
        let suffix = text::trim_end_of(text::trim_start_of(path.skip(star + 2), '.'), '.');
        Ok(wildcard_doc(t, json::segments(prefix), suffix, typed))
    } else {
        set_replacement_doc(t, rule.if_value@, path, value, typed)
    }
}

/// The document after all rules in order, or the rule that failed.
pub open spec fn rules_doc(t: Doc, rules: Seq<PatternReplace>, interface: Seq<char>) -> Result<
    Doc,
    (Seq<char>, PathFault, Seq<char>),
>
    decreases rules.len(),
{
    if rules.len() == 0 {
        Ok(t)
    } else {
        match rule_doc(t, rules[0], interface) {
            Ok(d) => rules_doc(d, rules.skip(1), interface),
            Err(e) => Err((rules[0].match_@, e.0, e.1)),
        }
    }
}

/// The message for a rule that failed.
pub open spec fn rule_failure(e: (Seq<char>, PathFault, Seq<char>)) -> Seq<char> {
    "unable to set config value at pathway: "@ + e.0 + " (bad request: "@ + fault_text(e.1, e.2)
        + ")"@
}

// ---------------------------------------------------------------------------
// Executable operations
// ---------------------------------------------------------------------------
impl SetError {
    /// What went wrong, in words.
    pub fn message(&self) -> (r: String)
        ensures
            r@ == fault_text(self.fault, self.path@),
    {
        let p = self.path.as_str();
        match self.fault {
            PathFault::InvalidIndex => text::cat("invalid array index in path: ", p),
            PathFault::OutOfBounds(i) => {
                let mut out = "array index ".to_owned();
                let n = numbers::decimal_u64(i as u64);
                out.append(n.as_str());
                out.append(" out of bounds while setting path: ");
                out.append(p);
                out
            },
            PathFault::ThroughScalar => text::cat("cannot set path through scalar value: ", p),
            PathFault::ArrayElement => text::cat("error while parsing array element at path: ", p),
            PathFault::MissingElement => text::cat("failed to find array element at path: ", p),
        }
    }
}

/// The result of setting a value: the new document, or the failure and the
/// document as it was.
pub open spec fn outcome(
    want: Result<Doc, (PathFault, Seq<char>)>,
    before: Doc,
    after: Doc,
    r: Result<(), SetError>,
) -> bool {
    match r {
        Ok(_) => want == Ok::<Doc, (PathFault, Seq<char>)>(after),
        Err(e) => want == Err::<Doc, (PathFault, Seq<char>)>((e.fault, e.path@)) && after == before,
    }
}

/// Sets one element of an array, or something inside it.
pub fn set_element(
    root: &mut Json,
    path: &str,
    base: &str,
    index: usize,
    trailing: Option<String>,
    value: Json,
) -> (r: Result<(), SetError>)
    ensures
        outcome(
            set_element_doc(
                json::doc(*old(root)),
                path@,
                base@,
                index as int,
                (match trailing {
                    Some(s) => Some(s@),
                    None => None,
                }),
                json::doc(value),
            ),
            json::doc(*old(root)),
            json::doc(*final(root)),
            r,
        ),
{
    let mut items: Vec<Json> = Vec::new();
    let mut missing = false;
    match root.get_at_path(base) {
        None => {
            missing = true;
        },
        Some(Json::Null) => {
            missing = true;
        },
        Some(Json::Array(a)) => {
            proof {
                json::lemma_doc_array(*a);
            }
            if a.len() == 0 {
                missing = true;
            } else {
                items = copy_items(a);
            }
        },
        Some(_) => {
            return Err(SetError { fault: PathFault::ArrayElement, path: path.to_owned() });
        },
    }
    if missing {
        if index != 0 {
            return Err(SetError { fault: PathFault::ArrayElement, path: path.to_owned() });
        }
        items = Vec::new();
        if trailing.is_some() {
            let fresh = Json::Object(Vec::new());
            proof {
                json::lemma_doc_object(fresh->Object_0);
                assert(json::members(fresh->Object_0@) =~= Seq::empty());
            }
            items.push(fresh);
            assert(json::docs(items@) =~= seq![Doc::Object(Seq::empty())]);
        } else {
            items.push(Json::Null);
            assert(json::docs(items@) =~= seq![Doc::Null]);
        }
    }
    if index >= items.len() {
        return Err(SetError { fault: PathFault::MissingElement, path: path.to_owned() });
    }
    let inner = match trailing {
        Some(t) => text::trimmed_start_of(t.as_str(), '.'),
        None => String::new(),
    };
    let ghost before = json::docs(items@);
    match items[index].set_p(inner.as_str(), value) {
        Err(fault) => {
            return Err(SetError { fault, path: inner });
        },
        Ok(_) => {},
    }
    assert(json::docs(items@) =~= before.update(index as int, json::doc(items@[index as int])));
    let array = Json::Array(items);
    proof {
        json::lemma_doc_array(items);
    }
    match root.set_p(base, array) {
        Err(fault) => Err(SetError { fault, path: base.to_owned() }),
        Ok(_) => Ok(()),
    }
}

fn copy_items(a: &Vec<Json>) -> (r: Vec<Json>)
    ensures
        json::docs(r@) == json::docs(a@),
{
    let mut out: Vec<Json> = Vec::new();
    let mut i: usize = 0;
    while i < a.len()
        invariant
            i <= a.len(),
            json::docs(out@) == json::docs(a@).take(i as int),
        decreases a.len() - i,
    {
        let ghost before = out@;
        let c = a[i].copy();
        out.push(c);
        assert(json::docs(out@) =~= json::docs(before).push(json::doc(c)));
        i = i + 1;
    }
    assert(json::docs(a@).take(i as int) =~= json::docs(a@));
    out
}

/// Sets the value at a path, which may address one element of an array
/// (`name[1]`, `name[0].rest`).
pub fn set_value_at_path(root: &mut Json, path: &str, value: Json) -> (r: Result<(), SetError>)
    ensures
        outcome(
            set_value_doc(json::doc(*old(root)), path@, json::doc(value)),
            json::doc(*old(root)),
            json::doc(*final(root)),
            r,
        ),
{
    if let Some(re) = pattern::compile(ARRAY_ELEMENT) {
        if let Some(g) = pattern::captures(&re, path) {
            let base = template::group_of(&g, 1);
            let digits = template::group_of(&g, 2);
            let index: usize = match numbers::read_usize(digits.as_str()) {
                Some(i) => i,
                None => 0,
            };
            let trailing: Option<String> = if 3 < g.len() {
                match &g[3] {
                    Some(t) => Some(t.clone()),
                    None => None,
                }
            } else {
                None
            };
            return set_element(root, path, base.as_str(), index, trailing, value);
        }
    }
    match root.set_p(path, value) {
        Ok(_) => Ok(()),
        Err(fault) => Err(SetError { fault, path: path.to_owned() }),
    }
}

/// A value as the text that a `regex:` condition is held against.
fn scalar_string(j: &Json) -> (r: String)
    ensures
        r@ == scalar_text(json::doc(*j)),
{
    match j {
        Json::Str(s) => s.clone(),
        other => other.compact_text(),
    }
}

/// Sets the value at a path if the rule's condition allows it.
pub fn set_replacement_at_path(
    root: &mut Json,
    if_value: &str,
    path: &str,
    value: &str,
    typed: Json,
) -> (r: Result<(), SetError>)
    ensures
        outcome(
            set_replacement_doc(
                json::doc(*old(root)),
                if_value@,
                path@,
                value@,
                json::doc(typed),
            ),
            json::doc(*old(root)),
            json::doc(*final(root)),
            r,
        ),
{
    if if_value.is_empty() {
        return set_value_at_path(root, path, typed);
    }
    if let Some(p) = text::strip_prefix(if_value, "regex:") {
        let current = match root.get_at_path(path) {
            Some(v) => scalar_string(v),
            None => {
                return Ok(());
            },
        };
        let re = match pattern::compile(p.as_str()) {
            Some(re) => re,
            None => {
                return Ok(());
            },
        };
        if pattern::is_match(&re, current.as_str()) {
            let replaced = pattern::replace_all(&re, current.as_str(), value);
            return set_value_at_path(root, path, Json::Str(replaced));
        }
        return Ok(());
    }
    if root.get_at_path(path).is_some() {
        let doc = root.compact_text();
        if !text::same(doc.as_str(), if_value) {
            return Ok(());
        }
    }
    set_value_at_path(root, path, typed)
}

/// The value a rule sets: as text, and typed.
pub fn resolved(replace: &PatternReplace, daemon: &TemplatableConfig) -> (r: (String, Json))
    ensures
        r.0@ == template::lookup(replace.replace_with, daemon.interface@),
        json::doc(r.1) == typed_doc(replace.replace_with, r.0@),
{
    let s = template::lookup_configuration_value(replace, daemon);
    let typed = match &replace.replace_with {
        ReplaceValue::Bool(b) => Json::Bool(*b),
        _ => match numbers::read_i64(s.as_str()) {
            Some(i) => Json::Number(numbers::decimal_i64(i)),
            None => Json::Str(s.clone()),
        },
    };
    (s, typed)
}

/// Sets one child of a wildcard.
fn set_child(child: &mut Json, suffix: &str, typed: &Json)
    ensures
        json::doc(*final(child)) == child_doc(json::doc(*old(child)), suffix@, json::doc(*typed)),
{
    if !matches!(*child, Json::Null) {
        let r = set_value_at_path(child, suffix, typed.copy());
    }
}

/// Sets every child of a container.
fn set_children(target: &mut Json, suffix: &str, typed: &Json)
    ensures
        json::doc(*final(target)) == children_doc(
            json::doc(*old(target)),
            suffix@,
            json::doc(*typed),
        ),
{
    let ghost v = json::doc(*typed);
    match target {
        Json::Array(items) => {
            let ghost d0 = json::docs(items@);
            proof {
                json::lemma_doc_array(*items);
            }
            let mut i: usize = 0;
            while i < items.len()
                invariant
                    i <= items.len(),
                    v == json::doc(*typed),
                    json::docs(items@).len() == d0.len(),
                    forall|k: int|
                        0 <= k < d0.len() ==> #[trigger] json::docs(items@)[k] == (if k < i {
                            child_doc(d0[k], suffix@, v)
                        } else {
                            d0[k]
                        }),
                decreases items.len() - i,
            {
                let ghost before = json::docs(items@);
                set_child(&mut items[i], suffix, typed);
                assert(json::docs(items@) =~= before.update(
                    i as int,
                    child_doc(before[i as int], suffix@, v),
                ));
                i = i + 1;
            }
            proof {
                json::lemma_doc_array(*items);
                assert(json::docs(items@) =~= Seq::new(
                    d0.len(),
                    |k: int| child_doc(d0[k], suffix@, v),
                ));
            }
        },
        Json::Object(m) => {
            let ghost d0 = json::members(m@);
            proof {
                json::lemma_doc_object(*m);
            }
            let mut i: usize = 0;
            while i < m.len()
                invariant
                    i <= m.len(),
                    v == json::doc(*typed),
                    json::members(m@).len() == d0.len(),
                    forall|k: int|
                        0 <= k < d0.len() ==> #[trigger] json::members(m@)[k] == (if k < i {
                            (d0[k].0, child_doc(d0[k].1, suffix@, v))
                        } else {
                            d0[k]
                        }),
                decreases m.len() - i,
            {
                let ghost before = json::members(m@);
                set_child(&mut m[i].1, suffix, typed);
                assert(json::members(m@) =~= before.update(
                    i as int,
                    (before[i as int].0, child_doc(before[i as int].1, suffix@, v)),
                ));
                i = i + 1;
            }
            proof {
                json::lemma_doc_object(*m);
                assert(json::members(m@) =~= Seq::new(
                    d0.len(),
                    |k: int| (d0[k].0, child_doc(d0[k].1, suffix@, v)),
                ));
            }
        },
        _ => {},
    }
}

/// Sets every child below the prefix that the segments from `i` on spell.
fn set_wildcard(target: &mut Json, segs: &Vec<String>, i: usize, suffix: &str, typed: &Json)
    requires
        i <= segs@.len(),
    ensures
        json::doc(*final(target)) == wildcard_doc(
            json::doc(*old(target)),
            text::texts(segs@).skip(i as int),
            suffix@,
            json::doc(*typed),
        ),
    decreases segs@.len() - i,
{
    if i == segs.len() {
        set_children(target, suffix, typed);
        return;
    }
    let seg = segs[i].as_str();
    assert(text::texts(segs@).skip(i as int)[0] == seg@);
    assert(text::texts(segs@).skip(i as int).skip(1) =~= text::texts(segs@).skip(i + 1));
    match target {
        Json::Object(m) => {
            let ghost d0 = json::members(m@);
            proof {
                json::lemma_doc_object(*m);
            }
            let (at, found) = json::place(m, seg);
            if found {
                set_wildcard(&mut m[at].1, segs, i + 1, suffix, typed);
                proof {
                    json::lemma_doc_object(*m);
                    assert(json::members(m@) =~= d0.update(
                        at as int,
                        (d0[at as int].0, json::doc(m@[at as int].1)),
                    ));
                }
            }
        },
        Json::Array(items) => {
            let ghost d0 = json::docs(items@);
            proof {
                json::lemma_doc_array(*items);
            }
            match json::element_at(seg, items.len()) {
                Ok(k) => {
                    set_wildcard(&mut items[k], segs, i + 1, suffix, typed);
                    proof {
                        json::lemma_doc_array(*items);
                        assert(json::docs(items@) =~= d0.update(
                            k as int,
                            json::doc(items@[k as int]),
                        ));
                    }
                },
                Err(_) => {},
            }
        },
        _ => {},
    }
}

/// Applies one rule.
fn apply_rule(root: &mut Json, replace: &PatternReplace, daemon: &TemplatableConfig) -> (r: Result<
    (),
    SetError,
>)
    ensures
        outcome(
            rule_doc(json::doc(*old(root)), *replace, daemon.interface@),
            json::doc(*old(root)),
            json::doc(*final(root)),
            r,
        ),
{
    let (value, typed) = resolved(replace, daemon);
    let path = text::chars_of(replace.match_.as_str());
    let star = text::chars_of(".*");
    proof {
        reveal_strlit(".*");
        assert(star@.len() == 2);
        assert(path.len() == path@.len());
    }
    match text::position_of(path.as_slice(), star.as_slice()) {
        Some(at) => {
            let head = text::slice_of(path.as_slice(), 0, at);
            let tail = text::slice_of(path.as_slice(), at + 2, path.len());
            assert(head@ =~= path@.take(at as int));
            assert(tail@ =~= path@.skip(at + 2));
            let head = text::string_of(head.as_slice());
            let tail = text::string_of(tail.as_slice());
            let prefix = text::trimmed_of(head.as_str(), '.');
            let suffix = text::trimmed_of(tail.as_str(), '.');
            let segs = json::path_segments(prefix.as_str());
            assert(text::texts(segs@).skip(0) =~= text::texts(segs@));
            set_wildcard(root, &segs, 0, suffix.as_str(), &typed);
            Ok(())
        },
        None => set_replacement_at_path(
            root,
            replace.if_value.as_str(),
            replace.match_.as_str(),
            value.as_str(),
            typed,
        ),
    }
}

/// Applies every rule to a document. A rule that cannot be applied stops the
/// rewrite.
#[verifier::rlimit(40)]
pub fn iterate_over_json(root: &mut Json, file: &PatternConfig, daemon: &TemplatableConfig) -> (r:
    AppResult<()>)
    ensures
        match rules_doc(json::doc(*old(root)), file.replace@, daemon.interface@) {
            Ok(d) => r is Ok && json::doc(*final(root)) == d,
            Err(e) => r is Err && crate::error::is_bad_request(r->Err_0, rule_failure(e)),
        },
{
    let mut i: usize = 0;
    assert(file.replace@.skip(0) =~= file.replace@);
    while i < file.replace.len()
        invariant
            i <= file.replace.len(),
            rules_doc(json::doc(*old(root)), file.replace@, daemon.interface@) == rules_doc(
                json::doc(*root),
                file.replace@.skip(i as int),
                daemon.interface@,
            ),
        decreases file.replace.len() - i,
    {
        let rule = &file.replace[i];
        assert(file.replace@.skip(i as int)[0] == *rule);
        assert(file.replace@.skip(i as int).skip(1) =~= file.replace@.skip(i + 1));
        match apply_rule(root, rule, daemon) {
            Ok(_) => {},
            Err(e) => {
                let mut m = "unable to set config value at pathway: ".to_owned();
                m.append(rule.match_.as_str());
                m.append(" (bad request: ");
                let f = e.message();
                m.append(f.as_str());
                m.append(")");
                return Err(AppError::BadRequest(m));
            },
        }
        i = i + 1;
    }
    Ok(())
}

/// What becomes of a document after the rules: its text, or the message with
/// which the file is refused.
pub open spec fn rewritten<T>(
    parsed: Result<Doc, Seq<char>>,
    rules: Seq<PatternReplace>,
    interface: Seq<char>,
    kind: Seq<char>,
    written: spec_fn(Doc) -> Result<T, Seq<char>>,
) -> Result<T, Seq<char>> {
    match parsed {
        Err(e) => Err("parser: invalid "@ + kind + " config: "@ + e),
        Ok(d) => match rules_doc(d, rules, interface) {
            Err(f) => Err(rule_failure(f)),
            Ok(after) => match written(after) {
                Ok(t) => Ok(t),
                Err(e) => Err("parser: cannot serialize "@ + kind + ": "@ + e),
            },
        },
    }
}

/// The new content of a JSON file.
pub open spec fn json_file(raw: Seq<u8>, rules: Seq<PatternReplace>, interface: Seq<char>) -> Result<
    Seq<u8>,
    Seq<char>,
> {
    rewritten(
        codec::parsed_json(raw),
        rules,
        interface,
        "json"@,
        |d: Doc| Ok(codec::indented_json(d, seq![32u8, 32u8, 32u8, 32u8])),
    )
}

/// The new content of a YAML file.
pub open spec fn yaml_file(raw: Seq<u8>, rules: Seq<PatternReplace>, interface: Seq<char>) -> Result<
    Seq<char>,
    Seq<char>,
> {
    rewritten(
        codec::parsed_yaml(raw),
        rules,
        interface,
        "yaml"@,
        |d: Doc| codec::written_yaml(d),
    )
}

fn invalid(kind: &str, reason: &str) -> (r: AppError)
    ensures
        crate::error::is_bad_request(r, "parser: invalid "@ + kind@ + " config: "@ + reason@),
{
    let mut m = "parser: invalid ".to_owned();
    m.append(kind);
    m.append(" config: ");
    m.append(reason);
    AppError::BadRequest(m)
}

fn unwritable(kind: &str, reason: &str) -> (r: AppError)
    ensures
        crate::error::is_bad_request(r, "parser: cannot serialize "@ + kind@ + ": "@ + reason@),
{
    let mut m = "parser: cannot serialize ".to_owned();
    m.append(kind);
    m.append(": ");
    m.append(reason);
    AppError::BadRequest(m)
}

/// Rewrites a JSON file: it is parsed, the rules are applied to the document,
/// and it is written again, indented by four spaces.
pub fn parse_json_file(raw: &[u8], config: &PatternConfig, daemon: &TemplatableConfig) -> (r:
    AppResult<Vec<u8>>)
    ensures
        match json_file(raw@, config.replace@, daemon.interface@) {
            Ok(b) => r is Ok && r->Ok_0@ == b,
            Err(m) => r is Err && crate::error::is_bad_request(r->Err_0, m),
        },
{
    let mut data = match codec::parse_json(raw) {
        Ok(d) => d,
        Err(e) => {
            return Err(invalid("json", e.as_str()));
        },
    };
    iterate_over_json(&mut data, config, daemon)?;
    Ok(codec::pretty_json(&data))
}

/// Rewrites a YAML file: it is parsed, the rules are applied to the document as
/// to one in JSON, and it is written again.
pub fn parse_yaml_file(raw: &[u8], config: &PatternConfig, daemon: &TemplatableConfig) -> (r:
    AppResult<String>)
    ensures
        match yaml_file(raw@, config.replace@, daemon.interface@) {
            Ok(t) => r is Ok && r->Ok_0@ == t,
            Err(m) => r is Err && crate::error::is_bad_request(r->Err_0, m),
        },
{
    let mut data = match codec::parse_yaml(raw) {
        Ok(d) => d,
        Err(e) => {
            return Err(invalid("yaml", e.as_str()));
        },
    };
    iterate_over_json(&mut data, config, daemon)?;
    match codec::yaml_text(&data) {
        Ok(t) => Ok(t),
        Err(e) => Err(unwritable("yaml", e.as_str())),
    }
}

// ---------------------------------------------------------------------------
// Laws
// ---------------------------------------------------------------------------
/// Setting `base[index]`, or something inside it, where `base` is an array that has
/// such an element: the value is there afterwards; whatever else the element holds
/// stays, and so do all other elements, their number, and all that is not `base`.
pub proof fn law_element_is_set(
    t: Doc,
    path: Seq<char>,
    g: Seq<Option<Seq<char>>>,
    base: Seq<char>,
    digits: Seq<char>,
    index: int,
    items: Seq<Doc>,
    p: Seq<Seq<char>>,
    v: Doc,
)
    requires
        pattern::compiles(r"^([^\[\]]+)\[([\d]+)](\..+)?$"@),
        pattern::groups(r"^([^\[\]]+)\[([\d]+)](\..+)?$"@, path) == Some(g),
        g.len() == 4 && g[1] == Some(base) && g[2] == Some(digits),
        numbers::parse_unsigned(digits, usize::MAX as int) == Some(index),
        match g[3] {
            Some(trailing) => p == json::segments(text::trim_start_of(trailing, '.')),
            None => p.len() == 0,
        },
        json::ordered(t),
        json::get_path(t, json::segments(base)) == Some(Doc::Array(items)),
        index < items.len(),
    ensures
        ({
            let segs = json::segments(base);
            let inside = segs + seq![digits];
            match set_value_doc(t, path, v) {
                Err(_) => json::put_path(items[index], p, v) is Err,
                Ok(d) => {
                    &&& match json::get_path(d, segs) {
                        Some(Doc::Array(after)) => {
                            &&& after.len() == items.len()
                            &&& forall|i: int|
                                0 <= i < items.len() && i != index ==> #[trigger] after[i]
                                    == items[i]
                            &&& forall|q: Seq<Seq<char>>|
                                !json::overlap(items[index], p, q) ==> #[trigger] json::get_path(
                                    after[index],
                                    q,
                                ) == json::get_path(items[index], q)
                        },
                        _ => false,
                    }
                    &&& json::get_path(d, inside + p) == Some(v)
                    &&& forall|q: Seq<Seq<char>>|
                        !json::overlap(items[index], p, q) ==> #[trigger] json::get_path(
                            d,
                            inside + q,
                        ) == json::get_path(t, inside + q)
                    &&& forall|q: Seq<Seq<char>>|
                        !json::overlap(t, segs, q) ==> #[trigger] json::get_path(d, q)
                            == json::get_path(t, q)
                },
            }
        }),
{
    let segs = json::segments(base);
    let inside = segs + seq![digits];
    numbers::lemma_parse_unsigned(digits, usize::MAX as int);
    assert(json::element_index(digits, items.len()) == Ok::<int, PathFault>(index));
    if g[3] is None {
        assert(p =~= json::segments(Seq::empty()));
    }
    json::lemma_get_path_ordered(t, segs);
    assert(json::ordered(items[index]));
    let c = json::put_path(items[index], p, v);
    assert(set_value_doc(t, path, v) == set_element_doc(t, path, base, index, g[3], v));
    if c is Ok {
        let after = items.update(index, c->Ok_0);
        json::law_put_get_path(items[index], p, v);
        json::law_present_values_can_be_set(t, segs, Doc::Array(after));
        json::law_put_get_path(t, segs, Doc::Array(after));
        let d = set_value_doc(t, path, v)->Ok_0;
        assert(json::get_path(d, segs) == Some(Doc::Array(after)));
        assert forall|q: Seq<Seq<char>>| #[trigger]
            json::get_path(d, inside + q) == json::get_path(after[index], q) && json::get_path(
                t,
                inside + q,
            ) == json::get_path(items[index], q) by {
            let tail = seq![digits] + q;
            assert(inside + q =~= segs + tail);
            json::law_paths_compose(d, segs, tail);
            json::law_paths_compose(t, segs, tail);
            assert(tail[0] == digits && tail.skip(1) =~= q);
            assert(json::element_index(digits, after.len()) == Ok::<int, PathFault>(index));
        }
        assert forall|q: Seq<Seq<char>>|
            !json::overlap(items[index], p, q) implies #[trigger] json::get_path(after[index], q)
            == json::get_path(items[index], q) by {
            json::law_put_leaves_others(items[index], p, v, q);
        }
        assert forall|q: Seq<Seq<char>>|
            !json::overlap(items[index], p, q) implies #[trigger] json::get_path(d, inside + q)
            == json::get_path(t, inside + q) by {
            assert(json::get_path(after[index], q) == json::get_path(items[index], q));
        }
        assert forall|q: Seq<Seq<char>>| !json::overlap(t, segs, q) implies #[trigger] json::get_path(
            d,
            q,
        ) == json::get_path(t, q) by {
            json::law_put_leaves_others(t, segs, Doc::Array(after), q);
        }
    }
}

/// Setting `base[0]`, or something inside it, where nothing is at `base` yet, makes an
/// array of one element with the value in it. No other element can be made, none
/// behind the end of an array, and none in what is no array.
pub proof fn law_missing_elements(
    t: Doc,
    path: Seq<char>,
    g: Seq<Option<Seq<char>>>,
    base: Seq<char>,
    digits: Seq<char>,
    index: int,
    v: Doc,
)
    requires
        pattern::compiles(r"^([^\[\]]+)\[([\d]+)](\..+)?$"@),
        pattern::groups(r"^([^\[\]]+)\[([\d]+)](\..+)?$"@, path) == Some(g),
        g.len() == 4 && g[1] == Some(base) && g[2] == Some(digits),
        numbers::parse_unsigned(digits, usize::MAX as int) == Some(index),
    ensures
        ({
            let here = json::get_path(t, json::segments(base));
            let p = match g[3] {
                Some(trailing) => json::segments(text::trim_start_of(trailing, '.')),
                None => Seq::empty(),
            };
            match here {
                Some(Doc::Array(items)) => items.len() > 0 && index >= items.len()
                    ==> set_value_doc(t, path, v) == Err::<Doc, (PathFault, Seq<char>)>(
                    (PathFault::MissingElement, path),
                ),
                Some(Doc::Null) | None => {
                    &&& index > 0 ==> set_value_doc(t, path, v) == Err::<
                        Doc,
                        (PathFault, Seq<char>),
                    >((PathFault::ArrayElement, path))
                    &&& index == 0 && here == Some(Doc::Null) ==> set_value_doc(t, path, v) is Ok
                    &&& index == 0 ==> (set_value_doc(t, path, v) matches Ok(d) ==> ({
                        &&& json::get_path(d, json::segments(base)) matches Some(Doc::Array(a))
                        &&& a.len() == 1
                        &&& json::get_path(a[0], p) == Some(v)
                        &&& p.len() > 0 ==> a[0] is Object && a[0]->Object_0.len() == 1
                    }))
                },
                Some(_) => set_value_doc(t, path, v) == Err::<Doc, (PathFault, Seq<char>)>(
                    (PathFault::ArrayElement, path),
                ),
            }
        }),
{
    numbers::lemma_parse_unsigned(digits, usize::MAX as int);
    assert(set_value_doc(t, path, v) == set_element_doc(t, path, base, index, g[3], v));
    let segs = json::segments(base);
    let here = json::get_path(t, segs);
    let p = match g[3] {
        Some(trailing) => json::segments(text::trim_start_of(trailing, '.')),
        None => Seq::empty(),
    };
    assert(json::segments(Seq::empty()) =~= Seq::empty());
    if index == 0 && (here is None || here == Some(Doc::Null)) {
        let fresh = if g[3] is Some {
            Doc::Object(Seq::empty())
        } else {
            Doc::Null
        };
        if p.len() > 0 {
            assert forall|k: int| 0 < k < p.len() implies !(#[trigger] json::get_path(
                fresh,
                p.take(k),
            ) matches Some(Doc::Array(_))) by {
                assert(json::lookup(Seq::empty(), p.take(k)[0]) is None);
            }
            json::law_paths_through_objects_can_be_set(fresh, p, v);
            assert(json::lookup(Seq::empty(), p[0]) is None);
        }
        assert(json::put_path(fresh, p, v) is Ok);
        json::law_put_get_path(fresh, p, v);
        let after = Doc::Array(seq![fresh].update(0, json::put_path(fresh, p, v)->Ok_0));
        if here is Some {
            json::law_present_values_can_be_set(t, segs, after);
        }
        if json::put_path(t, segs, after) is Ok {
            json::law_put_get_path(t, segs, after);
        }
    }
}

/// A path without an element in brackets is dotted: the value is read there
/// afterwards, and no path that does not overlap it has changed.
pub proof fn law_dotted_path_is_set(t: Doc, path: Seq<char>, v: Doc, q: Seq<Seq<char>>)
    requires
        pattern::groups(r"^([^\[\]]+)\[([\d]+)](\..+)?$"@, path) is None,
        json::ordered(t),
    ensures
        json::get_path(t, json::segments(path)) is Some ==> set_value_doc(t, path, v) is Ok,
        match set_value_doc(t, path, v) {
            Ok(d) => {
                &&& json::get_path(d, json::segments(path)) == Some(v)
                &&& !json::overlap(t, json::segments(path), q) ==> json::get_path(d, q)
                    == json::get_path(t, q)
            },
            Err(e) => e.1 == path,
        },
{
    let segs = json::segments(path);
    if json::get_path(t, segs) is Some {
        json::law_present_values_can_be_set(t, segs, v);
    }
    if json::put_path(t, segs, v) is Ok {
        json::law_put_get_path(t, segs, v);
        if !json::overlap(t, segs, q) {
            json::law_put_leaves_others(t, segs, v, q);
        }
    }
}

/// A boolean is set as one, text that is an integer as a number, other text as it is.
pub proof fn law_values_have_types(resolved: Seq<char>, s: String, b: bool, n: i64)
    ensures
        typed_doc(ReplaceValue::Bool(b), resolved) == Doc::Bool(b),
        typed_doc(ReplaceValue::Str(s), numbers::decimal_int(n as int)) == Doc::Number(
            numbers::decimal_int(n as int),
        ),
        typed_doc(ReplaceValue::Number(s), numbers::decimal_int(n as int)) == Doc::Number(
            numbers::decimal_int(n as int),
        ),
        numbers::parse_signed(resolved) is None ==> typed_doc(ReplaceValue::Str(s), resolved)
            == Doc::Str(resolved) && typed_doc(ReplaceValue::Null, resolved) == Doc::Str(resolved)
            && typed_doc(ReplaceValue::Number(s), resolved) == Doc::Str(resolved),
{
    numbers::law_signed_reads_back(n);
}

/// A rule without a condition and without a wildcard sets its value, typed, at its
/// path, whatever was there.
pub proof fn law_rule_sets_value(t: Doc, rule: PatternReplace, interface: Seq<char>)
    requires
        rule.if_value@.len() == 0,
        text::find(rule.match_@, ".*"@) < 0,
    ensures
        ({
            let value = template::lookup(rule.replace_with, interface);
            let typed = match rule.replace_with {
                ReplaceValue::Bool(b) => Doc::Bool(b),
                _ => match numbers::parse_signed(value) {
                    Some(i) => Doc::Number(numbers::decimal_int(i)),
                    None => Doc::Str(value),
                },
            };
            rule_doc(t, rule, interface) == set_value_doc(t, rule.match_@, typed)
        }),
{
}

/// A rule with a `regex:` condition leaves the document alone unless there is a value
/// at its path that the expression matches; then it substitutes inside that value.
pub proof fn law_regex_condition(
    t: Doc,
    rule: PatternReplace,
    expression: Seq<char>,
    interface: Seq<char>,
)
    requires
        rule.if_value@ == "regex:"@ + expression,
        text::find(rule.match_@, ".*"@) < 0,
    ensures
        match json::get_path(t, json::segments(rule.match_@)) {
            None => rule_doc(t, rule, interface) == Ok::<Doc, (PathFault, Seq<char>)>(t),
            Some(cur) => {
                let s = match cur {
                    Doc::Str(s) => s,
                    _ => json::compact(cur),
                };
                if pattern::compiles(expression) && pattern::matches(expression, s) {
                    rule_doc(t, rule, interface) == set_value_doc(
                        t,
                        rule.match_@,
                        Doc::Str(
                            pattern::substituted(
                                expression,
                                s,
                                template::lookup(rule.replace_with, interface),
                            ),
                        ),
                    )
                } else {
                    rule_doc(t, rule, interface) == Ok::<Doc, (PathFault, Seq<char>)>(t)
                }
            },
        },
{
    reveal_strlit("regex:");
    let tag = "regex:"@;
    assert(rule.if_value@.skip(tag.len() as int) =~= expression);
    assert(tag =~= rule.if_value@.subrange(0, tag.len() as int));
}

/// A rule with any other condition leaves a value that is there alone, unless the
/// document as a whole is the condition.
pub proof fn law_plain_condition(t: Doc, rule: PatternReplace, interface: Seq<char>)
    requires
        rule.if_value@.len() > 0,
        !("regex:"@).is_prefix_of(rule.if_value@),
        text::find(rule.match_@, ".*"@) < 0,
        json::get_path(t, json::segments(rule.match_@)) is Some,
        json::compact(t) != rule.if_value@,
    ensures
        rule_doc(t, rule, interface) == Ok::<Doc, (PathFault, Seq<char>)>(t),
{
}

/// A wildcard sets the value below every child of an array that is not null, where
/// it can be set, and changes nothing else of them.
pub proof fn law_wildcard_sets_elements(items: Seq<Doc>, suffix: Seq<char>, v: Doc)
    ensures
        match children_doc(Doc::Array(items), suffix, v) {
            Doc::Array(after) => {
                &&& after.len() == items.len()
                &&& forall|i: int|
                    0 <= i < items.len() ==> {
                        if items[i] is Null || set_value_doc(items[i], suffix, v) is Err {
                            (#[trigger] after[i]) == items[i]
                        } else {
                            set_value_doc(items[i], suffix, v) == Ok::<
                                Doc,
                                (PathFault, Seq<char>),
                            >(after[i])
                        }
                    }
            },
            _ => false,
        },
{
}

/// A wildcard sets the value below every member of an object that is not null, where
/// it can be set; keys stay, and so does their order.
pub proof fn law_wildcard_sets_members(m: Seq<(Seq<char>, Doc)>, suffix: Seq<char>, v: Doc)
    ensures
        match children_doc(Doc::Object(m), suffix, v) {
            Doc::Object(after) => {
                &&& after.len() == m.len()
                &&& forall|i: int|
                    0 <= i < m.len() ==> (#[trigger] after[i]).0 == m[i].0 && {
                        if m[i].1 is Null || set_value_doc(m[i].1, suffix, v) is Err {
                            after[i].1 == m[i].1
                        } else {
                            set_value_doc(m[i].1, suffix, v) == Ok::<Doc, (PathFault, Seq<char>)>(
                                after[i].1,
                            )
                        }
                    }
            },
            _ => false,
        },
{
}

/// A wildcard changes what is at its prefix, as its children are set, and nothing
/// else; without anything there it changes nothing.
pub proof fn law_wildcard_stays_below_its_prefix(
    t: Doc,
    segs: Seq<Seq<char>>,
    suffix: Seq<char>,
    v: Doc,
    q: Seq<Seq<char>>,
)
    requires
        json::ordered(t),
    ensures
        match json::get_path(t, segs) {
            None => wildcard_doc(t, segs, suffix, v) == t,
            Some(c) => json::get_path(wildcard_doc(t, segs, suffix, v), segs) == Some(
                children_doc(c, suffix, v),
            ),
        },
        !json::overlap(t, segs, q) ==> json::get_path(wildcard_doc(t, segs, suffix, v), q)
            == json::get_path(t, q),
    decreases segs.len(),
{
    if segs.len() > 0 {
        let k = segs[0];
        let rest = segs.skip(1);
        match t {
            Doc::Object(m) => {
                json::lemma_rank(m, k);
                let i = json::rank(m, k);
                if i < m.len() && m[i].0 == k {
                    let c = m[i].1;
                    assert(json::ordered(c));
                    let n = wildcard_doc(c, rest, suffix, v);
                    law_wildcard_stays_below_its_prefix(c, rest, suffix, v, q.skip(1));
                    let after = m.update(i, (k, n));
                    assert(after =~= json::put(m, k, n));
                    json::law_put_lookup(m, k, n);
                    if json::get_path(t, segs) is None {
                        assert(n == c);
                        assert(after =~= m);
                    }
                    if q.len() > 0 && q[0] != k {
                        json::law_put_others(m, k, n, q[0]);
                    }
                    if q.len() > 0 && q[0] == k && rest.len() > 0 {
                        if c is Object || c is Array {
                        } else {
                            assert(n == c);
                        }
                    }
                }
            },
            Doc::Array(items) => {
                if let Ok(i) = json::element_index(k, items.len()) {
                    numbers::lemma_parse_unsigned(k, usize::MAX as int);
                    let c = items[i];
                    assert(json::ordered(c));
                    let n = wildcard_doc(c, rest, suffix, v);
                    law_wildcard_stays_below_its_prefix(c, rest, suffix, v, q.skip(1));
                    if json::get_path(t, segs) is None {
                        assert(items.update(i, n) =~= items);
                    }
                    if q.len() > 0 {
                        numbers::lemma_parse_unsigned(q[0], usize::MAX as int);
                    }
                }
            },
            _ => {},
        }
    }
}

/// Rules apply in order, each to what those before it have left; the first that
/// fails is the one that is told.
pub proof fn law_rules_apply_in_order(
    t: Doc,
    a: Seq<PatternReplace>,
    b: Seq<PatternReplace>,
    interface: Seq<char>,
)
    ensures
        match rules_doc(t, a, interface) {
            Ok(d) => rules_doc(t, a + b, interface) == rules_doc(d, b, interface),
            Err(e) => rules_doc(t, a + b, interface) == Err::<
                Doc,
                (Seq<char>, PathFault, Seq<char>),
            >(e),
        },
        a.len() == 1 && rule_doc(t, a[0], interface) is Err ==> (rules_doc(t, a + b, interface)
            matches Err(e) && e.0 == a[0].match_@),
    decreases a.len(),
{
    if a.len() == 0 {
        assert(a + b =~= b);
    } else {
        assert((a + b)[0] == a[0]);
        assert((a + b).skip(1) =~= a.skip(1) + b);
        if let Ok(d) = rule_doc(t, a[0], interface) {
            law_rules_apply_in_order(d, a.skip(1), b, interface);
        }
    }
}

/// A file is read, changed by its rules and written again; whatever fails is told, and
/// nothing is written then.
pub proof fn law_files_are_rewritten(
    raw: Seq<u8>,
    rules: Seq<PatternReplace>,
    interface: Seq<char>,
    d: Doc,
    after: Doc,
    e: Seq<char>,
)
    ensures
        codec::parsed_json(raw) == Ok::<Doc, Seq<char>>(d) && rules_doc(d, rules, interface)
            == Ok::<Doc, (Seq<char>, PathFault, Seq<char>)>(after) ==> json_file(
            raw,
            rules,
            interface,
        ) == Ok::<Seq<u8>, Seq<char>>(
            codec::indented_json(after, seq![32u8, 32u8, 32u8, 32u8]),
        ),
        codec::parsed_json(raw) == Err::<Doc, Seq<char>>(e) ==> json_file(raw, rules, interface)
            == Err::<Seq<u8>, Seq<char>>("parser: invalid "@ + "json"@ + " config: "@ + e),
        codec::parsed_json(raw) == Ok::<Doc, Seq<char>>(d) && rules_doc(d, rules, interface) is Err
            ==> json_file(raw, rules, interface) is Err,
        codec::parsed_yaml(raw) == Ok::<Doc, Seq<char>>(d) && rules_doc(d, rules, interface)
            == Ok::<Doc, (Seq<char>, PathFault, Seq<char>)>(after) && codec::written_yaml(after)
            is Ok ==> yaml_file(raw, rules, interface) == codec::written_yaml(after),
        codec::parsed_yaml(raw) == Err::<Doc, Seq<char>>(e) ==> yaml_file(raw, rules, interface)
            == Err::<Seq<char>, Seq<char>>("parser: invalid "@ + "yaml"@ + " config: "@ + e),
        codec::parsed_yaml(raw) == Ok::<Doc, Seq<char>>(d) && rules_doc(d, rules, interface) is Err
            ==> yaml_file(raw, rules, interface) is Err,
{
}

/// A failure names the rule, and what was wrong where.
pub proof fn law_failures_are_told(rule: Seq<char>, path: Seq<char>, i: usize)
    ensures
        rule_failure((rule, PathFault::MissingElement, path))
            == "unable to set config value at pathway: "@ + rule + " (bad request: "@ + (
        "failed to find array element at path: "@ + path) + ")"@,
        fault_text(PathFault::InvalidIndex, path) == "invalid array index in path: "@ + path,
        fault_text(PathFault::OutOfBounds(i), path) == "array index "@ + numbers::decimal(i as nat)
            + " out of bounds while setting path: "@ + path,
        fault_text(PathFault::ThroughScalar, path) == "cannot set path through scalar value: "@
            + path,
        fault_text(PathFault::ArrayElement, path) == "error while parsing array element at path: "@
            + path,
{
}

/// A rule with a wildcard sets its value below every child of what stands before it, at
/// the path that stands behind it.
pub proof fn law_wildcard_rules(
    t: Doc,
    rule: PatternReplace,
    prefix: Seq<char>,
    suffix: Seq<char>,
    interface: Seq<char>,
)
    requires
        rule.match_@ == prefix + ".*"@ + (seq!['.'] + suffix),
        forall|i: int| 0 <= i < prefix.len() ==> #[trigger] prefix[i] != '*',
        prefix.len() > 0 && prefix[0] != '.' && prefix.last() != '.',
        suffix.len() > 0 && suffix[0] != '.' && suffix.last() != '.',
    ensures
        ({
            let value = template::lookup(rule.replace_with, interface);
            let typed = match rule.replace_with {
                ReplaceValue::Bool(b) => Doc::Bool(b),
                _ => match numbers::parse_signed(value) {
                    Some(i) => Doc::Number(numbers::decimal_int(i)),
                    None => Doc::Str(value),
                },
            };
            rule_doc(t, rule, interface) == Ok::<Doc, (PathFault, Seq<char>)>(
                wildcard_doc(t, json::segments(prefix), suffix, typed),
            )
        }),
{
    let star = ".*"@;
    reveal_strlit(".*");
    let path = rule.match_@;
    let tail = seq!['.'] + suffix;
    assert forall|i: int| 0 <= i < prefix.len() implies !star.is_prefix_of(
        #[trigger] path.skip(i),
    ) by {
        if star.is_prefix_of(path.skip(i)) {
            assert(star[1] == path.skip(i).subrange(0, 2)[1]);
            assert(path[i + 1] == '*');
            if i + 1 < prefix.len() {
                assert(path[i + 1] == prefix[i + 1]);
            } else {
                assert(path[i + 1] == star[0]);
            }
        }
    }
    let n = prefix.len() as int;
    assert(path.skip(n) =~= star + tail);
    assert(star =~= (star + tail).subrange(0, 2));
    text::law_find_first(path, star, n);
    assert(path.take(n) =~= prefix);
    assert(path.skip(n + 2) =~= tail);
    assert(text::trim_start_of(prefix, '.') == prefix);
    assert(text::trim_end_of(prefix, '.') == prefix);
    assert(tail.skip(1) =~= suffix);
    assert(text::trim_start_of(suffix, '.') == suffix);
    assert(text::trim_start_of(tail, '.') == text::trim_start_of(suffix, '.'));
    assert(text::trim_end_of(suffix, '.') == suffix);
}

/// A value that cannot be set leaves the document as it was, and it is told why.
pub proof fn law_failures_change_nothing(
    want: Result<Doc, (PathFault, Seq<char>)>,
    before: Doc,
    after: Doc,
    r: Result<(), SetError>,
)
    requires
        outcome(want, before, after, r),
    ensures
        want matches Ok(d) ==> r is Ok && after == d,
        want matches Err(e) ==> after == before && (r matches Err(f) && f.fault == e.0 && f.path@
            == e.1),
{
}

} // verus!
