//! XML files.
use vstd::multiset::Multiset;
use vstd::prelude::*;
use xmltree::{Element, XMLNode};
use crate::error::{AppError, AppResult};
use crate::models::configuration::{PatternConfig, PatternReplace};
use crate::parser::properties;
use crate::parser::template;
use crate::parser::template::TemplatableConfig;
use crate::pattern;
use crate::text;

verus! {

/// A value that names an attribute: `[name='value']`.
pub const XML_VALUE: &'static str = r"^\[([\w]+)='(.*)'\]$";

/// An element: its name, its attributes, what stands inside it.
#[derive(Debug, PartialEq)]
pub struct XmlElement {
    pub name: String,
    pub attributes: Vec<(String, String)>,
    pub children: Vec<XmlNode>,
}

/// One thing inside an element.
#[derive(Debug, PartialEq)]
pub enum XmlNode {
    Element(XmlElement),
    Text(String),
    CData(String),
    Comment(String),
    Instruction,
}

/// One line of a listing: how deep it stands, and what it is.
#[derive(Debug)]
pub struct XmlToken {
    pub depth: usize,
    pub kind: XmlKind,
}

/// What stands in a listing.
#[derive(Debug)]
pub enum XmlKind {
    Element(String, Vec<(String, String)>),
    Text(String),
    CData(String),
    Comment(String),
    Instruction,
}

/// The mathematical counterpart of [`XmlElement`].
pub struct Elem {
    pub name: Seq<char>,
    pub attributes: Seq<(Seq<char>, Seq<char>)>,
    pub children: Seq<Node>,
}

/// The mathematical counterpart of [`XmlNode`].
pub enum Node {
    Element(Elem),
    Text(Seq<char>),
    CData(Seq<char>),
    Comment(Seq<char>),
    Instruction,
}

// ---------------------------------------------------------------------------
// Definitions
// ---------------------------------------------------------------------------
/// The element that a tree holds.
pub open spec fn elem(e: XmlElement) -> Elem
    decreases e,
{
    Elem {
        name: e.name@,
        attributes: text::pairs(e.attributes@),
        children: Seq::new(
            e.children@.len(),
            |i: int|
                if 0 <= i < e.children@.len() {
                    node(e.children@[i])
                } else {
                    Node::Text(Seq::empty())
                },
        ),
    }
}

/// The node that a tree holds.
pub open spec fn node(n: XmlNode) -> Node
    decreases n,
{
    match n {
        XmlNode::Element(e) => Node::Element(elem(e)),
        XmlNode::Text(s) => Node::Text(s@),
        XmlNode::CData(s) => Node::CData(s@),
        XmlNode::Comment(s) => Node::Comment(s@),
        XmlNode::Instruction => Node::Instruction,
    }
}

/// The nodes that a list of trees holds.
pub open spec fn nodes(v: Seq<XmlNode>) -> Seq<Node> {
    Seq::new(v.len(), |i: int| node(v[i]))
}

/// The root of a document that may have none.
pub open spec fn root_of(parsed: Option<XmlElement>) -> Option<Elem> {
    match parsed {
        Some(e) => Some(elem(e)),
        None => None,
    }
}

/// An element with nothing in it.
pub open spec fn empty_elem(name: Seq<char>) -> Elem {
    Elem { name, attributes: Seq::empty(), children: Seq::empty() }
}

/// Position of the first child element with this name; the length when there
/// is none.
pub open spec fn child_index(c: Seq<Node>, tag: Seq<char>) -> int
    decreases c.len(),
{
    if c.len() == 0 || (c[0] matches Node::Element(e) && e.name == tag) {
        0
    } else {
        1 + child_index(c.skip(1), tag)
    }
}

/// The element with the path below it created where it is missing.
pub open spec fn ensure_path(e: Elem, tags: Seq<Seq<char>>) -> Elem
    decreases tags.len(),
{
    if tags.len() == 0 {
        e
    } else {
        let i = child_index(e.children, tags[0]);
        if i < e.children.len() {
            let c = ensure_path(e.children[i]->Element_0, tags.skip(1));
            Elem { children: e.children.update(i, Node::Element(c)), ..e }
        } else {
            let c = ensure_path(empty_elem(tags[0]), tags.skip(1));
            Elem { children: e.children.push(Node::Element(c)), ..e }
        }
    }
}

/// Whether a step of a path leads to this node; `*` leads to every element.
pub open spec fn step_matches(n: Node, tag: Seq<char>) -> bool {
    n matches Node::Element(e) && (tag == "*"@ || e.name == tag)
}

/// The target of a rule after it: an attribute set where the value names one,
/// else the value as its only content.
pub open spec fn set_target(e: Elem, value: Seq<char>) -> Elem {
    let p = XML_VALUE@;
    if pattern::compiles(p) && pattern::groups(p, value) is Some {
        let g = pattern::groups(p, value)->0;
        Elem {
            attributes: properties::put(e.attributes, template::group(g, 1), template::group(g, 2)),
            ..e
        }
    } else {
        Elem { children: seq![Node::Text(value)], ..e }
    }
}

/// The element with every target below it set.
pub open spec fn set_targets(e: Elem, tags: Seq<Seq<char>>, value: Seq<char>) -> Elem
    decreases tags.len(),
{
    if tags.len() == 0 {
        set_target(e, value)
    } else {
        Elem {
            children: Seq::new(
                e.children.len(),
                |i: int|
                    if step_matches(e.children[i], tags[0]) {
                        Node::Element(set_targets(e.children[i]->Element_0, tags.skip(1), value))
                    } else {
                        e.children[i]
                    },
            ),
            ..e
        }
    }
}

/// Whether a path leads anywhere below an element.
pub open spec fn has_target(e: Elem, tags: Seq<Seq<char>>) -> bool
    decreases tags.len(),
{
    tags.len() == 0 || exists|i: int|
        0 <= i < e.children.len() && step_matches(#[trigger] e.children[i], tags[0]) && has_target(
            e.children[i]->Element_0,
            tags.skip(1),
        )
}

/// The root after one rule. Without a wildcard the path is created first.
pub open spec fn rule_elem(root: Elem, rule: PatternReplace, interface: Seq<char>) -> Elem {
    let segs = text::split_on(rule.match_@, '.');
    let value = template::lookup(rule.replace_with, interface);
    let made = if segs.contains("*"@) {
        root
    } else {
        ensure_path(root, segs.skip(1))
    };
    set_targets(made, segs.skip(1), value)
}

/// The root after all rules in order.
pub open spec fn rules_elem(root: Elem, rules: Seq<PatternReplace>, interface: Seq<char>) -> Elem
    decreases rules.len(),
{
    if rules.len() == 0 {
        root
    } else {
        rule_elem(rules_elem(root, rules.drop_last(), interface), rules.last(), interface)
    }
}

/// Text with the characters that are markup escaped.
pub open spec fn escaped_text(s: Seq<char>) -> Seq<char> {
    text::replaced(
        text::replaced(text::replaced(s, '&', "&amp;"@), '<', "&lt;"@),
        '>',
        "&gt;"@,
    )
}

/// An attribute's value, quotes escaped too.
pub open spec fn escaped_attr(s: Seq<char>) -> Seq<char> {
    text::replaced(escaped_text(s), '"', "&quot;"@)
}

/// Attributes as they are written.
pub open spec fn attrs_text(a: Seq<(Seq<char>, Seq<char>)>) -> Seq<char>
    decreases a.len(),
{
    if a.len() == 0 {
        Seq::empty()
    } else {
        attrs_text(a.drop_last()) + " "@ + a.last().0 + "=\""@ + escaped_attr(a.last().1) + "\""@
    }
}

/// The text and CDATA directly inside an element, in order.
pub open spec fn inner_text(c: Seq<Node>) -> Seq<char>
    decreases c.len(),
{
    if c.len() == 0 {
        Seq::empty()
    } else {
        inner_text(c.drop_last()) + (match c.last() {
            Node::Text(s) => s,
            Node::CData(s) => s,
            _ => Seq::empty(),
        })
    }
}

/// Whether an element stands directly inside.
pub open spec fn holds_elements(c: Seq<Node>) -> bool {
    exists|i: int| 0 <= i < c.len() && #[trigger] c[i] is Element
}

/// An element as it is written behind `pad`, two spaces more for every level:
/// closed at once when empty, on one line when it holds no element.
pub open spec fn elem_text(e: Elem, pad: Seq<char>) -> Seq<char>
    decreases e,
{
    let open = pad + "<"@ + e.name + attrs_text(e.attributes);
    let close = "</"@ + e.name + ">\n"@;
    if e.children.len() == 0 {
        open + "/>\n"@
    } else if !holds_elements(e.children) {
        open + ">"@ + escaped_text(inner_text(e.children)) + close
    } else {
        open + ">"@ + "\n"@ + children_text(e.children, pad + "  "@) + pad + close
    }
}

/// What stands inside an element that holds elements, line by line. Blank
/// text, CDATA and processing instructions are left out.
pub open spec fn children_text(c: Seq<Node>, pad: Seq<char>) -> Seq<char>
    decreases c,
{
    if c.len() == 0 {
        Seq::empty()
    } else {
        children_text(c.drop_last(), pad) + (match c[c.len() - 1] {
            Node::Element(e) => elem_text(e, pad),
            Node::Text(s) => if text::trim(s).len() > 0 {
                pad + escaped_text(s) + "\n"@
            } else {
                Seq::empty()
            },
            Node::Comment(s) => pad + "<!--"@ + s + "-->\n"@,
            _ => Seq::empty(),
        })
    }
}

/// The declaration that opens a document.
pub open spec fn prolog() -> Seq<char> {
    "<?xml version=\"1.0\" encoding=\"utf-8\"?>\n"@
}

/// The rewritten document. `parsed` is the root of the old one, if it could be
/// read; else the first step of the first rule names a new root.
pub open spec fn xml_text(
    had_prolog: bool,
    parsed: Option<Elem>,
    rules: Seq<PatternReplace>,
    interface: Seq<char>,
) -> Seq<char> {
    let root = match parsed {
        Some(e) => e,
        None => empty_elem(text::split_on(rules[0].match_@, '.')[0]),
    };
    (if had_prolog || parsed is None {
        prolog()
    } else {
        Seq::empty()
    }) + elem_text(rules_elem(root, rules, interface), Seq::empty())
}

/// A line of a listing: depth, kind (element, text, CDATA, comment,
/// instruction, counted from zero), name or content, attributes.
pub type Line = (nat, nat, Seq<char>, Seq<(Seq<char>, Seq<char>)>);

/// A line of a listing whose attributes have no order.
pub type LooseLine = (nat, nat, Seq<char>, Multiset<(Seq<char>, Seq<char>)>);

/// The line that a token stands for.
pub open spec fn line(t: XmlToken) -> Line {
    match t.kind {
        XmlKind::Element(name, attributes) => (
            t.depth as nat,
            0,
            name@,
            text::pairs(attributes@),
        ),
        XmlKind::Text(s) => (t.depth as nat, 1, s@, Seq::empty()),
        XmlKind::CData(s) => (t.depth as nat, 2, s@, Seq::empty()),
        XmlKind::Comment(s) => (t.depth as nat, 3, s@, Seq::empty()),
        XmlKind::Instruction => (t.depth as nat, 4, Seq::empty(), Seq::empty()),
    }
}

/// The listing that a list of tokens stands for.
pub open spec fn listing(v: Seq<XmlToken>) -> Seq<Line> {
    v.map_values(|t: XmlToken| line(t))
}

/// A listing without the order of attributes.
pub open spec fn loose(v: Seq<Line>) -> Seq<LooseLine> {
    v.map_values(|l: Line| (l.0, l.1, l.2, l.3.to_multiset()))
}

/// An element and all that stands in it, in document order.
pub open spec fn elem_lines(e: Elem, depth: nat) -> Seq<Line>
    decreases e,
{
    seq![(depth, 0nat, e.name, e.attributes)] + node_lines(e.children, depth + 1)
}

/// Nodes and all that stands in them, in document order.
pub open spec fn node_lines(c: Seq<Node>, depth: nat) -> Seq<Line>
    decreases c,
{
    if c.len() == 0 {
        Seq::empty()
    } else {
        node_lines(c.drop_last(), depth) + (match c[c.len() - 1] {
            Node::Element(e) => elem_lines(e, depth),
            Node::Text(s) => seq![(depth, 1nat, s, Seq::empty())],
            Node::CData(s) => seq![(depth, 2nat, s, Seq::empty())],
            Node::Comment(s) => seq![(depth, 3nat, s, Seq::empty())],
            Node::Instruction => seq![(depth, 4nat, Seq::empty(), Seq::empty())],
        })
    }
}

/// A listing nests: it starts with an element at depth zero, nothing else
/// stands there, and only the first thing inside an element is deeper than
/// what it follows, by one.
pub open spec fn nests(v: Seq<Line>) -> bool {
    &&& v.len() > 0
    &&& v[0].0 == 0
    &&& v[0].1 == 0
    &&& forall|i: int| 0 < i < v.len() ==> (#[trigger] v[i]).0 > 0 && follows(v, i)
}

pub open spec fn follows(v: Seq<Line>, i: int) -> bool {
    v[i].0 <= v[i - 1].0 + (if v[i - 1].1 == 0 {
        1nat
    } else {
        0
    })
}

/// What `xmltree::Element::parse` makes of the bytes: the listing of the root
/// element, attributes in no order, or the text of the error.
pub uninterp spec fn parsed_listing(raw: Seq<u8>) -> Result<Seq<LooseLine>, Seq<char>>;

/// Whether an attribute comes before another one, by its name and then its value.
pub open spec fn precedes(a: (Seq<char>, Seq<char>), b: (Seq<char>, Seq<char>)) -> bool {
    text::less(a.0, b.0) || (a.0 == b.0 && text::less(a.1, b.1))
}

/// Attributes stand in the order of their names.
pub open spec fn by_name(a: Seq<(Seq<char>, Seq<char>)>) -> bool {
    forall|i: int, j: int|
        0 <= i < j < a.len() ==> !precedes(#[trigger] a[j], #[trigger] a[i])
}

/// The attributes on every line stand in the order of their names.
pub open spec fn all_by_name(v: Seq<Line>) -> bool {
    forall|i: int| 0 <= i < v.len() ==> by_name((#[trigger] v[i]).3)
}

/// `root` is what the bytes parse to: nothing when they do not parse, and
/// otherwise the one element with their listing, attributes in the order of their
/// names.
pub open spec fn parses_to(raw: Seq<u8>, root: Option<Elem>) -> bool {
    match root {
        Some(e) => parsed_listing(raw) == Ok::<Seq<LooseLine>, Seq<char>>(
            loose(elem_lines(e, 0)),
        ) && all_by_name(elem_lines(e, 0)),
        None => parsed_listing(raw) is Err,
    }
}

/// Whether the bytes open with an XML declaration.
pub open spec fn has_prolog(raw: Seq<u8>) -> bool {
    seq![60u8, 63u8, 120u8, 109u8, 108u8].is_prefix_of(raw)
}

// ---------------------------------------------------------------------------
// Laws
// ---------------------------------------------------------------------------
proof fn lemma_child_index(c: Seq<Node>, tag: Seq<char>)
    ensures
        0 <= child_index(c, tag) <= c.len(),
        child_index(c, tag) < c.len() ==> (c[child_index(c, tag)] matches Node::Element(e) && e.name
            == tag),
    decreases c.len(),
{
    if !(c.len() == 0 || (c[0] matches Node::Element(e) && e.name == tag)) {
        lemma_child_index(c.skip(1), tag);
    }
}

/// What one node adds to a listing.
spec fn block(n: Node, depth: nat) -> Seq<Line> {
    match n {
        Node::Element(e) => elem_lines(e, depth),
        Node::Text(s) => seq![(depth, 1nat, s, Seq::empty())],
        Node::CData(s) => seq![(depth, 2nat, s, Seq::empty())],
        Node::Comment(s) => seq![(depth, 3nat, s, Seq::empty())],
        Node::Instruction => seq![(depth, 4nat, Seq::empty(), Seq::empty())],
    }
}

proof fn lemma_depths(c: Seq<Node>, depth: nat)
    ensures
        forall|i: int| 0 <= i < node_lines(c, depth).len() ==> (#[trigger] node_lines(c, depth)[i]).0
            >= depth,
    decreases c,
{
    if c.len() > 0 {
        let last = c[c.len() - 1];
        lemma_depths(c.drop_last(), depth);
        lemma_block(last, depth);
        assert(node_lines(c, depth) == node_lines(c.drop_last(), depth) + block(last, depth));
    }
}

proof fn lemma_block(n: Node, depth: nat)
    ensures
        block(n, depth).len() > 0,
        block(n, depth)[0].0 == depth,
        forall|i: int| 0 < i < block(n, depth).len() ==> (#[trigger] block(n, depth)[i]).0 > depth,
    decreases n,
{
    if let Node::Element(e) = n {
        lemma_depths(e.children, depth + 1);
        let inner = node_lines(e.children, depth + 1);
        assert(block(n, depth) == seq![(depth, 0nat, e.name, e.attributes)] + inner);
        assert forall|i: int| 0 < i < block(n, depth).len() implies (#[trigger] block(
            n,
            depth,
        )[i]).0 > depth by {
            assert(block(n, depth)[i] == inner[i - 1]);
        }
    }
}

proof fn lemma_lines_fix_nodes(a: Seq<Node>, b: Seq<Node>, depth: nat)
    requires
        node_lines(a, depth) == node_lines(b, depth),
    ensures
        a == b,
    decreases a,
{
    if a.len() == 0 {
        if b.len() > 0 {
            lemma_block(b[b.len() - 1], depth);
            assert(node_lines(b, depth) == node_lines(b.drop_last(), depth) + block(
                b[b.len() - 1],
                depth,
            ));
        }
        assert(a =~= b);
    } else {
        let (x, p) = (a[a.len() - 1], node_lines(a.drop_last(), depth));
        lemma_block(x, depth);
        assert(node_lines(a, depth) == p + block(x, depth));
        assert(b.len() > 0);
        let (y, q) = (b[b.len() - 1], node_lines(b.drop_last(), depth));
        lemma_block(y, depth);
        assert(node_lines(b, depth) == q + block(y, depth));
        let all = node_lines(a, depth);
        assert(all[p.len() as int] == block(x, depth)[0]);
        assert(all[q.len() as int] == block(y, depth)[0]);
        if p.len() < q.len() {
            assert(all[q.len() as int] == block(x, depth)[q.len() - p.len()]);
        } else if q.len() < p.len() {
            assert(all[p.len() as int] == block(y, depth)[p.len() - q.len()]);
        }
        assert(p =~= all.take(p.len() as int) && q =~= all.take(q.len() as int));
        assert(block(x, depth) =~= all.skip(p.len() as int));
        assert(block(y, depth) =~= all.skip(q.len() as int));
        lemma_lines_fix_nodes(a.drop_last(), b.drop_last(), depth);
        lemma_block_fixes_node(x, y, depth);
        assert(a =~= a.drop_last().push(x));
        assert(b =~= b.drop_last().push(y));
    }
}

proof fn lemma_block_fixes_node(x: Node, y: Node, depth: nat)
    requires
        block(x, depth) == block(y, depth),
    ensures
        x == y,
    decreases x,
{
    assert(block(x, depth)[0] == block(y, depth)[0]);
    if let Node::Element(e) = x {
        let f = y->Element_0;
        law_listing_fixes_element(e, f, depth);
    }
}

/// Two elements with one listing are the same element.
pub proof fn law_listing_fixes_element(a: Elem, b: Elem, depth: nat)
    requires
        elem_lines(a, depth) == elem_lines(b, depth),
    ensures
        a == b,
    decreases a,
{
    assert(elem_lines(a, depth)[0] == elem_lines(b, depth)[0]);
    let (p, q) = (node_lines(a.children, depth + 1), node_lines(b.children, depth + 1));
    assert(p =~= elem_lines(a, depth).skip(1));
    assert(q =~= elem_lines(b, depth).skip(1));
    lemma_lines_fix_nodes(a.children, b.children, depth + 1);
}

proof fn lemma_precedes(
    a: (Seq<char>, Seq<char>),
    b: (Seq<char>, Seq<char>),
    c: (Seq<char>, Seq<char>),
)
    ensures
        !precedes(a, a),
        a == b || precedes(a, b) || precedes(b, a),
        precedes(a, b) && precedes(b, c) ==> precedes(a, c),
{
    text::lemma_less_irreflexive(a.0);
    text::lemma_less_irreflexive(a.1);
    text::lemma_less_total(a.0, b.0);
    text::lemma_less_total(a.1, b.1);
    if text::less(a.0, b.0) && text::less(b.0, c.0) {
        text::lemma_less_transitive(a.0, b.0, c.0);
    }
    if text::less(a.1, b.1) && text::less(b.1, c.1) {
        text::lemma_less_transitive(a.1, b.1, c.1);
    }
}

proof fn lemma_order_fixes_attributes(
    a: Seq<(Seq<char>, Seq<char>)>,
    b: Seq<(Seq<char>, Seq<char>)>,
)
    requires
        by_name(a),
        by_name(b),
        a.to_multiset() == b.to_multiset(),
    ensures
        a == b,
{
    let leq = |x: (Seq<char>, Seq<char>), y: (Seq<char>, Seq<char>)| !precedes(y, x);
    assert forall|x: (Seq<char>, Seq<char>)| #[trigger] leq(x, x) by {
        lemma_precedes(x, x, x);
    }
    assert forall|x: (Seq<char>, Seq<char>), y: (Seq<char>, Seq<char>)| #[trigger]
        leq(x, y) && #[trigger] leq(y, x) implies x == y by {
        lemma_precedes(x, y, y);
    }
    assert forall|x: (Seq<char>, Seq<char>), y: (Seq<char>, Seq<char>)| #[trigger]
        leq(x, y) || #[trigger] leq(y, x) by {
        lemma_precedes(x, y, x);
        lemma_precedes(x, x, x);
    }
    assert forall|
        x: (Seq<char>, Seq<char>),
        y: (Seq<char>, Seq<char>),
        z: (Seq<char>, Seq<char>),
    | #[trigger]
        leq(x, y) && #[trigger] leq(y, z) implies leq(x, z) by {
        lemma_precedes(x, y, z);
        lemma_precedes(y, z, x);
        lemma_precedes(z, x, y);
    }
    vstd::seq_lib::lemma_sorted_unique(a, b, leq);
}

/// Bytes parse to one element at most.
pub proof fn law_parse_is_unique(raw: Seq<u8>, a: Option<Elem>, b: Option<Elem>)
    requires
        parses_to(raw, a),
        parses_to(raw, b),
    ensures
        a == b,
{
    if let (Some(x), Some(y)) = (a, b) {
        let (p, q) = (elem_lines(x, 0), elem_lines(y, 0));
        assert(loose(p) == loose(q));
        assert(p.len() == loose(p).len() && q.len() == loose(q).len());
        assert forall|i: int| 0 <= i < p.len() implies p[i] == q[i] by {
            assert(loose(p)[i] == loose(q)[i]);
            lemma_order_fixes_attributes(p[i].3, q[i].3);
        }
        assert(p =~= q);
        law_listing_fixes_element(x, y, 0);
    }
}

/// A created path leads somewhere.
pub proof fn law_ensured_path_has_target(e: Elem, tags: Seq<Seq<char>>)
    ensures
        has_target(ensure_path(e, tags), tags),
        ensure_path(e, tags).name == e.name,
    decreases tags.len(),
{
    if tags.len() > 0 {
        lemma_child_index(e.children, tags[0]);
        let i = child_index(e.children, tags[0]);
        let made = ensure_path(e, tags);
        if i < e.children.len() {
            law_ensured_path_has_target(e.children[i]->Element_0, tags.skip(1));
            assert(step_matches(made.children[i], tags[0]));
        } else {
            law_ensured_path_has_target(empty_elem(tags[0]), tags.skip(1));
            assert(step_matches(made.children[e.children.len() as int], tags[0]));
        }
    }
}

proof fn lemma_replaced_absent(s: Seq<char>, c: char, by: Seq<char>, d: char)
    requires
        forall|i: int| 0 <= i < by.len() ==> by[i] != d,
        c == d || forall|i: int| 0 <= i < s.len() ==> s[i] != d,
    ensures
        forall|i: int| 0 <= i < text::replaced(s, c, by).len() ==> text::replaced(s, c, by)[i] != d,
    decreases s.len(),
{
    if s.len() > 0 {
        lemma_replaced_absent(s.drop_last(), c, by, d);
        let head = text::replaced(s.drop_last(), c, by);
        let r = text::replaced(s, c, by);
        assert forall|i: int| 0 <= i < r.len() implies r[i] != d by {
            if i < head.len() {
                assert(r[i] == head[i]);
            }
        }
    }
}

/// Written text holds no markup.
pub proof fn law_escaped_text_has_no_markup(s: Seq<char>)
    ensures
        forall|i: int|
            0 <= i < escaped_text(s).len() ==> escaped_text(s)[i] != '<' && escaped_text(s)[i]
                != '>',
{
    reveal_strlit("&amp;");
    reveal_strlit("&lt;");
    reveal_strlit("&gt;");
    let a = text::replaced(s, '&', "&amp;"@);
    let b = text::replaced(a, '<', "&lt;"@);
    lemma_replaced_absent(a, '<', "&lt;"@, '<');
    lemma_replaced_absent(b, '>', "&gt;"@, '<');
    lemma_replaced_absent(b, '>', "&gt;"@, '>');
}

// ---------------------------------------------------------------------------
// Executable operations
// ---------------------------------------------------------------------------
proof fn lemma_elem(e: XmlElement)
    ensures
        elem(e).name == e.name@,
        elem(e).attributes == text::pairs(e.attributes@),
        elem(e).children == nodes(e.children@),
{
    assert(elem(e).children =~= nodes(e.children@));
}

/// Two elements with the same parts are the same.
proof fn lemma_elem_eq(a: Elem, b: Elem)
    requires
        a.name == b.name,
        a.attributes == b.attributes,
        a.children =~= b.children,
    ensures
        a == b,
{
}

fn new_element(name: &str) -> (r: XmlElement)
    ensures
        elem(r) == empty_elem(name@),
{
    let r = XmlElement { name: name.to_owned(), attributes: Vec::new(), children: Vec::new() };
    proof {
        lemma_elem(r);
        assert(text::pairs(r.attributes@) =~= Seq::empty());
        lemma_elem_eq(elem(r), empty_elem(name@));
    }
    r
}

/// Position of the first child element with this name.
fn find_child(c: &Vec<XmlNode>, tag: &str) -> (r: usize)
    ensures
        r == child_index(nodes(c@), tag@),
        r <= c@.len(),
{
    let ghost all = nodes(c@);
    let mut i: usize = 0;
    assert(all.skip(0) =~= all);
    while i < c.len()
        invariant
            i <= c.len(),
            all == nodes(c@),
            child_index(all, tag@) == i + child_index(all.skip(i as int), tag@),
        decreases c.len() - i,
    {
        assert(all.skip(i as int)[0] == node(c@[i as int]));
        if let XmlNode::Element(e) = &c[i] {
            if text::same(e.name.as_str(), tag) {
                return i;
            }
        }
        assert(all.skip(i as int).skip(1) =~= all.skip(i + 1));
        i = i + 1;
    }
    i
}

/// Creates the path that the tags from `i` on spell where it is missing.
fn ensure_element(e: &mut XmlElement, tags: &Vec<String>, i: usize)
    requires
        i <= tags@.len(),
    ensures
        elem(*final(e)) == ensure_path(elem(*old(e)), text::texts(tags@).skip(i as int)),
    decreases tags@.len() - i,
{
    if i == tags.len() {
        return;
    }
    let ghost e0 = *e;
    let ghost rest = text::texts(tags@).skip(i as int);
    let tag = tags[i].as_str();
    proof {
        lemma_elem(e0);
        assert(rest[0] == tag@);
        assert(rest.skip(1) =~= text::texts(tags@).skip(i + 1));
        lemma_child_index(nodes(e0.children@), tag@);
    }
    let at: usize = find_child(&e.children, tag);
    if at < e.children.len() {
        if let XmlNode::Element(c) = &mut e.children[at] {
            ensure_element(c, tags, i + 1);
        }
        proof {
            lemma_elem(*e);
            assert(nodes(e.children@) =~= ensure_path(elem(e0), rest).children);
            lemma_elem_eq(elem(*e), ensure_path(elem(e0), rest));
        }
    } else {
        let mut c = new_element(tag);
        ensure_element(&mut c, tags, i + 1);
        e.children.push(XmlNode::Element(c));
        proof {
            lemma_elem(*e);
            assert(nodes(e.children@) =~= ensure_path(elem(e0), rest).children);
            lemma_elem_eq(elem(*e), ensure_path(elem(e0), rest));
        }
    }
}

/// Sets the target of a rule.
fn set_one(e: &mut XmlElement, value: &str)
    ensures
        elem(*final(e)) == set_target(elem(*old(e)), value@),
{
    let ghost e0 = *e;
    proof {
        lemma_elem(e0);
    }
    if let Some(re) = pattern::compile(XML_VALUE) {
        if let Some(g) = pattern::captures(&re, value) {
            let name = template::group_of(&g, 1);
            let v = template::group_of(&g, 2);
            properties::put_entry(&mut e.attributes, name.as_str(), v);
            proof {
                lemma_elem(*e);
                lemma_elem_eq(elem(*e), set_target(elem(e0), value@));
            }
            return;
        }
    }
    let mut c: Vec<XmlNode> = Vec::new();
    c.push(XmlNode::Text(value.to_owned()));
    e.children = c;
    proof {
        lemma_elem(*e);
        assert(nodes(e.children@) =~= seq![Node::Text(value@)]);
        lemma_elem_eq(elem(*e), set_target(elem(e0), value@));
    }
}

/// Sets every target that the tags from `i` on lead to.
fn set_all(e: &mut XmlElement, tags: &Vec<String>, i: usize, value: &str)
    requires
        i <= tags@.len(),
    ensures
        elem(*final(e)) == set_targets(
            elem(*old(e)),
            text::texts(tags@).skip(i as int),
            value@,
        ),
    decreases tags@.len() - i,
{
    if i == tags.len() {
        set_one(e, value);
        return;
    }
    let ghost e0 = *e;
    let ghost rest = text::texts(tags@).skip(i as int);
    let ghost want = set_targets(elem(e0), rest, value@);
    let tag = tags[i].as_str();
    let any = text::same(tag, "*");
    proof {
        lemma_elem(e0);
        assert(rest[0] == tag@);
        assert(rest.skip(1) =~= text::texts(tags@).skip(i + 1));
    }
    let mut k: usize = 0;
    while k < e.children.len()
        invariant
            k <= e.children.len(),
            i < tags.len(),
            e.name == e0.name,
            e.attributes == e0.attributes,
            e.children@.len() == e0.children@.len(),
            elem(e0).children == nodes(e0.children@),
            rest == text::texts(tags@).skip(i as int),
            rest[0] == tag@,
            rest.skip(1) == text::texts(tags@).skip(i + 1),
            rest.len() > 0,
            any == (tag@ == "*"@),
            want == set_targets(elem(e0), rest, value@),
            forall|j: int| 0 <= j < k ==> node(#[trigger] e.children@[j]) == want.children[j],
            forall|j: int| k <= j < e0.children@.len() ==> #[trigger] e.children@[j] == e0.children@[j],
        decreases e.children.len() - k,
    {
        let ghost before = e.children@;
        assert(elem(e0).children[k as int] == node(e0.children@[k as int]));
        if let XmlNode::Element(c) = &mut e.children[k] {
            if any || text::same(c.name.as_str(), tag) {
                set_all(c, tags, i + 1, value);
            }
        }
        assert forall|j: int| 0 <= j < k implies node(#[trigger] e.children@[j])
            == want.children[j] by {
            assert(e.children@[j] == before[j]);
        }
        k = k + 1;
    }
    proof {
        lemma_elem(*e);
        lemma_elem(e0);
        assert(nodes(e.children@) =~= want.children);
        lemma_elem_eq(elem(*e), want);
    }
}

/// Escapes the characters of a text that are markup.
pub fn escape_xml_text(s: &str) -> (r: String)
    ensures
        r@ == escaped_text(s@),
{
    let a = text::replace_char(s, '&', "&amp;");
    let b = text::replace_char(a.as_str(), '<', "&lt;");
    text::replace_char(b.as_str(), '>', "&gt;")
}

/// Escapes an attribute's value.
pub fn escape_xml_attr(s: &str) -> (r: String)
    ensures
        r@ == escaped_attr(s@),
{
    let t = escape_xml_text(s);
    text::replace_char(t.as_str(), '"', "&quot;")
}

fn write_attributes(out: &mut String, a: &Vec<(String, String)>)
    ensures
        final(out)@ == old(out)@ + attrs_text(text::pairs(a@)),
{
    let ghost all = text::pairs(a@);
    let ghost start = out@;
    let mut i: usize = 0;
    assert(start + attrs_text(all.take(0)) =~= start);
    while i < a.len()
        invariant
            i <= a.len(),
            all == text::pairs(a@),
            out@ == start + attrs_text(all.take(i as int)),
        decreases a.len() - i,
    {
        assert(all.take(i + 1).drop_last() =~= all.take(i as int));
        assert(all.take(i + 1).last() == (a@[i as int].0@, a@[i as int].1@));
        out.append(" ");
        out.append(a[i].0.as_str());
        out.append("=\"");
        let v = escape_xml_attr(a[i].1.as_str());
        out.append(v.as_str());
        out.append("\"");
        assert(out@ =~= start + attrs_text(all.take(i + 1)));
        i = i + 1;
    }
    assert(all.take(i as int) =~= all);
}

/// The text and CDATA directly inside, and whether an element is too.
fn scan_children(c: &Vec<XmlNode>) -> (r: (String, bool))
    ensures
        r.0@ == inner_text(nodes(c@)),
        r.1 == holds_elements(nodes(c@)),
{
    let ghost all = nodes(c@);
    let mut out = String::new();
    let mut found = false;
    let mut i: usize = 0;
    while i < c.len()
        invariant
            i <= c.len(),
            all == nodes(c@),
            out@ == inner_text(all.take(i as int)),
            found == exists|k: int| 0 <= k < i && #[trigger] all[k] is Element,
        decreases c.len() - i,
    {
        let ghost before = out@;
        assert(all.take(i + 1).drop_last() =~= all.take(i as int));
        assert(all.take(i + 1).last() == all[i as int]);
        assert(all[i as int] == node(c@[i as int]));
        match &c[i] {
            XmlNode::Element(_) => {
                found = true;
                assert(before + Seq::<char>::empty() =~= before);
            },
            XmlNode::Text(s) => {
                out.append(s.as_str());
            },
            XmlNode::CData(s) => {
                out.append(s.as_str());
            },
            _ => {
                assert(before + Seq::<char>::empty() =~= before);
            },
        }
        i = i + 1;
    }
    assert(all.take(i as int) =~= all);
    (out, found)
}

/// Writes an element.
pub fn write_element(out: &mut String, e: &XmlElement, pad: &str)
    ensures
        final(out)@ == old(out)@ + elem_text(elem(*e), pad@),
    decreases e,
{
    let ghost start = out@;
    let ghost v = elem(*e);
    proof {
        lemma_elem(*e);
    }
    out.append(pad);
    out.append("<");
    out.append(e.name.as_str());
    write_attributes(out, &e.attributes);
    if e.children.len() == 0 {
        out.append("/>\n");
        assert(out@ =~= start + elem_text(v, pad@));
        return;
    }
    out.append(">");
    let (inner, holds) = scan_children(&e.children);
    if !holds {
        let t = escape_xml_text(inner.as_str());
        out.append(t.as_str());
        out.append("</");
        out.append(e.name.as_str());
        out.append(">\n");
        assert(out@ =~= start + elem_text(v, pad@));
        return;
    }
    out.append("\n");
    let inner_pad = text::cat(pad, "  ");
    let ghost opened = out@;
    let ghost all = nodes(e.children@);
    let mut i: usize = 0;
    assert(opened + children_text(all.take(0), inner_pad@) =~= opened);
    while i < e.children.len()
        invariant
            i <= e.children.len(),
            all == nodes(e.children@),
            inner_pad@ == pad@ + "  "@,
            out@ == opened + children_text(all.take(i as int), inner_pad@),
        decreases e.children.len() - i,
    {
        let ghost before = out@;
        assert(all.take(i + 1).drop_last() =~= all.take(i as int));
        assert(all.take(i + 1)[i as int] == node(e.children@[i as int]));
        match &e.children[i] {
            XmlNode::Element(c) => {
                assert(decreases_to!(e.children@ => e.children@[i as int]));
                write_element(out, c, inner_pad.as_str());
            },
            XmlNode::Text(s) => {
                let t = text::trimmed(s.as_str());
                if !t.as_str().is_empty() {
                    out.append(inner_pad.as_str());
                    let t = escape_xml_text(s.as_str());
                    out.append(t.as_str());
                    out.append("\n");
                }
            },
            XmlNode::Comment(s) => {
                out.append(inner_pad.as_str());
                out.append("<!--");
                out.append(s.as_str());
                out.append("-->\n");
            },
            _ => {},
        }
        assert(out@ =~= opened + children_text(all.take(i + 1), inner_pad@));
        i = i + 1;
    }
    assert(all.take(i as int) =~= all);
    out.append(pad);
    out.append("</");
    out.append(e.name.as_str());
    out.append(">\n");
    assert(out@ =~= start + elem_text(v, pad@));
}

/// Parses a document (`xmltree::Element::parse`) and lists its root element
/// in document order, so that the listing nests. What is listed depends on the
/// bytes alone, except for the order in which an element's attributes come.
#[verifier::external_body]
fn parse_listing(raw: &[u8]) -> (r: Result<Vec<XmlToken>, String>)
    ensures
        match r {
            Ok(v) => parsed_listing(raw@) == Ok::<Seq<LooseLine>, Seq<char>>(
                loose(listing(v@)),
            ) && nests(listing(v@)),
            Err(e) => parsed_listing(raw@) == Err::<Seq<LooseLine>, Seq<char>>(e@),
        },
{
    let mut todo = vec![(0, XMLNode::Element(Element::parse(raw).map_err(|e| e.to_string())?))];
    let mut out = vec![];
    while let Some((depth, node)) = todo.pop() {
        out.push(XmlToken { depth, kind: match node {
            XMLNode::Element(e) => {
                todo.extend(e.children.into_iter().rev().map(|c| (depth + 1, c)));
                XmlKind::Element(e.name, e.attributes.into_iter().collect())
            },
            XMLNode::Text(s) => XmlKind::Text(s),
            XMLNode::CData(s) => XmlKind::CData(s),
            XMLNode::Comment(s) => XmlKind::Comment(s),
            _ => XmlKind::Instruction,
        } });
    }
    Ok(out)
}

/// Whether an attribute comes before another one.
fn comes_before(a: &(String, String), b: &(String, String)) -> (r: bool)
    ensures
        r == precedes((a.0@, a.1@), (b.0@, b.1@)),
{
    text::before(a.0.as_str(), b.0.as_str()) || (text::same(a.0.as_str(), b.0.as_str())
        && text::before(a.1.as_str(), b.1.as_str()))
}

/// Attributes in the order of their names.
fn in_name_order(a: &Vec<(String, String)>) -> (r: Vec<(String, String)>)
    ensures
        text::pairs(r@).to_multiset() == text::pairs(a@).to_multiset(),
        by_name(text::pairs(r@)),
{
    let ghost all = text::pairs(a@);
    let mut out: Vec<(String, String)> = Vec::new();
    let mut i: usize = 0;
    assert(all.take(0) =~= text::pairs(out@));
    while i < a.len()
        invariant
            i <= a.len(),
            all == text::pairs(a@),
            by_name(text::pairs(out@)),
            text::pairs(out@).to_multiset() == all.take(i as int).to_multiset(),
        decreases a.len() - i,
    {
        let ghost before = text::pairs(out@);
        let ghost e = all[i as int];
        let mut k: usize = 0;
        while k < out.len() && !comes_before(&a[i], &out[k])
            invariant
                i < a.len(),
                k <= out.len(),
                all == text::pairs(a@),
                e == all[i as int],
                before == text::pairs(out@),
                forall|j: int| 0 <= j < k ==> !precedes(e, #[trigger] before[j]),
            decreases out.len() - k,
        {
            k = k + 1;
        }
        out.insert(k, (a[i].0.clone(), a[i].1.clone()));
        proof {
            let after = text::pairs(out@);
            assert(after =~= before.insert(k as int, e));
            vstd::seq_lib::to_multiset_insert(before, k as int, e);
            assert(all.take(i + 1) =~= all.take(i as int).push(e));
            vstd::seq_lib::to_multiset_build(all.take(i as int), e);
            assert forall|x: int, y: int| 0 <= x < y < after.len() implies !precedes(
                #[trigger] after[y],
                #[trigger] after[x],
            ) by {
                if y < k {
                    assert(after[x] == before[x] && after[y] == before[y]);
                } else if y == k {
                    assert(after[x] == before[x]);
                    lemma_precedes(e, before[x], e);
                } else {
                    assert(after[y] == before[y - 1]);
                    if x < k {
                        assert(after[x] == before[x]);
                    } else if x > k {
                        assert(after[x] == before[x - 1]);
                    } else {
                        lemma_precedes(after[y], e, before[k as int]);
                        if y - 1 == k {
                            lemma_precedes(before[k as int], e, e);
                        }
                    }
                }
            }
        }
        i = i + 1;
    }
    assert(all.take(i as int) =~= all);
    out
}

/// A listing with attributes in the order of their names.
fn ordered_listing(v: &Vec<XmlToken>) -> (r: Vec<XmlToken>)
    requires
        nests(listing(v@)),
    ensures
        loose(listing(r@)) == loose(listing(v@)),
        nests(listing(r@)),
        all_by_name(listing(r@)),
{
    let ghost l = listing(v@);
    let mut out: Vec<XmlToken> = Vec::new();
    let mut i: usize = 0;
    while i < v.len()
        invariant
            i <= v.len(),
            l == listing(v@),
            out@.len() == i,
            forall|k: int|
                #![trigger listing(out@)[k]]
                0 <= k < i ==> listing(out@)[k].0 == l[k].0 && listing(out@)[k].1 == l[k].1
                    && listing(out@)[k].2 == l[k].2 && listing(out@)[k].3.to_multiset()
                    == l[k].3.to_multiset() && by_name(listing(out@)[k].3),
        decreases v.len() - i,
    {
        let ghost before = out@;
        assert(l[i as int] == line(v@[i as int]));
        let kind = match &v[i].kind {
            XmlKind::Element(name, a) => XmlKind::Element(name.clone(), in_name_order(a)),
            XmlKind::Text(s) => XmlKind::Text(s.clone()),
            XmlKind::CData(s) => XmlKind::CData(s.clone()),
            XmlKind::Comment(s) => XmlKind::Comment(s.clone()),
            XmlKind::Instruction => XmlKind::Instruction,
        };
        let t = XmlToken { depth: v[i].depth, kind };
        let ghost shown = line(t);
        out.push(t);
        assert(listing(out@) =~= listing(before).push(shown));
        i = i + 1;
    }
    proof {
        let n = listing(out@);
        assert(loose(n) =~= loose(l)) by {
            assert forall|k: int| 0 <= k < n.len() implies loose(n)[k] == loose(l)[k] by {
                assert(n[k].0 == l[k].0);
            }
        }
        assert(n[0].0 == l[0].0);
        assert forall|k: int| 0 < k < n.len() implies (#[trigger] n[k]).0 > 0 && follows(n, k) by {
            assert(n[k - 1].0 == l[k - 1].0);
            assert(l[k].0 > 0 && follows(l, k));
        }
    }
    out
}

/// Whether a listing nests.
fn check_nests(v: &Vec<XmlToken>) -> (r: bool)
    ensures
        r == nests(listing(v@)),
{
    let ghost l = listing(v@);
    if v.len() == 0 || v[0].depth != 0 || !is_element(&v[0].kind) {
        assert(v@.len() > 0 ==> l[0] == line(v@[0]));
        return false;
    }
    assert(l[0] == line(v@[0]));
    let mut i: usize = 1;
    while i < v.len()
        invariant
            1 <= i <= v.len(),
            l == listing(v@),
            forall|k: int| 0 < k < i ==> (#[trigger] l[k]).0 > 0 && follows(l, k),
        decreases v.len() - i,
    {
        assert(l[i as int] == line(v@[i as int]));
        assert(l[i - 1] == line(v@[i - 1]));
        let d: usize = v[i].depth;
        let p: usize = v[i - 1].depth;
        let ok = d > 0 && (d <= p || (d - 1 <= p && is_element(&v[i - 1].kind)));
        if !ok {
            assert(!(l[i as int].0 > 0 && follows(l, i as int)));
            return false;
        }
        i = i + 1;
    }
    true
}

fn is_element(k: &XmlKind) -> (r: bool)
    ensures
        r == (k is Element),
{
    matches!(k, XmlKind::Element(_, _))
}

/// The nodes listed from `from` on at this depth, and where they end.
fn read_nodes(v: &Vec<XmlToken>, from: usize, depth: usize) -> (r: (Vec<XmlNode>, usize))
    requires
        nests(listing(v@)),
        0 < from <= v@.len(),
        from < v@.len() ==> v@[from as int].depth <= depth,
    ensures
        from <= r.1 <= v@.len(),
        r.1 < v@.len() ==> v@[r.1 as int].depth < depth,
        node_lines(nodes(r.0@), depth as nat) == listing(v@).subrange(from as int, r.1 as int),
    decreases v@.len() - from,
{
    let ghost l = listing(v@);
    let mut out: Vec<XmlNode> = Vec::new();
    let mut i: usize = from;
    assert(nodes(out@) =~= Seq::empty());
    assert(node_lines(nodes(out@), depth as nat) =~= l.subrange(from as int, i as int));
    while i < v.len() && v[i].depth == depth
        invariant
            l == listing(v@),
            nests(l),
            0 < from <= i <= v@.len(),
            i < v@.len() ==> v@[i as int].depth <= depth,
            node_lines(nodes(out@), depth as nat) == l.subrange(from as int, i as int),
        decreases v@.len() - i,
    {
        let ghost before = nodes(out@);
        let ghost start = i as int;
        assert(l[i as int] == line(v@[i as int]));
        if i + 1 < v.len() {
            assert(l[i + 1] == line(v@[i + 1]));
            assert(follows(l, i + 1));
        }
        let ghost mut added: Node = Node::Text(Seq::empty());
        match &v[i].kind {
            XmlKind::Element(name, attributes) => {
                let (children, end) = if i + 1 < v.len() && v[i + 1].depth > depth {
                    read_nodes(v, i + 1, depth + 1)
                } else {
                    let none: Vec<XmlNode> = Vec::new();
                    assert(nodes(none@) =~= Seq::empty());
                    assert(node_lines(nodes(none@), (depth + 1) as nat) =~= l.subrange(
                        i + 1,
                        i + 1,
                    ));
                    (none, i + 1)
                };
                let e = XmlElement {
                    name: name.clone(),
                    attributes: text::copy_pairs(attributes),
                    children,
                };
                proof {
                    lemma_elem(e);
                    added = Node::Element(elem(e));
                    assert(elem_lines(elem(e), depth as nat) =~= l.subrange(
                        start,
                        end as int,
                    ));
                }
                out.push(XmlNode::Element(e));
                i = end;
            },
            XmlKind::Text(s) => {
                out.push(XmlNode::Text(s.clone()));
                proof {
                    added = Node::Text(s@);
                }
                i = i + 1;
            },
            XmlKind::CData(s) => {
                out.push(XmlNode::CData(s.clone()));
                proof {
                    added = Node::CData(s@);
                }
                i = i + 1;
            },
            XmlKind::Comment(s) => {
                out.push(XmlNode::Comment(s.clone()));
                proof {
                    added = Node::Comment(s@);
                }
                i = i + 1;
            },
            XmlKind::Instruction => {
                out.push(XmlNode::Instruction);
                proof {
                    added = Node::Instruction;
                }
                i = i + 1;
            },
        }
        proof {
            assert(nodes(out@) =~= before.push(added));
            assert(before.push(added).drop_last() =~= before);
            assert(before.push(added)[before.len() as int] == added);
            assert(node_lines(nodes(out@), depth as nat) =~= l.subrange(from as int, i as int));
        }
    }
    (out, i)
}

/// The element that a listing stands for.
pub fn tree_of(v: &Vec<XmlToken>) -> (r: Option<XmlElement>)
    ensures
        match r {
            Some(e) => elem_lines(elem(e), 0) == listing(v@),
            None => !nests(listing(v@)),
        },
{
    if !check_nests(v) {
        return None;
    }
    let ghost l = listing(v@);
    assert(l[0] == line(v@[0]));
    if v.len() > 1 {
        assert(l[1] == line(v@[1]));
        assert(follows(l, 1));
    }
    let (children, end) = read_nodes(v, 1, 1);
    proof {
        if end < v@.len() {
            assert(l[end as int] == line(v@[end as int]));
        }
    }
    match &v[0].kind {
        XmlKind::Element(name, attributes) => {
            let e = XmlElement { name: name.clone(), attributes: text::copy_pairs(attributes), children };
            proof {
                lemma_elem(e);
                assert(elem_lines(elem(e), 0) =~= l);
            }
            Some(e)
        },
        _ => None,
    }
}

/// Applies one rule.
fn apply_rule(root: &mut XmlElement, rule: &PatternReplace, daemon: &TemplatableConfig)
    ensures
        elem(*final(root)) == rule_elem(elem(*old(root)), *rule, daemon.interface@),
{
    let value = template::lookup_configuration_value(rule, daemon);
    let segs = text::split_str(rule.match_.as_str(), '.');
    let ghost all = text::texts(segs@);
    let mut wildcard = false;
    let mut i: usize = 0;
    while i < segs.len()
        invariant
            i <= segs.len(),
            all == text::texts(segs@),
            wildcard == exists|k: int| 0 <= k < i && #[trigger] all[k] == "*"@,
        decreases segs.len() - i,
    {
        assert(all[i as int] == segs@[i as int]@);
        if text::same(segs[i].as_str(), "*") {
            wildcard = true;
        }
        i = i + 1;
    }
    proof {
        text::lemma_split_nonempty(rule.match_@, '.');
        assert(wildcard == all.contains("*"@));
    }
    if !wildcard {
        ensure_element(root, &segs, 1);
    }
    set_all(root, &segs, 1, value.as_str());
}

/// Rewrites a document that was parsed, or starts a new one.
pub fn rewrite_document(
    had_prolog: bool,
    parsed: Option<XmlElement>,
    config: &PatternConfig,
    daemon: &TemplatableConfig,
) -> (r: String)
    requires
        parsed is None ==> config.replace@.len() > 0,
    ensures
        r@ == xml_text(
            had_prolog,
            root_of(parsed),
            config.replace@,
            daemon.interface@,
        ),
{
    let mut out = String::new();
    if had_prolog || parsed.is_none() {
        out.append("<?xml version=\"1.0\" encoding=\"utf-8\"?>\n");
    }
    let ghost head = out@;
    let mut root = match parsed {
        Some(e) => e,
        None => {
            let segs = text::split_str(config.replace[0].match_.as_str(), '.');
            proof {
                text::lemma_split_nonempty(config.replace[0].match_@, '.');
                assert(text::texts(segs@)[0] == segs@[0]@);
            }
            new_element(segs[0].as_str())
        },
    };
    let ghost start = elem(root);
    let mut i: usize = 0;
    while i < config.replace.len()
        invariant
            i <= config.replace.len(),
            elem(root) == rules_elem(start, config.replace@.take(i as int), daemon.interface@),
        decreases config.replace.len() - i,
    {
        assert(config.replace@.take(i + 1).drop_last() =~= config.replace@.take(i as int));
        apply_rule(&mut root, &config.replace[i], daemon);
        i = i + 1;
    }
    assert(config.replace@.take(i as int) =~= config.replace@);
    write_element(&mut out, &root, "");
    proof {
        reveal_strlit("");
        assert(""@ =~= Seq::<char>::empty());
        assert(head =~= (if had_prolog || parsed is None {
            prolog()
        } else {
            Seq::empty()
        }));
    }
    out
}

/// Whether the bytes open with an XML declaration.
fn starts_with_prolog(raw: &[u8]) -> (r: bool)
    ensures
        r == has_prolog(raw@),
{
    let r = raw.len() >= 5 && raw[0] == 60 && raw[1] == 63 && raw[2] == 120 && raw[3] == 109
        && raw[4] == 108;
    proof {
        let p = seq![60u8, 63u8, 120u8, 109u8, 108u8];
        if r {
            assert(p =~= raw@.subrange(0, 5));
        } else if p.is_prefix_of(raw@) {
            assert(raw@.subrange(0, 5)[0] == raw@[0] && raw@.subrange(0, 5)[1] == raw@[1]
                && raw@.subrange(0, 5)[2] == raw@[2] && raw@.subrange(0, 5)[3] == raw@[3]
                && raw@.subrange(0, 5)[4] == raw@[4]);
        }
    }
    r
}

/// Rewrites an XML file: missing elements along a rule's path are created, then
/// the text or an attribute of every element it leads to is set. A file that
/// cannot be parsed is started anew, unless there is no rule.
pub fn parse_xml_file(raw: &[u8], config: &PatternConfig, daemon: &TemplatableConfig) -> (r:
    AppResult<String>)
    ensures
        match r {
            Ok(out) => exists|root: Option<Elem>|
                parses_to(raw@, root) && (root is Some || config.replace@.len() > 0) && out@
                    == #[trigger] xml_text(
                    has_prolog(raw@),
                    root,
                    config.replace@,
                    daemon.interface@,
                ),
            Err(e) => config.replace@.len() == 0 && (parsed_listing(raw@) matches Err(m)
                && crate::error::is_bad_request(e, "parser: invalid xml config: "@ + m)),
        },
{
    let had_prolog = starts_with_prolog(raw);
    let (parsed, failure) = match parse_listing(raw) {
        Ok(v) => (tree_of(&ordered_listing(&v)), String::new()),
        Err(e) => (None, e),
    };
    if parsed.is_none() && config.replace.len() == 0 {
        return Err(
            AppError::BadRequest(text::cat("parser: invalid xml config: ", failure.as_str())),
        );
    }
    assert(parses_to(raw@, root_of(parsed)));
    Ok(rewrite_document(had_prolog, parsed, config, daemon))
}

// ---------------------------------------------------------------------------
// What rules do to documents: laws
// ---------------------------------------------------------------------------
/// Text is escaped character by character: an ampersand and the two brackets become
/// references, every other character stays.
pub proof fn law_text_is_escaped(s: Seq<char>, t: Seq<char>, c: char)
    ensures
        escaped_text(s + t) == escaped_text(s) + escaped_text(t),
        escaped_text(seq!['&']) == "&amp;"@,
        escaped_text(seq!['<']) == "&lt;"@,
        escaped_text(seq!['>']) == "&gt;"@,
        c != '&' && c != '<' && c != '>' ==> escaped_text(seq![c]) == seq![c],
        escaped_attr(s + t) == escaped_attr(s) + escaped_attr(t),
        escaped_attr(seq!['"']) == "&quot;"@,
        escaped_attr(seq!['&']) == "&amp;"@,
        c != '&' && c != '<' && c != '>' && c != '"' ==> escaped_attr(seq![c]) == seq![c],
{
    reveal_strlit("&amp;");
    reveal_strlit("&lt;");
    reveal_strlit("&gt;");
    reveal_strlit("&quot;");
    let (amp, lt, gt, quot) = ("&amp;"@, "&lt;"@, "&gt;"@, "&quot;"@);
    let a = text::replaced(s, '&', amp);
    let b = text::replaced(t, '&', amp);
    text::law_replaced_cat(s, t, '&', amp);
    text::law_replaced_cat(a, b, '<', lt);
    text::law_replaced_cat(text::replaced(a, '<', lt), text::replaced(b, '<', lt), '>', gt);
    text::law_replaced_cat(escaped_text(s), escaped_text(t), '"', quot);
    text::law_replaced(seq!['&'], '&', amp);
    text::law_replaced(amp, '<', lt);
    text::law_replaced(amp, '>', gt);
    text::law_replaced(amp, '"', quot);
    text::law_replaced(seq!['<'], '&', amp);
    text::law_replaced(seq!['<'], '<', lt);
    text::law_replaced(lt, '>', gt);
    text::law_replaced(seq!['>'], '&', amp);
    text::law_replaced(seq!['>'], '<', lt);
    text::law_replaced(seq!['>'], '>', gt);
    text::law_replaced(seq!['"'], '&', amp);
    text::law_replaced(seq!['"'], '<', lt);
    text::law_replaced(seq!['"'], '>', gt);
    text::law_replaced(seq!['"'], '"', quot);
    text::law_replaced(seq![c], '&', amp);
    text::law_replaced(seq![c], '<', lt);
    text::law_replaced(seq![c], '>', gt);
    text::law_replaced(seq![c], '"', quot);
}

/// A value becomes the only content of the element, whose name and attributes stay;
/// one that names an attribute sets that one, and leaves the content and the other
/// attributes.
pub proof fn law_targets(e: Elem, value: Seq<char>, g: Seq<Option<Seq<char>>>, k: Seq<char>, v: Seq<char>)
    ensures
        set_target(e, value).name == e.name,
        pattern::groups(XML_VALUE@, value) is None ==> set_target(e, value).children == seq![
            Node::Text(value),
        ] && set_target(e, value).attributes == e.attributes,
        pattern::compiles(XML_VALUE@) && pattern::groups(XML_VALUE@, value) == Some(g) && g.len()
            > 2 && g[1] == Some(k) && g[2] == Some(v) ==> {
            let after = set_target(e, value);
            let i = properties::key_index(e.attributes, k);
            &&& after.children == e.children
            &&& 0 <= i < after.attributes.len() && after.attributes[i] == (k, v)
            &&& forall|j: int|
                0 <= j < e.attributes.len() && j != i ==> after.attributes[j]
                    == #[trigger] e.attributes[j]
        },
{
    properties::lemma_put(e.attributes, k, v);
}

/// The element that positions lead to, one child at a time.
pub open spec fn elem_at(e: Elem, at: Seq<int>) -> Elem
    decreases at.len(),
{
    if at.len() == 0 {
        e
    } else {
        elem_at(e.children[at[0]]->Element_0, at.skip(1))
    }
}

/// Positions that lead along a path.
pub open spec fn leads(e: Elem, at: Seq<int>, tags: Seq<Seq<char>>) -> bool
    decreases at.len(),
{
    &&& at.len() == tags.len()
    &&& at.len() > 0 ==> 0 <= at[0] < e.children.len() && (e.children[at[0]] matches Node::Element(
        c,
    ) && (tags[0] == "*"@ || c.name == tags[0]) && leads(c, at.skip(1), tags.skip(1)))
}

/// Every element that a path leads to is set, and stays where it is.
pub proof fn law_all_targets_are_set(e: Elem, at: Seq<int>, tags: Seq<Seq<char>>, value: Seq<char>)
    requires
        leads(e, at, tags),
    ensures
        elem_at(set_targets(e, tags, value), at) == set_target(elem_at(e, at), value),
        leads(set_targets(e, tags, value), at, tags),
    decreases at.len(),
{
    if at.len() > 0 {
        let c = e.children[at[0]]->Element_0;
        law_all_targets_are_set(c, at.skip(1), tags.skip(1), value);
        let after = set_targets(e, tags, value);
        assert(after.children[at[0]] == Node::Element(set_targets(c, tags.skip(1), value)));
        assert(set_targets(c, tags.skip(1), value).name == c.name);
    }
}

/// What a path does not lead through stays as it is: names, attributes, and all nodes
/// that are not on it.
pub proof fn law_others_stay(e: Elem, tags: Seq<Seq<char>>, value: Seq<char>, i: int)
    requires
        tags.len() > 0,
        0 <= i < e.children.len(),
    ensures
        ({
            let after = set_targets(e, tags, value);
            &&& after.name == e.name && after.attributes == e.attributes
            &&& after.children.len() == e.children.len()
            &&& !(e.children[i] is Element) ==> after.children[i] == e.children[i]
            &&& e.children[i] matches Node::Element(c) ==> tags[0] != "*"@ && c.name != tags[0]
                ==> after.children[i] == e.children[i]
            &&& e.children[i] is Element ==> after.children[i] is Element
        }),
{
}

proof fn lemma_child_index_first(c: Seq<Node>, tag: Seq<char>, j: int)
    requires
        0 <= j < c.len(),
        c[j] matches Node::Element(e) && e.name == tag,
    ensures
        child_index(c, tag) <= j,
    decreases c.len(),
{
    if j > 0 && !(c[0] matches Node::Element(e) && e.name == tag) {
        assert(c.skip(1)[j - 1] == c[j]);
        lemma_child_index_first(c.skip(1), tag, j - 1);
    }
}

/// A path is made where it is missing: what there is stays, and at most one node is
/// added, behind the others.
pub proof fn law_paths_are_made(e: Elem, tags: Seq<Seq<char>>)
    requires
        tags.len() > 0,
    ensures
        ({
            let after = ensure_path(e, tags);
            let i = child_index(e.children, tags[0]);
            &&& after.name == e.name && after.attributes == e.attributes
            &&& e.children.len() <= after.children.len() <= e.children.len() + 1
            &&& forall|j: int|
                0 <= j < e.children.len() && j != i ==> after.children[j]
                    == #[trigger] e.children[j]
            &&& 0 <= i < after.children.len() && (after.children[i] matches Node::Element(c)
                && c.name == tags[0])
            &&& (exists|j: int|
                0 <= j < e.children.len() && (#[trigger] e.children[j] matches Node::Element(c)
                    && c.name == tags[0])) ==> after.children.len() == e.children.len()
        }),
{
    lemma_child_index(e.children, tags[0]);
    law_ensured_path_has_target(e, tags);
    let i = child_index(e.children, tags[0]);
    if i < e.children.len() {
        law_ensured_path_has_target(e.children[i]->Element_0, tags.skip(1));
    } else {
        law_ensured_path_has_target(empty_elem(tags[0]), tags.skip(1));
    }
    if exists|j: int|
        0 <= j < e.children.len() && (#[trigger] e.children[j] matches Node::Element(c) && c.name
            == tags[0]) {
        let j = choose|j: int|
            0 <= j < e.children.len() && (#[trigger] e.children[j] matches Node::Element(c)
                && c.name == tags[0]);
        lemma_child_index_first(e.children, tags[0], j);
    }
}

proof fn lemma_target_positions(e: Elem, tags: Seq<Seq<char>>) -> (at: Seq<int>)
    requires
        has_target(e, tags),
    ensures
        leads(e, at, tags),
    decreases tags.len(),
{
    if tags.len() == 0 {
        Seq::empty()
    } else {
        let i = choose|i: int|
            0 <= i < e.children.len() && step_matches(#[trigger] e.children[i], tags[0])
                && has_target(e.children[i]->Element_0, tags.skip(1));
        let c = e.children[i]->Element_0;
        let rest = lemma_target_positions(c, tags.skip(1));
        let at = seq![i] + rest;
        assert(at.skip(1) =~= rest);
        at
    }
}

/// After a rule without a wildcard there is an element at its path, below the root,
/// that has its value.
pub proof fn law_rule_sets_element(root: Elem, rule: PatternReplace, interface: Seq<char>)
    requires
        !text::split_on(rule.match_@, '.').contains("*"@),
    ensures
        ({
            let tags = text::split_on(rule.match_@, '.').skip(1);
            let value = template::lookup(rule.replace_with, interface);
            let after = rule_elem(root, rule, interface);
            &&& exists|at: Seq<int>, before: Elem|
                #![trigger elem_at(after, at), set_target(before, value)]
                leads(after, at, tags) && elem_at(after, at) == set_target(before, value)
            &&& after.name == root.name
        }),
{
    let tags = text::split_on(rule.match_@, '.').skip(1);
    let value = template::lookup(rule.replace_with, interface);
    let made = ensure_path(root, tags);
    law_ensured_path_has_target(root, tags);
    let at = lemma_target_positions(made, tags);
    law_all_targets_are_set(made, at, tags, value);
    let before = elem_at(made, at);
    assert(elem_at(rule_elem(root, rule, interface), at) == set_target(before, value));
}

/// A rule with a wildcard makes nothing.
pub proof fn law_wildcards_make_nothing(root: Elem, rule: PatternReplace, interface: Seq<char>)
    requires
        text::split_on(rule.match_@, '.').contains("*"@),
    ensures
        rule_elem(root, rule, interface) == set_targets(
            root,
            text::split_on(rule.match_@, '.').skip(1),
            template::lookup(rule.replace_with, interface),
        ),
{
}

/// Rules apply in order, each to what those before it have left.
pub proof fn law_rules_apply_in_order(
    root: Elem,
    rules: Seq<PatternReplace>,
    rule: PatternReplace,
    interface: Seq<char>,
)
    ensures
        rules_elem(root, rules.push(rule), interface) == rule_elem(
            rules_elem(root, rules, interface),
            rule,
            interface,
        ),
        rules_elem(root, Seq::empty(), interface) == root,
{
    assert(rules.push(rule).drop_last() =~= rules);
}

/// How elements are written: closed at once when empty, on one line with nothing but
/// text in them, else with every child on lines of its own, set in by two blanks.
pub proof fn law_elements_are_written(
    name: Seq<char>,
    a: Seq<(Seq<char>, Seq<char>)>,
    s: Seq<char>,
    inner: Elem,
    pad: Seq<char>,
)
    ensures
        elem_text((Elem { name, attributes: a, children: Seq::empty() }), pad) == pad + "<"@ + name
            + attrs_text(a) + "/>\n"@,
        elem_text((Elem { name, attributes: a, children: seq![Node::Text(s)] }), pad) == pad + "<"@
            + name + attrs_text(a) + ">"@ + escaped_text(s) + ("</"@ + name + ">\n"@),
        elem_text((Elem { name, attributes: a, children: seq![Node::Element(inner)] }), pad) == pad
            + "<"@ + name + attrs_text(a) + ">"@ + "\n"@ + elem_text(inner, pad + "  "@) + pad + (
        "</"@ + name + ">\n"@),
{
    let none = Seq::<Node>::empty();
    let one = seq![Node::Text(s)];
    assert(one.drop_last() =~= none);
    assert(inner_text(none) =~= Seq::<char>::empty());
    assert(inner_text(one) =~= s);
    assert(!holds_elements(one));
    let two = seq![Node::Element(inner)];
    assert(two[0] is Element);
    assert(holds_elements(two));
    assert(two.drop_last() =~= none);
    assert(children_text(none, pad + "  "@) =~= Seq::<char>::empty());
    assert(children_text(two, pad + "  "@) =~= elem_text(inner, pad + "  "@));
}

/// Attributes are written in their order, with their values in quotes, escaped.
pub proof fn law_attributes_are_written(a: Seq<(Seq<char>, Seq<char>)>, k: Seq<char>, v: Seq<char>)
    ensures
        attrs_text(a.push((k, v))) == attrs_text(a) + " "@ + k + "=\""@ + escaped_attr(v) + "\""@,
        attrs_text(Seq::empty()).len() == 0,
{
    assert(a.push((k, v)).drop_last() =~= a);
}

/// A document that could not be read begins anew, with a declaration and the root that
/// the first rule names; one that could keeps its root, and a declaration if it had one.
pub proof fn law_documents_are_written(
    had_prolog: bool,
    e: Elem,
    rules: Seq<PatternReplace>,
    interface: Seq<char>,
)
    requires
        rules.len() > 0,
    ensures
        xml_text(true, Some(e), rules, interface) == "<?xml version=\"1.0\" encoding=\"utf-8\"?>\n"@
            + elem_text(rules_elem(e, rules, interface), Seq::empty()),
        xml_text(false, Some(e), rules, interface) == elem_text(
            rules_elem(e, rules, interface),
            Seq::empty(),
        ),
        xml_text(had_prolog, None, rules, interface)
            == "<?xml version=\"1.0\" encoding=\"utf-8\"?>\n"@ + elem_text(
            rules_elem(
                (Elem {
                    name: text::split_on(rules[0].match_@, '.')[0],
                    attributes: Seq::empty(),
                    children: Seq::empty(),
                }),
                rules,
                interface,
            ),
            Seq::empty(),
        ),
{
    let body = elem_text(rules_elem(e, rules, interface), Seq::empty());
    assert(Seq::<char>::empty() + body =~= body);
}

/// A declaration is what begins with `<?xml`.
pub proof fn law_declarations(raw: Seq<u8>)
    ensures
        has_prolog(raw) <==> raw.len() >= 5 && raw[0] == 60 && raw[1] == 63 && raw[2] == 120
            && raw[3] == 109 && raw[4] == 108,
{
    let p = seq![60u8, 63u8, 120u8, 109u8, 108u8];
    if has_prolog(raw) {
        let s = raw.subrange(0, 5);
        assert(s[0] == p[0] && s[1] == p[1] && s[2] == p[2] && s[3] == p[3] && s[4] == p[4]);
    }
    if raw.len() >= 5 && raw[0] == 60 && raw[1] == 63 && raw[2] == 120 && raw[3] == 109 && raw[4]
        == 108 {
        assert(p =~= raw.subrange(0, 5));
    }
}

} // verus!
