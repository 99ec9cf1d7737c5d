//! INI files.
use vstd::prelude::*;
use crate::models::configuration::{PatternConfig, PatternReplace};
use crate::parser::properties;
use crate::parser::template;
use crate::parser::template::TemplatableConfig;
use crate::text;

verus! {

/// A section: its name and its entries in order.
pub type Section = (Seq<char>, Seq<(Seq<char>, Seq<char>)>);

// ---------------------------------------------------------------------------
// Definitions
// ---------------------------------------------------------------------------
/// The views of a list of sections.
pub open spec fn sections_view(v: Seq<(String, Vec<(String, String)>)>) -> Seq<Section> {
    v.map_values(|s: (String, Vec<(String, String)>)| (s.0@, text::pairs(s.1@)))
}

/// What one line adds. Blank lines, comments and lines that are neither a
/// section header nor an assignment add nothing.
pub open spec fn line_sections(s: Seq<Section>, line: Seq<char>) -> Seq<Section> {
    let t = text::trim(line);
    if t.len() == 0 || t[0] == ';' || t[0] == '#' {
        s
    } else if t[0] == '[' && t.last() == ']' {
        s.push((t.subrange(1, t.len() - 1), Seq::empty()))
    } else {
        let at = text::first(t, '=');
        if at < t.len() {
            let entry = (text::trim(t.take(at)), text::trim(t.skip(at + 1)));
            s.update(s.len() - 1, (s.last().0, s.last().1.push(entry)))
        } else {
            s
        }
    }
}

/// The sections of a file. The first one has no name and holds what stands
/// before the first header.
pub open spec fn sections(lines: Seq<Seq<char>>) -> Seq<Section>
    decreases lines.len(),
{
    if lines.len() == 0 {
        seq![(Seq::empty(), Seq::empty())]
    } else {
        line_sections(sections(lines.drop_last()), lines.last())
    }
}

/// Position of the first dot outside brackets at or after `i`; the length when
/// there is none. `depth` counts the brackets open at `i`.
pub open spec fn split_dot(m: Seq<char>, i: int, depth: int) -> int
    decreases m.len() - i,
{
    if i < 0 || i >= m.len() {
        m.len() as int
    } else if m[i] == '.' && depth <= 0 {
        i
    } else {
        split_dot(
            m,
            i + 1,
            if m[i] == '[' {
                depth + 1
            } else if m[i] == ']' {
                depth - 1
            } else {
                depth
            },
        )
    }
}

/// The section and the key that a match addresses: split at the first dot
/// outside brackets; without one, a key of the unnamed section.
pub open spec fn address(m: Seq<char>) -> (Seq<char>, Seq<char>) {
    let at = split_dot(m, 0, 0);
    if at < m.len() {
        (m.take(at), m.skip(at + 1))
    } else {
        (Seq::empty(), m)
    }
}

/// Position of the first section with this name; the length when there is
/// none.
pub open spec fn section_index(s: Seq<Section>, name: Seq<char>) -> int
    decreases s.len(),
{
    if s.len() == 0 || s[0].0 == name {
        0
    } else {
        1 + section_index(s.skip(1), name)
    }
}

/// The sections with a key set, the section created when it is new.
pub open spec fn put(s: Seq<Section>, name: Seq<char>, key: Seq<char>, value: Seq<char>) -> Seq<
    Section,
> {
    let i = section_index(s, name);
    if i < s.len() {
        s.update(i, (s[i].0, properties::put(s[i].1, key, value)))
    } else {
        s.push((name, properties::put(Seq::empty(), key, value)))
    }
}

/// The sections after one rule.
pub open spec fn rule_sections(s: Seq<Section>, rule: PatternReplace, interface: Seq<char>) -> Seq<
    Section,
> {
    let a = address(rule.match_@);
    put(s, a.0, a.1, template::lookup(rule.replace_with, interface))
}

/// The sections after all rules in order.
pub open spec fn rules_sections(
    s: Seq<Section>,
    rules: Seq<PatternReplace>,
    interface: Seq<char>,
) -> Seq<Section>
    decreases rules.len(),
{
    if rules.len() == 0 {
        s
    } else {
        rule_sections(rules_sections(s, rules.drop_last(), interface), rules.last(), interface)
    }
}

/// Entries as they are written.
pub open spec fn emit_entries(es: Seq<(Seq<char>, Seq<char>)>) -> Seq<char>
    decreases es.len(),
{
    if es.len() == 0 {
        Seq::empty()
    } else {
        emit_entries(es.drop_last()) + es.last().0 + seq!['='] + es.last().1 + seq!['\n']
    }
}

/// Section `i` as it is written. An empty section is left out, and so is the
/// header of an unnamed first one.
pub open spec fn emit_section(i: int, s: Section) -> Seq<char> {
    if s.1.len() == 0 {
        Seq::empty()
    } else {
        (if i > 0 || s.0.len() > 0 {
            seq!['['] + s.0 + seq![']', '\n']
        } else {
            Seq::empty()
        }) + emit_entries(s.1) + seq!['\n']
    }
}

/// The file as it is written.
pub open spec fn emit(s: Seq<Section>) -> Seq<char>
    decreases s.len(),
{
    if s.len() == 0 {
        Seq::empty()
    } else {
        emit(s.drop_last()) + emit_section(s.len() - 1, s.last())
    }
}

/// The rewritten file.
pub open spec fn ini_text(
    content: Seq<char>,
    rules: Seq<PatternReplace>,
    interface: Seq<char>,
) -> Seq<char> {
    emit(rules_sections(sections(text::lines(content)), rules, interface))
}

// ---------------------------------------------------------------------------
// Laws
// ---------------------------------------------------------------------------
proof fn lemma_section_index(s: Seq<Section>, name: Seq<char>)
    ensures
        0 <= section_index(s, name) <= s.len(),
        section_index(s, name) < s.len() ==> s[section_index(s, name)].0 == name,
    decreases s.len(),
{
    if s.len() > 0 && s[0].0 != name {
        lemma_section_index(s.skip(1), name);
    }
}

/// After a rule its section has its key with its value. No section is lost, and
/// all others stay as they were; so does every other entry of the section.
pub proof fn law_rule_sets_key(s: Seq<Section>, rule: PatternReplace, interface: Seq<char>)
    ensures
        ({
            let (name, key) = address(rule.match_@);
            let after = rule_sections(s, rule, interface);
            let i = section_index(s, name);
            let es = after[i].1;
            let k = properties::key_index(es, key);
            &&& 0 <= i < after.len()
            &&& s.len() <= after.len() <= s.len() + 1
            &&& after[i].0 == name
            &&& 0 <= k < es.len()
            &&& es[k] == (key, template::lookup(rule.replace_with, interface))
            &&& forall|j: int| 0 <= j < s.len() && j != i ==> after[j] == #[trigger] s[j]
            &&& i < s.len() ==> forall|j: int|
                0 <= j < s[i].1.len() && j != k ==> es[j] == #[trigger] s[i].1[j]
        }),
{
    let (name, key) = address(rule.match_@);
    let value = template::lookup(rule.replace_with, interface);
    lemma_section_index(s, name);
    let i = section_index(s, name);
    let before = if i < s.len() {
        s[i].1
    } else {
        Seq::empty()
    };
    properties::lemma_put(before, key, value);
}

/// Sections after some more lines.
spec fn read_on(s: Seq<Section>, lines: Seq<Seq<char>>) -> Seq<Section>
    decreases lines.len(),
{
    if lines.len() == 0 {
        s
    } else {
        read_on(line_sections(s, lines[0]), lines.skip(1))
    }
}

proof fn lemma_read_on_last(s: Seq<Section>, lines: Seq<Seq<char>>)
    requires
        lines.len() > 0,
    ensures
        read_on(s, lines) == line_sections(read_on(s, lines.drop_last()), lines.last()),
    decreases lines.len(),
{
    let next = line_sections(s, lines[0]);
    if lines.len() > 1 {
        lemma_read_on_last(next, lines.skip(1));
        assert(lines.skip(1).drop_last() =~= lines.drop_last().skip(1));
        assert(lines.drop_last()[0] == lines[0]);
        assert(read_on(s, lines.drop_last()) == read_on(next, lines.drop_last().skip(1)));
        assert(lines.skip(1).last() == lines.last());
    } else {
        assert(read_on(s, lines.drop_last()) == s);
        assert(read_on(next, lines.skip(1)) == next);
    }
}

proof fn lemma_sections_read_on(lines: Seq<Seq<char>>)
    ensures
        sections(lines) == read_on(seq![(Seq::empty(), Seq::empty())], lines),
    decreases lines.len(),
{
    if lines.len() > 0 {
        lemma_sections_read_on(lines.drop_last());
        lemma_read_on_last(seq![(Seq::empty(), Seq::empty())], lines);
    }
}

/// A text that no line feed ends and nothing is trimmed off.
pub open spec fn is_tight(s: Seq<char>) -> bool {
    &&& forall|i: int| 0 <= i < s.len() ==> #[trigger] s[i] != '\n'
    &&& s.len() > 0 ==> !text::is_space(s[0]) && !text::is_space(s.last())
}

/// An entry that is read back as it was written: its key does not end at an
/// equals sign before its own, and its line is neither a comment nor a header.
pub open spec fn is_writable(e: (Seq<char>, Seq<char>)) -> bool {
    let (k, v) = e;
    &&& is_tight(k) && is_tight(v)
    &&& forall|i: int| 0 <= i < k.len() ==> #[trigger] k[i] != '='
    &&& k.len() > 0 ==> k[0] != ';' && k[0] != '#'
    &&& !(k.len() > 0 && k[0] == '[' && v.len() > 0 && v.last() == ']')
}

/// A section that is read back as it was written.
pub open spec fn is_writable_section(s: Section) -> bool {
    &&& forall|i: int| 0 <= i < s.0.len() ==> #[trigger] s.0[i] != '\n'
    &&& forall|i: int| 0 <= i < s.1.len() ==> is_writable(#[trigger] s.1[i])
}

/// Sections without those that have no entries.
pub open spec fn filled(s: Seq<Section>) -> Seq<Section>
    decreases s.len(),
{
    if s.len() == 0 {
        Seq::empty()
    } else if s[0].1.len() == 0 {
        filled(s.skip(1))
    } else {
        seq![s[0]] + filled(s.skip(1))
    }
}

proof fn lemma_entry_is_read(s: Seq<Section>, e: (Seq<char>, Seq<char>))
    requires
        is_writable(e),
    ensures
        ({
            let l = e.0 + seq!['='] + e.1;
            &&& line_sections(s, l) == s.update(s.len() - 1, (s.last().0, s.last().1.push(e)))
            &&& forall|i: int| 0 <= i < l.len() ==> #[trigger] l[i] != '\n'
            &&& text::without_cr(l) == l
        }),
{
    let (k, v) = e;
    let l = k + seq!['='] + v;
    let n = k.len() as int;
    assert(l[n] == '=');
    assert forall|i: int| 0 <= i < l.len() implies #[trigger] l[i] != '\n' by {
        if i < n {
            assert(l[i] == k[i]);
        } else if i > n {
            assert(l[i] == v[i - n - 1]);
        }
    }
    if n > 0 {
        assert(l[0] == k[0]);
    }
    if v.len() > 0 {
        assert(l.last() == v.last());
    } else {
        assert(l.last() == '=');
    }
    assert(text::trim(l) == l);
    text::lemma_first(l, '=');
    let at = text::first(l, '=');
    if at < n {
        assert(l[at] == k[at]);
    }
    assert(at == n);
    assert(l.take(at) =~= k);
    assert(l.skip(at + 1) =~= v);
    assert(text::trim(k) == k && text::trim(v) == v);
}

proof fn lemma_entries_front(es: Seq<(Seq<char>, Seq<char>)>)
    requires
        es.len() > 0,
    ensures
        emit_entries(es) == es[0].0 + seq!['='] + es[0].1 + seq!['\n'] + emit_entries(es.skip(1)),
    decreases es.len(),
{
    let rest = es.skip(1);
    if es.len() == 1 {
        assert(es.drop_last() =~= Seq::<(Seq<char>, Seq<char>)>::empty());
        assert(rest =~= Seq::<(Seq<char>, Seq<char>)>::empty());
        assert(emit_entries(es.drop_last()) =~= Seq::<char>::empty());
        assert(emit_entries(rest) =~= Seq::<char>::empty());
    } else {
        lemma_entries_front(es.drop_last());
        assert(es.drop_last().skip(1) =~= rest.drop_last());
        assert(rest.last() == es.last());
    }
    assert(emit_entries(es) =~= es[0].0 + seq!['='] + es[0].1 + seq!['\n'] + emit_entries(rest));
}

proof fn lemma_entries_are_read(
    s: Seq<Section>,
    es: Seq<(Seq<char>, Seq<char>)>,
    rest: Seq<char>,
)
    requires
        s.len() > 0,
        forall|i: int| 0 <= i < es.len() ==> is_writable(#[trigger] es[i]),
    ensures
        read_on(s, text::lines(emit_entries(es) + rest)) == read_on(
            s.update(s.len() - 1, (s.last().0, s.last().1 + es)),
            text::lines(rest),
        ),
    decreases es.len(),
{
    if es.len() == 0 {
        assert(emit_entries(es) + rest =~= rest);
        assert(s.last().1 + es =~= s.last().1);
        assert(s.update(s.len() - 1, (s.last().0, s.last().1 + es)) =~= s);
    } else {
        let more = es.skip(1);
        let l = es[0].0 + seq!['='] + es[0].1;
        lemma_entries_front(es);
        lemma_entry_is_read(s, es[0]);
        text::lemma_first_line(l, emit_entries(more) + rest);
        assert(emit_entries(es) + rest =~= l + seq!['\n'] + (emit_entries(more) + rest));
        let all = text::lines(emit_entries(es) + rest);
        assert(all[0] == l);
        assert(all.skip(1) =~= text::lines(emit_entries(more) + rest));
        let next = line_sections(s, l);
        assert forall|i: int| 0 <= i < more.len() implies is_writable(#[trigger] more[i]) by {
            assert(more[i] == es[i + 1]);
        }
        lemma_entries_are_read(next, more, rest);
        assert(next.last().1 + more =~= s.last().1 + es);
        assert(next.update(next.len() - 1, (next.last().0, next.last().1 + more)) =~= s.update(
            s.len() - 1,
            (s.last().0, s.last().1 + es),
        ));
    }
}

/// The sections from number `i` on as they are written.
spec fn emit_from(i: int, s: Seq<Section>) -> Seq<char>
    decreases s.len(),
{
    if s.len() == 0 {
        Seq::empty()
    } else {
        emit_section(i, s[0]) + emit_from(i + 1, s.skip(1))
    }
}

proof fn lemma_emit_from_last(i: int, s: Seq<Section>)
    requires
        s.len() > 0,
    ensures
        emit_from(i, s) == emit_from(i, s.drop_last()) + emit_section(i + s.len() - 1, s.last()),
    decreases s.len(),
{
    if s.len() == 1 {
        assert(s.drop_last() =~= Seq::<Section>::empty());
        assert(s.skip(1) =~= Seq::<Section>::empty());
        assert(emit_from(i, s.drop_last()) =~= Seq::<char>::empty());
        assert(emit_from(i + 1, s.skip(1)) =~= Seq::<char>::empty());
    } else {
        lemma_emit_from_last(i + 1, s.skip(1));
        assert(s.skip(1).drop_last() =~= s.drop_last().skip(1));
        assert(s.drop_last()[0] == s[0]);
    }
    assert(emit_from(i, s) =~= emit_from(i, s.drop_last()) + emit_section(
        i + s.len() - 1,
        s.last(),
    ));
}

proof fn lemma_emit_from(s: Seq<Section>)
    ensures
        emit(s) == emit_from(0, s),
    decreases s.len(),
{
    if s.len() > 0 {
        lemma_emit_from(s.drop_last());
        lemma_emit_from_last(0, s);
    }
}

/// The entries of a section and the blank line behind them are read.
proof fn lemma_body_is_read(s: Seq<Section>, es: Seq<(Seq<char>, Seq<char>)>, rest: Seq<char>)
    requires
        s.len() > 0,
        forall|i: int| 0 <= i < es.len() ==> is_writable(#[trigger] es[i]),
    ensures
        read_on(s, text::lines(emit_entries(es) + seq!['\n'] + rest)) == read_on(
            s.update(s.len() - 1, (s.last().0, s.last().1 + es)),
            text::lines(rest),
        ),
{
    let blank = Seq::<char>::empty();
    let after = s.update(s.len() - 1, (s.last().0, s.last().1 + es));
    lemma_entries_are_read(s, es, seq!['\n'] + rest);
    assert(emit_entries(es) + seq!['\n'] + rest =~= emit_entries(es) + (seq!['\n'] + rest));
    text::lemma_first_line(blank, rest);
    assert(blank + seq!['\n'] + rest =~= seq!['\n'] + rest);
    let all = text::lines(seq!['\n'] + rest);
    assert(all[0] == blank);
    assert(all.skip(1) =~= text::lines(rest));
    assert(line_sections(after, blank) == after);
}

proof fn lemma_sections_are_read(done: Seq<Section>, i: int, s: Seq<Section>)
    requires
        done.len() > 0,
        i > 0,
        forall|j: int| 0 <= j < s.len() ==> is_writable_section(#[trigger] s[j]),
    ensures
        read_on(done, text::lines(emit_from(i, s))) == done + filled(s),
    decreases s.len(),
{
    if s.len() == 0 {
        assert(text::lines(emit_from(i, s)) =~= Seq::<Seq<char>>::empty());
        assert(done + filled(s) =~= done);
    } else {
        let more = s.skip(1);
        let rest = emit_from(i + 1, more);
        assert forall|j: int| 0 <= j < more.len() implies is_writable_section(
            #[trigger] more[j],
        ) by {
            assert(more[j] == s[j + 1]);
        }
        let (name, es) = s[0];
        if es.len() == 0 {
            assert(emit_from(i, s) =~= rest);
            lemma_sections_are_read(done, i + 1, more);
        } else {
            let head = seq!['['] + name + seq![']'];
            let body = emit_entries(es) + seq!['\n'] + rest;
            assert(is_writable_section(s[0]));
            assert forall|j: int| 0 <= j < head.len() implies #[trigger] head[j] != '\n' by {
                if 0 < j <= name.len() {
                    assert(head[j] == name[j - 1]);
                }
            }
            text::lemma_first_line(head, body);
            assert(emit_from(i, s) =~= head + seq!['\n'] + body);
            let all = text::lines(emit_from(i, s));
            assert(head.last() == ']' && head[0] == '[');
            assert(all[0] == head);
            assert(all.skip(1) =~= text::lines(body));
            assert(text::trim(head) == head);
            assert(head.subrange(1, head.len() - 1) =~= name);
            let opened = done.push((name, Seq::empty()));
            assert(line_sections(done, head) == opened);
            lemma_body_is_read(opened, es, rest);
            let next = done.push(s[0]);
            assert(Seq::<(Seq<char>, Seq<char>)>::empty() + es =~= es);
            assert(opened.update(opened.len() - 1, (name, Seq::empty() + es)) =~= next);
            lemma_sections_are_read(next, i + 1, more);
            assert(next + filled(more) =~= done + filled(s));
        }
    }
}

/// The first section of a file has no name, whatever rules are applied.
proof fn lemma_first_is_unnamed(
    lines: Seq<Seq<char>>,
    rules: Seq<PatternReplace>,
    interface: Seq<char>,
)
    ensures
        rules_sections(sections(lines), rules, interface).len() > 0,
        rules_sections(sections(lines), rules, interface)[0].0 == Seq::<char>::empty(),
    decreases rules.len(), lines.len(),
{
    if rules.len() > 0 {
        let before = rules_sections(sections(lines), rules.drop_last(), interface);
        lemma_first_is_unnamed(lines, rules.drop_last(), interface);
        lemma_section_index(before, address(rules.last().match_@).0);
    } else if lines.len() > 0 {
        lemma_first_is_unnamed(lines.drop_last(), rules, interface);
    }
}

/// A rewritten file, read again, has the sections that it was rewritten to,
/// except for named ones without entries, which are not written.
pub proof fn law_rewritten_file_reads_back(
    content: Seq<char>,
    rules: Seq<PatternReplace>,
    interface: Seq<char>,
)
    requires
        ({
            let s = rules_sections(sections(text::lines(content)), rules, interface);
            forall|i: int| 0 <= i < s.len() ==> is_writable_section(#[trigger] s[i])
        }),
    ensures
        ({
            let s = rules_sections(sections(text::lines(content)), rules, interface);
            sections(text::lines(ini_text(content, rules, interface))) == seq![s[0]] + filled(
                s.skip(1),
            )
        }),
{
    let s = rules_sections(sections(text::lines(content)), rules, interface);
    let out = ini_text(content, rules, interface);
    let none: Seq<Section> = seq![(Seq::empty(), Seq::empty())];
    let more = s.skip(1);
    let rest = emit_from(1, more);
    lemma_first_is_unnamed(text::lines(content), rules, interface);
    lemma_emit_from(s);
    lemma_sections_read_on(text::lines(out));
    assert(is_writable_section(s[0]));
    assert forall|j: int| 0 <= j < more.len() implies is_writable_section(#[trigger] more[j]) by {
        assert(more[j] == s[j + 1]);
    }
    if s[0].1.len() == 0 {
        assert(out =~= rest);
        assert(s[0].1 =~= Seq::<(Seq<char>, Seq<char>)>::empty());
        assert(none =~= seq![s[0]]);
    } else {
        assert(out =~= emit_entries(s[0].1) + seq!['\n'] + rest);
        lemma_body_is_read(none, s[0].1, rest);
        assert(Seq::<(Seq<char>, Seq<char>)>::empty() + s[0].1 =~= s[0].1);
        assert(none.update(0, (none.last().0, none.last().1 + s[0].1)) =~= seq![s[0]]);
    }
    lemma_sections_are_read(seq![s[0]], 1, more);
}

// ---------------------------------------------------------------------------
// Executable operations
// ---------------------------------------------------------------------------
proof fn lemma_sections_nonempty(lines: Seq<Seq<char>>)
    ensures
        sections(lines).len() > 0,
    decreases lines.len(),
{
    if lines.len() > 0 {
        lemma_sections_nonempty(lines.drop_last());
    }
}

/// Adds what one line holds.
fn read_line(s: &mut Vec<(String, Vec<(String, String)>)>, line: &[char])
    requires
        old(s)@.len() > 0,
    ensures
        sections_view(final(s)@) == line_sections(sections_view(old(s)@), line@),
{
    let ghost before = sections_view(s@);
    let t = text::trim_chars(line);
    if t.len() == 0 || t[0] == ';' || t[0] == '#' {
        return;
    }
    if t[0] == '[' && t[t.len() - 1] == ']' {
        let name = text::slice_of(t.as_slice(), 1, t.len() - 1);
        let entries: Vec<(String, String)> = Vec::new();
        assert(text::pairs(entries@) =~= Seq::empty());
        s.push((text::string_of(name.as_slice()), entries));
        assert(sections_view(s@) =~= before.push((name@, Seq::empty())));
        return;
    }
    assert(t@.skip(0) =~= t@);
    let at: usize = text::find_from(t.as_slice(), 0, '=');
    if at < t.len() {
        let k = text::slice_of(t.as_slice(), 0, at);
        let v = text::slice_of(t.as_slice(), at + 1, t.len());
        assert(k@ =~= t@.take(at as int));
        assert(v@ =~= t@.skip(at + 1));
        let k = text::trim_chars(k.as_slice());
        let v = text::trim_chars(v.as_slice());
        let last: usize = s.len() - 1;
        let ghost es = text::pairs(s@[last as int].1@);
        s[last].1.push((text::string_of(k.as_slice()), text::string_of(v.as_slice())));
        assert(text::pairs(s@[last as int].1@) =~= es.push((k@, v@)));
        assert(sections_view(s@) =~= before.update(
            last as int,
            (before.last().0, before.last().1.push((k@, v@))),
        ));
    }
}

/// The section and the key that a match addresses.
pub fn split_address(m: &str) -> (r: (String, String))
    ensures
        (r.0@, r.1@) == address(m@),
{
    let a = text::chars_of(m);
    let mut i: usize = 0;
    let mut depth: i128 = 0;
    while i < a.len()
        invariant
            a@ == m@,
            i <= a.len(),
            -(i as int) <= depth <= i,
            split_dot(m@, 0, 0) == split_dot(m@, i as int, depth as int),
        decreases a.len() - i,
    {
        let c: char = a[i];
        if c == '.' && depth <= 0 {
            let s = text::slice_of(a.as_slice(), 0, i);
            let k = text::slice_of(a.as_slice(), i + 1, a.len());
            assert(s@ =~= m@.take(i as int));
            assert(k@ =~= m@.skip(i + 1));
            return (text::string_of(s.as_slice()), text::string_of(k.as_slice()));
        }
        if c == '[' {
            depth = depth + 1;
        } else if c == ']' {
            depth = depth - 1;
        }
        i = i + 1;
    }
    (String::new(), m.to_owned())
}

/// Position of the first section with this name.
fn find_section(s: &Vec<(String, Vec<(String, String)>)>, name: &str) -> (r: usize)
    ensures
        r == section_index(sections_view(s@), name@),
        r <= s@.len(),
{
    let ghost all = sections_view(s@);
    let mut i: usize = 0;
    assert(all.skip(0) =~= all);
    while i < s.len() && !text::same(s[i].0.as_str(), name)
        invariant
            i <= s.len(),
            all == sections_view(s@),
            section_index(all, name@) == i + section_index(all.skip(i as int), name@),
        decreases s.len() - i,
    {
        assert(all.skip(i as int)[0] == all[i as int]);
        assert(all.skip(i as int).skip(1) =~= all.skip(i + 1));
        i = i + 1;
    }
    if i < s.len() {
        assert(all.skip(i as int)[0] == all[i as int]);
    }
    i
}

/// Applies one rule.
fn apply_rule(
    s: &mut Vec<(String, Vec<(String, String)>)>,
    rule: &PatternReplace,
    daemon: &TemplatableConfig,
)
    ensures
        sections_view(final(s)@) == rule_sections(
            sections_view(old(s)@),
            *rule,
            daemon.interface@,
        ),
{
    let ghost before = sections_view(s@);
    let (name, key) = split_address(rule.match_.as_str());
    let value = template::lookup_configuration_value(rule, daemon);
    let i: usize = find_section(s, name.as_str());
    if i < s.len() {
        properties::put_entry(&mut s[i].1, key.as_str(), value);
        assert(sections_view(s@) =~= before.update(
            i as int,
            (before[i as int].0, properties::put(before[i as int].1, key@, value@)),
        ));
    } else {
        let mut entries: Vec<(String, String)> = Vec::new();
        assert(text::pairs(entries@) =~= Seq::empty());
        properties::put_entry(&mut entries, key.as_str(), value);
        s.push((name, entries));
        assert(sections_view(s@) =~= before.push(
            (name@, properties::put(Seq::empty(), key@, value@)),
        ));
    }
}

/// Writes entries.
fn write_entries(out: &mut String, es: &Vec<(String, String)>)
    ensures
        final(out)@ == old(out)@ + emit_entries(text::pairs(es@)),
{
    let ghost start = out@;
    let ghost all = text::pairs(es@);
    let mut i: usize = 0;
    assert(start + Seq::<char>::empty() =~= start);
    while i < es.len()
        invariant
            i <= es.len(),
            all == text::pairs(es@),
            out@ == start + emit_entries(all.take(i as int)),
        decreases es.len() - i,
    {
        assert(all.take(i + 1).drop_last() =~= all.take(i as int));
        assert(all.take(i + 1).last() == (es@[i as int].0@, es@[i as int].1@));
        out.append(es[i].0.as_str());
        out.push('=');
        out.append(es[i].1.as_str());
        out.push('\n');
        assert(out@ =~= start + emit_entries(all.take(i + 1)));
        i = i + 1;
    }
    assert(all.take(i as int) =~= all);
}

/// Writes the file.
fn write_sections(s: &Vec<(String, Vec<(String, String)>)>) -> (r: String)
    ensures
        r@ == emit(sections_view(s@)),
{
    let ghost all = sections_view(s@);
    let mut out = String::new();
    let mut i: usize = 0;
    while i < s.len()
        invariant
            i <= s.len(),
            all == sections_view(s@),
            out@ == emit(all.take(i as int)),
        decreases s.len() - i,
    {
        let ghost before = out@;
        assert(all.take(i + 1).drop_last() =~= all.take(i as int));
        assert(all.take(i + 1).last() == (s@[i as int].0@, text::pairs(s@[i as int].1@)));
        let name = s[i].0.as_str();
        if s[i].1.len() > 0 {
            if i > 0 || !name.is_empty() {
                out.push('[');
                out.append(name);
                out.push(']');
                out.push('\n');
            }
            write_entries(&mut out, &s[i].1);
            out.push('\n');
        }
        assert(out@ =~= before + emit_section(i as int, all[i as int]));
        i = i + 1;
    }
    assert(all.take(i as int) =~= all);
    out
}

/// Rewrites an INI file: `section.key` addresses a key of a section, dots in
/// brackets and behind the first one belong to the key. Comments and spacing
/// are not kept.
pub fn parse_ini_file(raw: &[u8], config: &PatternConfig, daemon: &TemplatableConfig) -> (r: String)
    ensures
        r@ == ini_text(text::utf8_lossy(raw@), config.replace@, daemon.interface@),
{
    let content = text::from_utf8_lossy(raw);
    let lines = text::lines_of(content.as_str());
    let ghost all = lines@.map_values(|v: Vec<char>| v@);
    let mut s: Vec<(String, Vec<(String, String)>)> = Vec::new();
    let none: Vec<(String, String)> = Vec::new();
    assert(text::pairs(none@) =~= Seq::empty());
    s.push((String::new(), none));
    assert(sections_view(s@) =~= sections(all.take(0)));
    let mut i: usize = 0;
    while i < lines.len()
        invariant
            i <= lines.len(),
            all == lines@.map_values(|v: Vec<char>| v@),
            sections_view(s@) == sections(all.take(i as int)),
        decreases lines.len() - i,
    {
        assert(all.take(i + 1).drop_last() =~= all.take(i as int));
        assert(all.take(i + 1).last() == lines@[i as int]@);
        proof {
            lemma_sections_nonempty(all.take(i as int));
            assert(s@.len() == sections_view(s@).len());
        }
        read_line(&mut s, lines[i].as_slice());
        i = i + 1;
    }
    assert(all.take(i as int) =~= all);
    let ghost start = sections_view(s@);
    let mut j: usize = 0;
    while j < config.replace.len()
        invariant
            j <= config.replace.len(),
            sections_view(s@) == rules_sections(
                start,
                config.replace@.take(j as int),
                daemon.interface@,
            ),
        decreases config.replace.len() - j,
    {
        assert(config.replace@.take(j + 1).drop_last() =~= config.replace@.take(j as int));
        apply_rule(&mut s, &config.replace[j], daemon);
        j = j + 1;
    }
    assert(config.replace@.take(j as int) =~= config.replace@);
    write_sections(&s)
}

/// A header opens a section, an assignment goes to the last one, comments and blank
/// lines are passed over; white space around names, keys and values does not count.
pub proof fn law_lines_of_files(
    s: Seq<Section>,
    name: Seq<char>,
    key: Seq<char>,
    value: Seq<char>,
    blank: Seq<char>,
)
    requires
        s.len() > 0,
        is_tight(key) && is_tight(value) && key.len() > 0 && value.len() > 0,
        forall|i: int| 0 <= i < key.len() ==> #[trigger] key[i] != '=',
        key[0] != ';' && key[0] != '#' && key[0] != '[',
        forall|i: int| 0 <= i < blank.len() ==> text::is_space(#[trigger] blank[i]),
    ensures
        line_sections(s, blank + (seq!['['] + name + seq![']'])) == s.push((name, Seq::empty())),
        line_sections(s, key + blank + seq!['='] + blank + value) == s.update(
            s.len() - 1,
            (s.last().0, s.last().1.push((key, value))),
        ),
        line_sections(s, seq![';'] + value) == s,
        line_sections(s, seq!['#'] + value) == s,
        line_sections(s, key) == s,
{
    let none = Seq::<char>::empty();
    // a header
    let h = seq!['['] + name + seq![']'];
    assert(!text::is_space('[') && !text::is_space(']') && !text::is_space(';') && !text::is_space(
        '#',
    ));
    text::law_trim(blank, h, none);
    assert(blank + h + none =~= blank + h);
    assert(h[0] == '[' && h.last() == ']');
    assert(h.subrange(1, h.len() - 1) =~= name);
    // an assignment
    let left = key + blank;
    let right = blank + value;
    let l = key + blank + seq!['='] + blank + value;
    assert(l =~= left + seq!['='] + right);
    text::law_trim(none, l, none);
    assert(none + l + none =~= l);
    assert(l[0] == key[0] && l.last() == value.last());
    assert(text::trim(l) == l);
    assert forall|i: int| 0 <= i < left.len() implies #[trigger] left[i] != '=' by {
        if i < key.len() {
            assert(left[i] == key[i]);
        } else {
            assert(text::is_space(blank[i - key.len()]));
            assert(left[i] == blank[i - key.len()]);
            assert(!text::is_space('='));
        }
    }
    text::law_first(left, '=', right);
    assert(l.take(left.len() as int) =~= left);
    assert(l.skip(left.len() as int + 1) =~= right);
    text::law_trim(none, key, blank);
    assert(none + key + blank =~= left);
    text::law_trim(blank, value, none);
    assert(blank + value + none =~= right);
    // comments
    let c = seq![';'] + value;
    let d = seq!['#'] + value;
    assert(c.last() == value.last() && d.last() == value.last());
    text::law_trim(none, c, none);
    text::law_trim(none, d, none);
    assert(none + c + none =~= c && none + d + none =~= d);
    // neither
    text::law_trim(none, key, none);
    assert(none + key + none =~= key);
    text::law_first(key, '=', none);
}

proof fn lemma_split_dot(m: Seq<char>, i: int, n: int)
    requires
        0 <= i <= n <= m.len(),
        forall|j: int| i <= j < n ==> #[trigger] m[j] != '.' && m[j] != '[' && m[j] != ']',
        n < m.len() ==> m[n] == '.',
    ensures
        split_dot(m, i, 0) == n,
    decreases n - i,
{
    if i < n {
        lemma_split_dot(m, i + 1, n);
    }
}

/// A match is a section and a key with a dot between them; without a dot it is a key of
/// the section without a name.
pub proof fn law_addresses(name: Seq<char>, key: Seq<char>)
    requires
        forall|i: int|
            0 <= i < name.len() ==> #[trigger] name[i] != '.' && name[i] != '[' && name[i] != ']',
    ensures
        address(name + seq!['.'] + key) == (name, key),
        address(name) == (Seq::<char>::empty(), name),
{
    let m = name + seq!['.'] + key;
    assert forall|j: int| 0 <= j < name.len() implies #[trigger] m[j] != '.' && m[j] != '[' && m[j]
        != ']' by {
        assert(m[j] == name[j]);
    }
    lemma_split_dot(m, 0, name.len() as int);
    lemma_split_dot(name, 0, name.len() as int);
    assert(m.take(name.len() as int) =~= name);
    assert(m.skip(name.len() as int + 1) =~= key);
}

proof fn lemma_split_bracket(m: Seq<char>, i: int, n: int)
    requires
        0 < i <= n < m.len(),
        forall|j: int| i <= j < n ==> #[trigger] m[j] != '[' && m[j] != ']',
        m[n] == ']',
    ensures
        split_dot(m, i, 1) == split_dot(m, n + 1, 0),
    decreases n - i,
{
    if i < n {
        lemma_split_bracket(m, i + 1, n);
    }
}

/// Dots inside brackets part nothing.
pub proof fn law_bracketed_addresses(name: Seq<char>, key: Seq<char>)
    requires
        forall|i: int| 0 <= i < name.len() ==> #[trigger] name[i] != '[' && name[i] != ']',
    ensures
        address(seq!['['] + name + seq![']', '.'] + key) == (seq!['['] + name + seq![']'], key),
{
    let m = seq!['['] + name + seq![']', '.'] + key;
    let n = name.len() as int + 1;
    assert(m[0] == '[' && m[n] == ']' && m[n + 1] == '.');
    assert forall|j: int| 1 <= j < n implies #[trigger] m[j] != '[' && m[j] != ']' by {
        assert(m[j] == name[j - 1]);
    }
    lemma_split_bracket(m, 1, n);
    assert(split_dot(m, 0, 0) == split_dot(m, 1, 1));
    assert(split_dot(m, n + 1, 0) == n + 1);
    assert(m.take(n + 1) =~= seq!['['] + name + seq![']']);
    assert(m.skip(n + 2) =~= key);
}

/// Rules apply in order, each to what those before it have left.
pub proof fn law_rules_apply_in_order(
    s: Seq<Section>,
    rules: Seq<PatternReplace>,
    rule: PatternReplace,
    interface: Seq<char>,
)
    ensures
        rules_sections(s, rules.push(rule), interface) == rule_sections(
            rules_sections(s, rules, interface),
            rule,
            interface,
        ),
        rules_sections(s, Seq::empty(), interface) == s,
{
    assert(rules.push(rule).drop_last() =~= rules);
}

/// How sections are written: the header in brackets, then a line for each entry, then a
/// blank line; empty sections are left out, and the first has no header without a name.
pub proof fn law_how_sections_are_written(
    es: Seq<(Seq<char>, Seq<char>)>,
    k: Seq<char>,
    v: Seq<char>,
    s: Seq<Section>,
    name: Seq<char>,
)
    ensures
        emit_entries(es.push((k, v))) == emit_entries(es) + k + seq!['='] + v + seq!['\n'],
        emit_entries(Seq::empty()).len() == 0,
        es.len() == 0 ==> emit(s.push((name, es))) == emit(s),
        es.len() > 0 && s.len() > 0 ==> emit(s.push((name, es))) == emit(s) + (seq!['['] + name
            + seq![']', '\n'] + emit_entries(es) + seq!['\n']),
        es.len() > 0 ==> emit(seq![(Seq::<char>::empty(), es)]) == emit_entries(es) + seq!['\n'],
{
    assert(es.push((k, v)).drop_last() =~= es);
    let t = s.push((name, es));
    assert(t.drop_last() =~= s);
    if es.len() == 0 {
        assert(emit(s) + emit_section(s.len() as int, (name, es)) =~= emit(s));
    }
    let one = seq![(Seq::<char>::empty(), es)];
    assert(one.drop_last() =~= Seq::<Section>::empty());
    assert(emit(one.drop_last()) =~= Seq::<char>::empty());
    if es.len() > 0 {
        assert(emit(one) =~= emit_entries(es) + seq!['\n']);
    }
}

} // verus!
