//! Plain text files: lines replaced by their start.
use vstd::prelude::*;
use crate::models::configuration::{PatternConfig, PatternReplace};
use crate::parser::template;
use crate::parser::template::TemplatableConfig;
use crate::text;

verus! {

/// Position of the first line feed; the length when there is none.
pub open spec fn line_end(raw: Seq<u8>) -> int
    decreases raw.len(),
{
    if raw.len() == 0 || raw[0] == 10 {
        0
    } else {
        1 + line_end(raw.skip(1))
    }
}

/// The last rule whose match the line starts with.
pub open spec fn last_rule(line: Seq<char>, rules: Seq<PatternReplace>) -> Option<PatternReplace>
    decreases rules.len(),
{
    if rules.len() == 0 {
        None
    } else if rules.last().match_@.is_prefix_of(line) {
        Some(rules.last())
    } else {
        last_rule(line, rules.drop_last())
    }
}

/// What is written for one line: the value of the last rule that applies, else
/// the line as it was.
pub open spec fn line_text(line: Seq<u8>, rules: Seq<PatternReplace>, interface: Seq<char>) -> Seq<
    u8,
> {
    match last_rule(text::without_cr(text::utf8_lossy(line)), rules) {
        Some(rule) => vstd::utf8::encode_utf8(template::lookup(rule.replace_with, interface)),
        None => line,
    }
}

/// The rewritten file: every line on its own, line feeds kept.
pub open spec fn plain_text(raw: Seq<u8>, rules: Seq<PatternReplace>, interface: Seq<char>) -> Seq<
    u8,
>
    decreases raw.len(),
{
    let i = line_end(raw);
    if raw.len() == 0 {
        Seq::empty()
    } else if i < 0 || i >= raw.len() {
        line_text(raw, rules, interface)
    } else {
        line_text(raw.take(i), rules, interface) + seq![10u8] + plain_text(
            raw.skip(i + 1),
            rules,
            interface,
        )
    }
}

/// Where the line that starts at `from` ends.
fn find_line_end(raw: &[u8], from: usize) -> (r: usize)
    requires
        from <= raw@.len(),
    ensures
        r == from + line_end(raw@.skip(from as int)),
        from <= r <= raw@.len(),
{
    let mut i: usize = from;
    while i < raw.len() && raw[i] != 10
        invariant
            from <= i <= raw.len(),
            from + line_end(raw@.skip(from as int)) == i + line_end(raw@.skip(i as int)),
        decreases raw.len() - i,
    {
        assert(raw@.skip(i as int).skip(1) =~= raw@.skip(i + 1));
        i = i + 1;
    }
    i
}

/// A copy of the bytes `from..to`.
fn bytes_between(raw: &[u8], from: usize, to: usize) -> (r: Vec<u8>)
    requires
        from <= to <= raw@.len(),
    ensures
        r@ == raw@.subrange(from as int, to as int),
{
    let mut out: Vec<u8> = Vec::new();
    let mut i: usize = from;
    while i < to
        invariant
            from <= i <= to <= raw@.len(),
            out@ == raw@.subrange(from as int, i as int),
        decreases to - i,
    {
        out.push(raw[i]);
        i = i + 1;
    }
    out
}

/// What is written for one line.
pub fn rewrite_line(line: &[u8], rules: &Vec<PatternReplace>, daemon: &TemplatableConfig) -> (r: Vec<
    u8,
>)
    ensures
        r@ == line_text(line@, rules@, daemon.interface@),
{
    let decoded = text::from_utf8_lossy(line);
    let chars = text::chars_of(decoded.as_str());
    let n: usize = if chars.len() > 0 && chars[chars.len() - 1] == '\r' {
        chars.len() - 1
    } else {
        chars.len()
    };
    let trimmed = text::slice_of(chars.as_slice(), 0, n);
    assert(trimmed@ =~= text::without_cr(decoded@));
    let mut i: usize = rules.len();
    assert(rules@.take(i as int) =~= rules@);
    while i > 0
        invariant
            i <= rules.len(),
            trimmed@ == text::without_cr(text::utf8_lossy(line@)),
            last_rule(trimmed@, rules@) == last_rule(trimmed@, rules@.take(i as int)),
        decreases i,
    {
        assert(rules@.take(i as int).last() == rules@[i - 1]);
        assert(rules@.take(i as int).drop_last() =~= rules@.take(i - 1));
        let m = text::chars_of(rules[i - 1].match_.as_str());
        if text::has_prefix(trimmed.as_slice(), m.as_slice()) {
            let value = template::lookup_configuration_value(&rules[i - 1], daemon);
            return text::bytes_of(value.as_str());
        }
        i = i - 1;
    }
    let out = bytes_between(line, 0, line.len());
    assert(out@ =~= line@);
    out
}

/// Rewrites a plain text file: a line that starts with a rule's match is
/// replaced by the rule's value, the last such rule winning.
pub fn parse_text_file(raw: &[u8], config: &PatternConfig, daemon: &TemplatableConfig) -> (r: Vec<
    u8,
>)
    ensures
        r@ == plain_text(raw@, config.replace@, daemon.interface@),
{
    let mut out: Vec<u8> = Vec::new();
    let mut from: usize = 0;
    assert(raw@.skip(0) =~= raw@);
    assert(out@ + plain_text(raw@, config.replace@, daemon.interface@) =~= plain_text(
        raw@,
        config.replace@,
        daemon.interface@,
    ));
    while from < raw.len()
        invariant
            from <= raw.len(),
            out@ + plain_text(raw@.skip(from as int), config.replace@, daemon.interface@)
                == plain_text(raw@, config.replace@, daemon.interface@),
        decreases raw.len() - from,
    {
        let ghost before = out@;
        let ghost rest = raw@.skip(from as int);
        let end: usize = find_line_end(raw, from);
        let line = bytes_between(raw, from, end);
        assert(line@ =~= rest.take(end - from));
        let mut new_line = rewrite_line(line.as_slice(), &config.replace, daemon);
        let ghost written = new_line@;
        out.append(&mut new_line);
        if end == raw.len() {
            assert(rest.take(end - from) =~= rest);
            return out;
        }
        out.push(10);
        assert(rest.skip(end - from + 1) =~= raw@.skip(end + 1));
        assert(out@ =~= before + written + seq![10u8]);
        assert(out@ + plain_text(raw@.skip(end + 1), config.replace@, daemon.interface@) =~= before
            + plain_text(rest, config.replace@, daemon.interface@));
        from = end + 1;
    }
    assert(plain_text(raw@.skip(from as int), config.replace@, daemon.interface@) =~= Seq::empty());
    assert(out@ + Seq::<u8>::empty() =~= out@);
    out
}

/// Of the rules that a line starts like, the last one counts.
pub proof fn law_last_rule_counts(line: Seq<char>, rules: Seq<PatternReplace>, rule: PatternReplace)
    ensures
        rule.match_@.is_prefix_of(line) ==> last_rule(line, rules.push(rule)) == Some(rule),
        !rule.match_@.is_prefix_of(line) ==> last_rule(line, rules.push(rule)) == last_rule(
            line,
            rules,
        ),
        last_rule(line, Seq::empty()) is None,
{
    assert(rules.push(rule).drop_last() =~= rules);
}

proof fn lemma_line_end(l: Seq<u8>, rest: Seq<u8>)
    requires
        forall|i: int| 0 <= i < l.len() ==> #[trigger] l[i] != 10,
    ensures
        line_end(l) == l.len(),
        line_end(l + seq![10u8] + rest) == l.len(),
    decreases l.len(),
{
    let s = l + seq![10u8] + rest;
    if l.len() > 0 {
        assert(l[0] != 10);
        assert(s[0] == l[0]);
        let t = l.skip(1);
        assert(s.skip(1) =~= t + seq![10u8] + rest);
        assert forall|i: int| 0 <= i < t.len() implies #[trigger] t[i] != 10 by {
            assert(t[i] == l[i + 1]);
        }
        lemma_line_end(t, rest);
    }
}

/// A file is rewritten line by line: a line that starts like a rule becomes the value of
/// that rule, any other stays as it is, and so do the line feeds.
pub proof fn law_lines_are_rewritten(
    l: Seq<u8>,
    rest: Seq<u8>,
    rules: Seq<PatternReplace>,
    interface: Seq<char>,
)
    requires
        forall|i: int| 0 <= i < l.len() ==> #[trigger] l[i] != 10,
    ensures
        ({
            let now = match last_rule(text::without_cr(text::utf8_lossy(l)), rules) {
                Some(rule) => vstd::utf8::encode_utf8(
                    template::lookup(rule.replace_with, interface),
                ),
                None => l,
            };
            &&& plain_text(l + seq![10u8] + rest, rules, interface) == now + seq![10u8] + plain_text(
                rest,
                rules,
                interface,
            )
            &&& l.len() > 0 ==> plain_text(l, rules, interface) == now
        }),
{
    lemma_line_end(l, rest);
    let s = l + seq![10u8] + rest;
    assert(s.take(l.len() as int) =~= l);
    assert(s.skip(l.len() as int + 1) =~= rest);
}

/// Without rules a file stays as it is.
pub proof fn law_no_rules_no_change(raw: Seq<u8>, interface: Seq<char>)
    ensures
        plain_text(raw, Seq::empty(), interface) == raw,
    decreases raw.len(),
{
    if raw.len() > 0 {
        lemma_line_end_bounds(raw);
        let i = line_end(raw);
        if i < raw.len() {
            law_no_rules_no_change(raw.skip(i + 1), interface);
            assert(raw[i] == 10);
            assert(raw =~= raw.take(i) + seq![10u8] + raw.skip(i + 1));
        }
    }
}

proof fn lemma_line_end_bounds(raw: Seq<u8>)
    ensures
        0 <= line_end(raw) <= raw.len(),
        line_end(raw) < raw.len() ==> raw[line_end(raw)] == 10,
    decreases raw.len(),
{
    if raw.len() > 0 && raw[0] != 10 {
        lemma_line_end_bounds(raw.skip(1));
    }
}

} // verus!
