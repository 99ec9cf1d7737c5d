//! Java properties files.
use vstd::prelude::*;
use crate::models::configuration::{PatternConfig, PatternReplace};
use crate::numbers;
use crate::parser::template;
use crate::parser::template::TemplatableConfig;
use crate::text;

verus! {

// ---------------------------------------------------------------------------
// Definitions
// ---------------------------------------------------------------------------
/// The lines of the leading comment block: blank lines and `#` comments.
pub open spec fn header(lines: Seq<Seq<char>>) -> Seq<char>
    decreases lines.len(),
{
    if lines.len() == 0 {
        Seq::empty()
    } else {
        let t = text::trim_start(lines[0]);
        if t.len() == 0 || t[0] == '#' {
            lines[0].push('\n') + header(lines.skip(1))
        } else {
            Seq::empty()
        }
    }
}

/// A line that holds no entry.
pub open spec fn is_comment(line: Seq<char>) -> bool {
    let t = text::trim_start(line);
    t.len() == 0 || t[0] == '#' || t[0] == '!'
}

pub open spec fn is_separator(c: char) -> bool {
    c == '=' || c == ':' || c == ' ' || c == '\t' || c == '\x0c'
}

/// Position of the first separator at or after `i` that no backslash escapes.
pub open spec fn separator(line: Seq<char>, i: int) -> int
    decreases line.len() - i,
{
    if i < 0 || i >= line.len() {
        line.len() as int
    } else if line[i] == '\\' {
        if i + 1 >= line.len() {
            line.len() as int
        } else {
            separator(line, i + 2)
        }
    } else if is_separator(line[i]) {
        i
    } else {
        separator(line, i + 1)
    }
}

/// The characters taken by a `\u` escape: up to four.
pub open spec fn unicode_digits(s: Seq<char>) -> Seq<char> {
    if s.len() < 6 {
        s.skip(2)
    } else {
        s.subrange(2, 6)
    }
}

/// The character a `\u` escape denotes, if any.
pub open spec fn unicode_char(digits: Seq<char>) -> Seq<char> {
    match numbers::parse_hex(digits) {
        Some(cp) => if cp <= 0xd7ff || (0xe000 <= cp && cp <= 0x10ffff) {
            seq![cp as char]
        } else {
            Seq::empty()
        },
        None => Seq::empty(),
    }
}

/// What the character behind a backslash stands for.
pub open spec fn escaped_char(c: char) -> char {
    if c == 'n' {
        '\n'
    } else if c == 'r' {
        '\r'
    } else if c == 't' {
        '\t'
    } else if c == 'f' {
        '\x0c'
    } else {
        c
    }
}

/// A key or value with its escapes resolved.
pub open spec fn unescape(s: Seq<char>) -> Seq<char>
    decreases s.len(),
{
    if s.len() == 0 {
        Seq::empty()
    } else if s[0] != '\\' {
        seq![s[0]] + unescape(s.skip(1))
    } else if s.len() == 1 {
        seq!['\\']
    } else if s[1] == 'u' {
        unicode_char(unicode_digits(s)) + unescape(
            s.skip(if s.len() < 6 {
                s.len() as int
            } else {
                6
            }),
        )
    } else {
        seq![escaped_char(s[1])] + unescape(s.skip(2))
    }
}

/// The key on a line.
pub open spec fn entry_key(line: Seq<char>) -> Seq<char> {
    unescape(text::trim(line.take(separator(line, 0))))
}

/// The value on a line as it is written: behind the separator, without leading
/// white space.
pub open spec fn raw_value(line: Seq<char>) -> Seq<char> {
    let rest = line.skip(separator(line, 0));
    let rest = if rest.len() > 0 && (rest[0] == '=' || rest[0] == ':') {
        rest.skip(1)
    } else {
        rest
    };
    text::trim_start(rest)
}

/// The number of backslashes at the end of a text.
pub open spec fn backslashes(s: Seq<char>) -> nat
    decreases s.len(),
{
    if s.len() > 0 && s.last() == '\\' {
        1 + backslashes(s.drop_last())
    } else {
        0
    }
}

/// Whether a value as it is written goes on with the next line: it ends in a
/// backslash that no other one escapes.
pub open spec fn goes_on(raw: Seq<char>) -> bool {
    backslashes(raw) % 2 == 1
}

/// The part of a value that stands on one line, without the backslash that makes
/// it go on.
pub open spec fn value_part(raw: Seq<char>) -> Seq<char> {
    unescape(
        if goes_on(raw) {
            raw.drop_last()
        } else {
            raw
        },
    )
}

/// The entries of a file, in order. `open` is the entry whose value goes on
/// with the next line.
pub open spec fn entries(
    lines: Seq<Seq<char>>,
    open: Option<(Seq<char>, Seq<char>)>,
) -> Seq<(Seq<char>, Seq<char>)>
    decreases lines.len(),
{
    if lines.len() == 0 {
        match open {
            Some(e) => seq![e],
            None => Seq::empty(),
        }
    } else if open is None && is_comment(lines[0]) {
        entries(lines.skip(1), None)
    } else {
        let (k, before, raw) = match open {
            Some(e) => (e.0, e.1, text::trim_start(lines[0])),
            None => (entry_key(lines[0]), Seq::empty(), raw_value(lines[0])),
        };
        let v = before + value_part(raw);
        if goes_on(raw) {
            entries(lines.skip(1), Some((k, v)))
        } else {
            seq![(k, v)] + entries(lines.skip(1), None)
        }
    }
}

/// Position of the first entry with this key; the length when there is none.
pub open spec fn key_index(es: Seq<(Seq<char>, Seq<char>)>, k: Seq<char>) -> int
    decreases es.len(),
{
    if es.len() == 0 || es[0].0 == k {
        0
    } else {
        1 + key_index(es.skip(1), k)
    }
}

/// The entries with a key set: in place, or at the end when it is new.
pub open spec fn put(
    es: Seq<(Seq<char>, Seq<char>)>,
    k: Seq<char>,
    v: Seq<char>,
) -> Seq<(Seq<char>, Seq<char>)> {
    let i = key_index(es, k);
    if i < es.len() {
        es.update(i, (es[i].0, v))
    } else {
        es.push((k, v))
    }
}

/// The entries after one rule; its condition is held against the present
/// value of the key.
pub open spec fn rule_entries(
    es: Seq<(Seq<char>, Seq<char>)>,
    rule: PatternReplace,
    interface: Seq<char>,
) -> Seq<(Seq<char>, Seq<char>)> {
    let k = rule.match_@;
    let i = key_index(es, k);
    if rule.if_value@.len() > 0 && !(i < es.len() && es[i].1 == rule.if_value@) {
        es
    } else {
        put(es, k, template::lookup(rule.replace_with, interface))
    }
}

/// The entries after all rules in order.
pub open spec fn rules_entries(
    es: Seq<(Seq<char>, Seq<char>)>,
    rules: Seq<PatternReplace>,
    interface: Seq<char>,
) -> Seq<(Seq<char>, Seq<char>)>
    decreases rules.len(),
{
    if rules.len() == 0 {
        es
    } else {
        rule_entries(rules_entries(es, rules.drop_last(), interface), rules.last(), interface)
    }
}

/// One character of a value as it is written: ASCII, with escapes.
pub open spec fn quote_char(c: char) -> Seq<char> {
    if c == '\\' {
        seq!['\\', '\\']
    } else if c == '"' {
        seq!['\\', '"']
    } else if c == '\n' {
        seq!['\\', 'n']
    } else if c == '\r' {
        seq!['\\', 'r']
    } else if c == '\t' {
        seq!['\\', 't']
    } else if c == '\x07' {
        seq!['\\', 'a']
    } else if c == '\x08' {
        seq!['\\', 'b']
    } else if c == '\x0b' {
        seq!['\\', 'v']
    } else if c == '\x0c' {
        seq!['\\', 'f']
    } else if ' ' <= c && c <= '~' {
        seq![c]
    } else if c <= '\u{ffff}' {
        seq!['\\', 'u'] + numbers::hex(c as int, 4)
    } else {
        seq!['\\', 'U'] + numbers::hex(c as int, 8)
    }
}

/// A value as it is written.
pub open spec fn quote(s: Seq<char>) -> Seq<char>
    decreases s.len(),
{
    if s.len() == 0 {
        Seq::empty()
    } else {
        quote(s.drop_last()) + quote_char(s.last())
    }
}

/// The entries as they are written, one `key=value` line each.
pub open spec fn emit(es: Seq<(Seq<char>, Seq<char>)>) -> Seq<char>
    decreases es.len(),
{
    if es.len() == 0 {
        Seq::empty()
    } else {
        emit(es.drop_last()) + es.last().0 + seq!['='] + quote(es.last().1) + seq!['\n']
    }
}

/// The rewritten file: the leading comment block, then every entry.
pub open spec fn properties_text(
    content: Seq<char>,
    rules: Seq<PatternReplace>,
    interface: Seq<char>,
) -> Seq<char> {
    let lines = text::lines(content);
    header(lines) + emit(rules_entries(entries(lines, None), rules, interface))
}

// ---------------------------------------------------------------------------
// Laws
// ---------------------------------------------------------------------------
/// The hexadecimal digits of a character.
proof fn lemma_char_hex(c: char, width: nat)
    requires
        width == 4 && c <= '\u{ffff}' || width == 8,
    ensures
        numbers::hex(c as int, width).len() == width,
        forall|i: int|
            0 <= i < width ==> numbers::is_hex_digit(#[trigger] numbers::hex(c as int, width)[i])
                && numbers::hex(c as int, width)[i] != '+' && (numbers::hex(c as int, width)[i] as u32)
                < 0x80,
        numbers::hex_value(numbers::hex(c as int, width)) == c as int,
{
    vstd::utf8::char_is_scalar(c);
    assert(vstd::arithmetic::power::pow(16, 4) == 65536 && vstd::arithmetic::power::pow(16, 8)
        == 4294967296) by {
        reveal(vstd::arithmetic::power::pow);
        reveal_with_fuel(vstd::arithmetic::power::pow, 9);
    }
    numbers::lemma_hex(c as int, width);
}

/// What is written for a value is ASCII.
pub proof fn law_quote_is_ascii(s: Seq<char>)
    ensures
        forall|i: int| 0 <= i < quote(s).len() ==> (#[trigger] quote(s)[i] as u32) < 0x80,
    decreases s.len(),
{
    if s.len() > 0 {
        law_quote_is_ascii(s.drop_last());
        let c = s.last();
        let head = quote(s.drop_last());
        let q = quote_char(c);
        if c <= '\u{ffff}' {
            lemma_char_hex(c, 4);
        }
        lemma_char_hex(c, 8);
        assert forall|i: int| 0 <= i < q.len() implies (#[trigger] q[i] as u32) < 0x80 by {
            let h4 = numbers::hex(c as int, 4);
            let h8 = numbers::hex(c as int, 8);
            if q == seq!['\\', 'u'] + h4 {
                if i >= 2 {
                    assert(q[i] == h4[i - 2]);
                }
            } else if q == seq!['\\', 'U'] + h8 {
                if i >= 2 {
                    assert(q[i] == h8[i - 2]);
                }
            }
        }
        assert forall|i: int| 0 <= i < quote(s).len() implies (#[trigger] quote(s)[i] as u32)
            < 0x80 by {
            if i < head.len() {
                assert(quote(s)[i] == head[i]);
            } else {
                assert(quote(s)[i] == q[i - head.len()]);
            }
        }
    }
}

/// A character that is read back as it was written: in the basic plane, and
/// none of BEL, BS and VT, whose escapes properties files do not have.
pub open spec fn reads_back(c: char) -> bool {
    c <= '\u{ffff}' && c != '\x07' && c != '\x08' && c != '\x0b'
}

proof fn lemma_quote_front(s: Seq<char>)
    requires
        s.len() > 0,
    ensures
        quote(s) == quote_char(s[0]) + quote(s.skip(1)),
    decreases s.len(),
{
    if s.len() == 1 {
        assert(s.drop_last() =~= Seq::<char>::empty());
        assert(s.skip(1) =~= Seq::<char>::empty());
        assert(quote(s.drop_last()) =~= Seq::<char>::empty());
        assert(quote(s) =~= quote_char(s[0]));
        assert(quote(s.skip(1)) =~= Seq::<char>::empty());
        assert(quote_char(s[0]) + Seq::<char>::empty() =~= quote_char(s[0]));
    } else {
        lemma_quote_front(s.drop_last());
        assert(s.drop_last().skip(1) =~= s.skip(1).drop_last());
        assert(s.skip(1).last() == s.last());
        assert(quote(s) =~= quote_char(s[0]) + quote(s.skip(1)));
    }
}

proof fn lemma_unescape_quoted_char(c: char, t: Seq<char>)
    requires
        reads_back(c),
    ensures
        unescape(quote_char(c) + t) == seq![c] + unescape(t),
{
    let q = quote_char(c);
    let s = q + t;
    if c == '\\' || c == '"' || c == '\n' || c == '\r' || c == '\t' || c == '\x0c' {
        assert(s[0] == '\\' && s[1] == q[1]);
        assert(s.skip(2) =~= t);
    } else if ' ' <= c && c <= '~' {
        assert(s[0] == c);
        assert(s.skip(1) =~= t);
    } else {
        lemma_char_hex(c, 4);
        let h = numbers::hex(c as int, 4);
        assert(q =~= seq!['\\', 'u'] + h);
        assert(s[0] == '\\' && s[1] == 'u' && s.len() >= 6);
        assert(s.subrange(2, 6) =~= h);
        assert(s.skip(6) =~= t);
        assert(h[0] != '+');
        assert(numbers::all_hex(h));
        assert(numbers::parse_hex(h) == Some(c as int));
        vstd::utf8::char_is_scalar(c);
        assert(unicode_char(h) =~= seq![c]);
    }
}

/// A value is read back as it was written.
pub proof fn law_unescape_quote(s: Seq<char>)
    requires
        forall|i: int| 0 <= i < s.len() ==> reads_back(#[trigger] s[i]),
    ensures
        unescape(quote(s)) == s,
    decreases s.len(),
{
    if s.len() == 0 {
        assert(unescape(quote(s)) =~= s);
    } else {
        lemma_quote_front(s);
        lemma_unescape_quoted_char(s[0], quote(s.skip(1)));
        assert forall|i: int| 0 <= i < s.skip(1).len() implies reads_back(
            #[trigger] s.skip(1)[i],
        ) by {
            assert(s.skip(1)[i] == s[i + 1]);
        }
        law_unescape_quote(s.skip(1));
        assert(seq![s[0]] + s.skip(1) =~= s);
    }
}

/// An entry that is read back as it was written: its key has nothing in it that
/// ends or escapes a key, opens a comment or is trimmed; its value does not
/// start with a blank.
pub open spec fn is_writable(e: (Seq<char>, Seq<char>)) -> bool {
    let (k, v) = e;
    &&& forall|i: int|
        0 <= i < k.len() ==> !is_separator(#[trigger] k[i]) && k[i] != '\\' && k[i] != '\n'
    &&& k.len() > 0 ==> k[0] != '#' && k[0] != '!' && !text::is_space(k[0]) && !text::is_space(
        k.last(),
    )
    &&& forall|i: int| 0 <= i < v.len() ==> reads_back(#[trigger] v[i])
    &&& v.len() > 0 ==> v[0] != ' '
}

/// The line that an entry is written as.
pub open spec fn entry_line(e: (Seq<char>, Seq<char>)) -> Seq<char> {
    e.0 + seq!['='] + quote(e.1)
}

proof fn lemma_quote_printable(s: Seq<char>)
    ensures
        forall|i: int| 0 <= i < quote(s).len() ==> ' ' <= (#[trigger] quote(s)[i]) <= '~',
    decreases s.len(),
{
    if s.len() > 0 {
        lemma_quote_printable(s.drop_last());
        let c = s.last();
        let head = quote(s.drop_last());
        let q = quote_char(c);
        if c <= '\u{ffff}' {
            lemma_char_hex(c, 4);
        }
        lemma_char_hex(c, 8);
        assert forall|i: int| 0 <= i < q.len() implies ' ' <= (#[trigger] q[i]) <= '~' by {
            let h4 = numbers::hex(c as int, 4);
            let h8 = numbers::hex(c as int, 8);
            if i >= 2 {
                assert(q[i] == h4[i - 2] || q[i] == h8[i - 2]);
            }
        }
        assert forall|i: int| 0 <= i < quote(s).len() implies ' ' <= (#[trigger] quote(s)[i])
            <= '~' by {
            if i < head.len() {
                assert(quote(s)[i] == head[i]);
            } else {
                assert(quote(s)[i] == q[i - head.len()]);
            }
        }
    }
}

/// The backslashes at the end of what is written for a value come in pairs.
proof fn lemma_quote_ends(s: Seq<char>)
    ensures
        backslashes(quote(s)) % 2 == 0,
    decreases s.len(),
{
    if s.len() > 0 {
        lemma_quote_ends(s.drop_last());
        let c = s.last();
        let head = quote(s.drop_last());
        let q = quote_char(c);
        let all = quote(s);
        if c <= '\u{ffff}' {
            lemma_char_hex(c, 4);
        }
        lemma_char_hex(c, 8);
        assert(all.last() == q.last());
        if c == '\\' {
            assert(all.drop_last().last() == '\\');
            assert(all.drop_last().drop_last() =~= head);
            assert(backslashes(all.drop_last()) == 1 + backslashes(head));
        } else {
            let h4 = numbers::hex(c as int, 4);
            let h8 = numbers::hex(c as int, 8);
            if c <= '\u{ffff}' && q == seq!['\\', 'u'] + h4 {
                assert(q.last() == h4[3]);
            } else if q == seq!['\\', 'U'] + h8 {
                assert(q.last() == h8[7]);
            }
            assert(q.last() != '\\');
        }
    }
}

proof fn lemma_emit_front(es: Seq<(Seq<char>, Seq<char>)>)
    requires
        es.len() > 0,
    ensures
        emit(es) == entry_line(es[0]) + seq!['\n'] + emit(es.skip(1)),
    decreases es.len(),
{
    let rest = es.skip(1);
    if es.len() == 1 {
        assert(es.drop_last() =~= Seq::<(Seq<char>, Seq<char>)>::empty());
        assert(rest =~= Seq::<(Seq<char>, Seq<char>)>::empty());
        assert(emit(es.drop_last()) =~= Seq::<char>::empty());
        assert(emit(rest) =~= Seq::<char>::empty());
        assert(emit(es) =~= entry_line(es[0]) + seq!['\n'] + emit(rest));
    } else {
        lemma_emit_front(es.drop_last());
        assert(es.drop_last().skip(1) =~= rest.drop_last());
        assert(rest.last() == es.last());
        assert(emit(es) =~= entry_line(es[0]) + seq!['\n'] + emit(rest));
    }
}

proof fn lemma_separator(line: Seq<char>, i: int, n: int)
    requires
        0 <= i <= n < line.len(),
        forall|j: int| i <= j < n ==> !is_separator(#[trigger] line[j]) && line[j] != '\\',
        is_separator(line[n]) && line[n] != '\\',
    ensures
        separator(line, i) == n,
    decreases n - i,
{
    if i < n {
        lemma_separator(line, i + 1, n);
    }
}

proof fn lemma_unescape_plain(s: Seq<char>)
    requires
        forall|i: int| 0 <= i < s.len() ==> #[trigger] s[i] != '\\',
    ensures
        unescape(s) == s,
    decreases s.len(),
{
    if s.len() > 0 {
        assert(s.skip(1).len() < s.len());
        assert forall|i: int| 0 <= i < s.skip(1).len() implies #[trigger] s.skip(1)[i] != '\\' by {
            assert(s.skip(1)[i] == s[i + 1]);
        }
        lemma_unescape_plain(s.skip(1));
        assert(seq![s[0]] + s.skip(1) =~= s);
    } else {
        assert(unescape(s) =~= s);
    }
}

proof fn lemma_entry_line(e: (Seq<char>, Seq<char>))
    requires
        is_writable(e),
    ensures
        !is_comment(entry_line(e)),
        entry_key(entry_line(e)) == e.0,
        !goes_on(raw_value(entry_line(e))),
        value_part(raw_value(entry_line(e))) == e.1,
        forall|i: int| 0 <= i < entry_line(e).len() ==> #[trigger] entry_line(e)[i] != '\n',
        text::without_cr(entry_line(e)) == entry_line(e),
{
    let (k, v) = e;
    let l = entry_line(e);
    let q = quote(v);
    let n = k.len() as int;
    lemma_quote_printable(v);
    assert(l[n] == '=');
    assert forall|i: int| 0 <= i < l.len() implies #[trigger] l[i] != '\n' by {
        if i < n {
            assert(l[i] == k[i]);
        } else if i > n {
            assert(l[i] == q[i - n - 1]);
        }
    }
    if q.len() > 0 {
        assert(l.last() == q[q.len() - 1]);
    } else {
        assert(l.last() == '=');
    }
    assert forall|j: int| 0 <= j < n implies !is_separator(#[trigger] l[j]) && l[j] != '\\' by {
        assert(l[j] == k[j]);
    }
    lemma_separator(l, 0, n);
    if n > 0 {
        assert(l[0] == k[0]);
    }
    assert(text::trim_start(l) == l);
    assert(l.take(n) =~= k);
    assert(text::trim(k) == k);
    lemma_unescape_plain(k);
    let rest = l.skip(n);
    assert(rest[0] == '=');
    assert(rest.skip(1) =~= q);
    if v.len() > 0 {
        lemma_quote_front(v);
        assert(quote_char(v[0]).len() > 0);
        assert(q[0] == quote_char(v[0])[0]);
        if ' ' <= v[0] && v[0] <= '~' {
        } else {
            assert(q[0] == '\\');
        }
        assert(!text::is_space(q[0]));
    }
    assert(text::trim_start(q) == q);
    lemma_quote_ends(v);
    law_unescape_quote(v);
}

proof fn lemma_emitted_is_read(es: Seq<(Seq<char>, Seq<char>)>)
    requires
        forall|i: int| 0 <= i < es.len() ==> is_writable(#[trigger] es[i]),
    ensures
        entries(text::lines(emit(es)), None) == es,
    decreases es.len(),
{
    if es.len() == 0 {
        assert(text::lines(emit(es)) =~= Seq::<Seq<char>>::empty());
        assert(entries(text::lines(emit(es)), None) =~= es);
    } else {
        let rest = es.skip(1);
        let l = entry_line(es[0]);
        lemma_emit_front(es);
        lemma_entry_line(es[0]);
        text::lemma_first_line(l, emit(rest));
        assert forall|i: int| 0 <= i < rest.len() implies is_writable(#[trigger] rest[i]) by {
            assert(rest[i] == es[i + 1]);
        }
        lemma_emitted_is_read(rest);
        let all = text::lines(emit(es));
        assert(all == seq![l] + text::lines(emit(rest)));
        assert(all[0] == l);
        assert(all.skip(1) =~= text::lines(emit(rest)));
        assert(Seq::<char>::empty() + es[0].1 =~= es[0].1);
        assert(seq![es[0]] + rest =~= es);
    }
}

proof fn lemma_comment_without_cr(l: Seq<char>)
    requires
        ({
            let t = text::trim_start(l);
            t.len() == 0 || t[0] == '#'
        }),
    ensures
        is_comment(text::without_cr(l)),
    decreases l.len(),
{
    if l.len() > 0 && l.last() == '\r' {
        let m = l.drop_last();
        if text::is_space(l[0]) && l.len() > 1 {
            lemma_comment_without_cr(l.skip(1));
            assert(l.skip(1).last() == '\r');
            assert(text::without_cr(l.skip(1)) =~= m.skip(1));
            assert(m[0] == l[0]);
        } else if l.len() > 1 {
            assert(m[0] == l[0]);
        }
        assert(text::without_cr(l) =~= m);
    }
}

proof fn lemma_header_is_skipped(lines: Seq<Seq<char>>, rest: Seq<char>)
    requires
        forall|i: int, j: int|
            0 <= i < lines.len() && 0 <= j < lines[i].len() ==> #[trigger] lines[i][j] != '\n',
    ensures
        entries(text::lines(header(lines) + rest), None) == entries(text::lines(rest), None),
    decreases lines.len(),
{
    if lines.len() == 0 {
        assert(header(lines) + rest =~= rest);
    } else {
        let l = lines[0];
        let t = text::trim_start(l);
        if t.len() == 0 || t[0] == '#' {
            let more = lines.skip(1);
            assert forall|i: int, j: int|
                0 <= i < more.len() && 0 <= j < more[i].len() implies #[trigger] more[i][j]
                != '\n' by {
                assert(more[i] == lines[i + 1]);
            }
            lemma_header_is_skipped(more, rest);
            text::lemma_first_line(l, header(more) + rest);
            lemma_comment_without_cr(l);
            assert(header(lines) + rest =~= l + seq!['\n'] + (header(more) + rest));
            let all = text::lines(header(lines) + rest);
            assert(all[0] == text::without_cr(l));
            assert(all.skip(1) =~= text::lines(header(more) + rest));
        } else {
            assert(header(lines) + rest =~= rest);
        }
    }
}

/// A rewritten file, read again, has the entries that it was rewritten to.
pub proof fn law_rewritten_file_reads_back(
    content: Seq<char>,
    rules: Seq<PatternReplace>,
    interface: Seq<char>,
)
    requires
        ({
            let es = rules_entries(entries(text::lines(content), None), rules, interface);
            forall|i: int| 0 <= i < es.len() ==> is_writable(#[trigger] es[i])
        }),
    ensures
        entries(text::lines(properties_text(content, rules, interface)), None) == rules_entries(
            entries(text::lines(content), None),
            rules,
            interface,
        ),
{
    let es = rules_entries(entries(text::lines(content), None), rules, interface);
    text::lemma_lines_have_no_end(content);
    lemma_header_is_skipped(text::lines(content), emit(es));
    lemma_emitted_is_read(es);
}

proof fn lemma_key_index(es: Seq<(Seq<char>, Seq<char>)>, k: Seq<char>)
    ensures
        0 <= key_index(es, k) <= es.len(),
        key_index(es, k) < es.len() ==> es[key_index(es, k)].0 == k,
        forall|i: int| 0 <= i < key_index(es, k) ==> (#[trigger] es[i]).0 != k,
    decreases es.len(),
{
    if es.len() > 0 && es[0].0 != k {
        lemma_key_index(es.skip(1), k);
        assert forall|i: int| 0 <= i < key_index(es, k) implies (#[trigger] es[i]).0 != k by {
            if i > 0 {
                assert(es.skip(1)[i - 1].0 != k);
            }
        }
    }
}

proof fn lemma_key_index_unique(es: Seq<(Seq<char>, Seq<char>)>, k: Seq<char>, r: int)
    requires
        0 <= r < es.len(),
        es[r].0 == k,
        forall|i: int| 0 <= i < r ==> (#[trigger] es[i]).0 != k,
    ensures
        key_index(es, k) == r,
{
    lemma_key_index(es, k);
    if key_index(es, k) < r {
        assert(es[key_index(es, k)].0 != k);
    }
}

/// A key that was put has the value, and every other entry stays as it was.
pub proof fn lemma_put(es: Seq<(Seq<char>, Seq<char>)>, k: Seq<char>, v: Seq<char>)
    ensures
        ({
            let after = put(es, k, v);
            let i = key_index(after, k);
            &&& i == key_index(es, k)
            &&& 0 <= i < after.len()
            &&& after[i] == (k, v)
            &&& es.len() <= after.len() <= es.len() + 1
            &&& forall|j: int| 0 <= j < es.len() && j != i ==> after[j] == #[trigger] es[j]
        }),
{
    let after = put(es, k, v);
    lemma_key_index(es, k);
    let r = key_index(es, k);
    assert forall|i: int| 0 <= i < r implies (#[trigger] after[i]).0 != k by {
        assert(after[i] == es[i]);
    }
    lemma_key_index_unique(after, k, r);
}

/// After a rule that applies, the key has the rule's value; every other key
/// stays as it was, and none is lost.
pub proof fn law_rule_sets_key(
    es: Seq<(Seq<char>, Seq<char>)>,
    rule: PatternReplace,
    interface: Seq<char>,
)
    requires
        rule.if_value@.len() == 0,
    ensures
        ({
            let after = rule_entries(es, rule, interface);
            let k = rule.match_@;
            &&& key_index(after, k) < after.len()
            &&& after[key_index(after, k)].1 == template::lookup(rule.replace_with, interface)
            &&& es.len() <= after.len() <= es.len() + 1
            &&& forall|i: int|
                0 <= i < es.len() && i != key_index(es, k) ==> after[i] == #[trigger] es[i]
        }),
{
    lemma_put(es, rule.match_@, template::lookup(rule.replace_with, interface));
}

// ---------------------------------------------------------------------------
// Executable operations
// ---------------------------------------------------------------------------
/// Resolves the escapes of a key or value.
pub fn unescape_properties(s: &[char]) -> (r: Vec<char>)
    ensures
        r@ == unescape(s@),
{
    let mut out: Vec<char> = Vec::new();
    let mut i: usize = 0;
    assert(s@.skip(0) =~= s@);
    assert(out@ + unescape(s@) =~= unescape(s@));
    while i < s.len()
        invariant
            i <= s.len(),
            out@ + unescape(s@.skip(i as int)) == unescape(s@),
        decreases s.len() - i,
    {
        let ghost rest = s@.skip(i as int);
        let ghost before = out@;
        let c: char = s[i];
        assert(rest[0] == c);
        if c != '\\' {
            out.push(c);
            assert(rest.skip(1) =~= s@.skip(i + 1));
            assert(out@ + unescape(s@.skip(i + 1)) =~= before + unescape(rest));
            i = i + 1;
        } else if i + 1 == s.len() {
            out.push('\\');
            assert(out@ =~= before + unescape(rest));
            return out;
        } else {
            let e: char = s[i + 1];
            assert(rest[1] == e);
            if e == 'u' {
                let end: usize = if s.len() - i < 6 {
                    s.len()
                } else {
                    i + 6
                };
                let digits = text::slice_of(s, i + 2, end);
                assert(digits@ =~= unicode_digits(rest));
                if let Some(cp) = numbers::read_hex(digits.as_slice()) {
                    if let Some(ch) = char::from_u32(cp) {
                        out.push(ch);
                    }
                }
                assert(out@ =~= before + unicode_char(digits@));
                assert(rest.skip(end - i) =~= s@.skip(end as int));
                assert(out@ + unescape(s@.skip(end as int)) =~= before + unescape(rest));
                i = end;
            } else {
                let d: char = if e == 'n' {
                    '\n'
                } else if e == 'r' {
                    '\r'
                } else if e == 't' {
                    '\t'
                } else if e == 'f' {
                    '\x0c'
                } else {
                    e
                };
                out.push(d);
                assert(rest.skip(2) =~= s@.skip(i + 2));
                assert(out@ + unescape(s@.skip(i + 2)) =~= before + unescape(rest));
                i = i + 2;
            }
        }
    }
    assert(unescape(s@.skip(i as int)) =~= Seq::empty());
    assert(out@ + Seq::<char>::empty() =~= out@);
    out
}

/// Escapes a value to ASCII.
pub fn quote_to_ascii(s: &str) -> (r: String)
    ensures
        r@ == quote(s@),
{
    let a = text::chars_of(s);
    let mut out = String::new();
    let mut i: usize = 0;
    while i < a.len()
        invariant
            a@ == s@,
            i <= a.len(),
            out@ == quote(s@.take(i as int)),
        decreases a.len() - i,
    {
        let c: char = a[i];
        let ghost before = out@;
        assert(s@.take(i + 1).drop_last() =~= s@.take(i as int));
        assert(s@.take(i + 1).last() == c);
        if c == '\\' || c == '"' {
            out.push('\\');
            out.push(c);
        } else if c == '\n' {
            out.push('\\');
            out.push('n');
        } else if c == '\r' {
            out.push('\\');
            out.push('r');
        } else if c == '\t' {
            out.push('\\');
            out.push('t');
        } else if c == '\x07' {
            out.push('\\');
            out.push('a');
        } else if c == '\x08' {
            out.push('\\');
            out.push('b');
        } else if c == '\x0b' {
            out.push('\\');
            out.push('v');
        } else if c == '\x0c' {
            out.push('\\');
            out.push('f');
        } else if ' ' <= c && c <= '~' {
            out.push(c);
        } else {
            let wide = !(c <= '\u{ffff}');
            let cp: u32 = text::code_point(c);
            out.push('\\');
            out.push(if wide {
                'U'
            } else {
                'u'
            });
            let digits = numbers::hex_u32(cp, if wide {
                8
            } else {
                4
            });
            out.append(digits.as_str());
        }
        assert(out@ =~= before + quote_char(c));
        i = i + 1;
    }
    assert(s@.take(i as int) =~= s@);
    out
}

/// The leading comment block.
fn header_of(lines: &Vec<Vec<char>>) -> (r: String)
    ensures
        r@ == header(lines@.map_values(|v: Vec<char>| v@)),
{
    let ghost all = lines@.map_values(|v: Vec<char>| v@);
    let mut out = String::new();
    let mut i: usize = 0;
    assert(all.skip(0) =~= all);
    assert(out@ + header(all) =~= header(all));
    while i < lines.len()
        invariant
            i <= lines.len(),
            all == lines@.map_values(|v: Vec<char>| v@),
            out@ + header(all.skip(i as int)) == header(all),
        decreases lines.len() - i,
    {
        let ghost before = out@;
        let ghost rest = all.skip(i as int);
        assert(rest[0] == lines@[i as int]@);
        assert(rest.skip(1) =~= all.skip(i + 1));
        let t = text::trim_start_chars(lines[i].as_slice());
        if t.len() == 0 || t[0] == '#' {
            let l = text::string_of(lines[i].as_slice());
            out.append(l.as_str());
            out.push('\n');
            assert(out@ + header(all.skip(i + 1)) =~= before + header(rest));
        } else {
            assert(out@ + Seq::<char>::empty() =~= out@);
            return out;
        }
        i = i + 1;
    }
    assert(out@ + header(all.skip(i as int)) =~= out@);
    out
}

/// Position of the first separator that no backslash escapes.
fn find_separator(line: &[char]) -> (r: usize)
    ensures
        r == separator(line@, 0),
        r <= line@.len(),
{
    let mut i: usize = 0;
    while i < line.len()
        invariant
            i <= line.len(),
            separator(line@, 0) == separator(line@, i as int),
        decreases line.len() - i,
    {
        let c: char = line[i];
        if c == '\\' {
            if line.len() - i < 2 {
                return line.len();
            }
            i = i + 2;
        } else if c == '=' || c == ':' || c == ' ' || c == '\t' || c == '\x0c' {
            return i;
        } else {
            i = i + 1;
        }
    }
    i
}

/// The key on a line, and the value as it is written.
fn read_entry(line: &[char]) -> (r: (Vec<char>, Vec<char>))
    ensures
        r.0@ == entry_key(line@),
        r.1@ == raw_value(line@),
{
    let at: usize = find_separator(line);
    let raw_key = text::slice_of(line, 0, at);
    assert(raw_key@ =~= line@.take(at as int));
    let raw_key = text::trim_chars(raw_key.as_slice());
    let key = unescape_properties(raw_key.as_slice());
    let from: usize = if at < line.len() && (line[at] == '=' || line[at] == ':') {
        at + 1
    } else {
        at
    };
    let rest = text::slice_of(line, from, line.len());
    proof {
        let whole = line@.skip(at as int);
        if from == at {
            assert(rest@ =~= whole);
        } else {
            assert(rest@ =~= whole.skip(1));
        }
    }
    let raw = text::trim_start_chars(rest.as_slice());
    (key, raw)
}

/// Whether a value as it is written goes on with the next line.
fn is_open(raw: &[char]) -> (r: bool)
    ensures
        r == goes_on(raw@),
{
    let mut i: usize = raw.len();
    let mut odd = false;
    assert(raw@.take(i as int) =~= raw@);
    while i > 0 && raw[i - 1] == '\\'
        invariant
            i <= raw.len(),
            odd == ((raw@.len() - i) % 2 == 1),
            backslashes(raw@) == raw@.len() - i + backslashes(raw@.take(i as int)),
        decreases i,
    {
        assert(raw@.take(i as int).drop_last() =~= raw@.take(i - 1));
        odd = !odd;
        i = i - 1;
    }
    odd
}

/// The part of a value that stands on one line.
fn read_value_part(raw: &[char], open: bool) -> (r: Vec<char>)
    requires
        open == goes_on(raw@),
    ensures
        r@ == value_part(raw@),
{
    if open {
        let end: usize = raw.len() - 1;
        let part = text::slice_of(raw, 0, end);
        assert(part@ =~= raw@.drop_last());
        unescape_properties(part.as_slice())
    } else {
        unescape_properties(raw)
    }
}

/// The entries of a file, in order.
fn read_entries(lines: &Vec<Vec<char>>) -> (r: Vec<(String, String)>)
    ensures
        text::pairs(r@) == entries(lines@.map_values(|v: Vec<char>| v@), None),
{
    let ghost all = lines@.map_values(|v: Vec<char>| v@);
    let mut out: Vec<(String, String)> = Vec::new();
    let mut open: Option<(Vec<char>, Vec<char>)> = None;
    let mut i: usize = 0;
    assert(all.skip(0) =~= all);
    assert(text::pairs(out@) + entries(all, None) =~= entries(all, None));
    while i < lines.len()
        invariant
            i <= lines.len(),
            all == lines@.map_values(|v: Vec<char>| v@),
            text::pairs(out@) + entries(all.skip(i as int), open_view(open)) == entries(all, None),
        decreases lines.len() - i,
    {
        let ghost before = text::pairs(out@);
        let ghost before_open = open_view(open);
        let ghost rest = all.skip(i as int);
        let line = lines[i].as_slice();
        assert(rest[0] == line@);
        assert(rest.skip(1) =~= all.skip(i + 1));
        let t = text::trim_start_chars(line);
        let blank = t.len() == 0 || t[0] == '#' || t[0] == '!';
        if open.is_none() && blank {
            i = i + 1;
            continue;
        }
        let (key, mut value, raw) = match open {
            Some((k, v)) => (k, v, t),
            None => {
                let (k, raw) = read_entry(line);
                (k, Vec::new(), raw)
            },
        };
        let more = is_open(raw.as_slice());
        let mut part = read_value_part(raw.as_slice(), more);
        value.append(&mut part);
        if more {
            open = Some((key, value));
        } else {
            open = None;
            out.push((text::string_of(key.as_slice()), text::string_of(value.as_slice())));
            assert(text::pairs(out@) =~= before.push((key@, value@)));
            assert(text::pairs(out@) + entries(all.skip(i + 1), None) =~= before + entries(
                rest,
                before_open,
            ));
        }
        i = i + 1;
    }
    let ghost before = text::pairs(out@);
    assert(all.skip(i as int).len() == 0);
    match open {
        Some((k, v)) => {
            out.push((text::string_of(k.as_slice()), text::string_of(v.as_slice())));
            assert(text::pairs(out@) =~= before.push((k@, v@)));
            assert(text::pairs(out@) =~= before + seq![(k@, v@)]);
        },
        None => {
            assert(before + Seq::<(Seq<char>, Seq<char>)>::empty() =~= before);
        },
    }
    out
}

/// The view of an entry that goes on with the next line.
pub open spec fn open_view(open: Option<(Vec<char>, Vec<char>)>) -> Option<
    (Seq<char>, Seq<char>),
> {
    match open {
        Some(e) => Some((e.0@, e.1@)),
        None => None,
    }
}

/// Position of the first entry with this key.
pub(crate) fn find_key(es: &Vec<(String, String)>, k: &str) -> (r: usize)
    ensures
        r == key_index(text::pairs(es@), k@),
        r <= es@.len(),
{
    let ghost all = text::pairs(es@);
    let mut i: usize = 0;
    assert(all.skip(0) =~= all);
    while i < es.len() && !text::same(es[i].0.as_str(), k)
        invariant
            i <= es.len(),
            all == text::pairs(es@),
            key_index(all, k@) == i + key_index(all.skip(i as int), k@),
        decreases es.len() - i,
    {
        assert(all.skip(i as int)[0] == all[i as int]);
        assert(all.skip(i as int).skip(1) =~= all.skip(i + 1));
        i = i + 1;
    }
    if i < es.len() {
        assert(all.skip(i as int)[0] == all[i as int]);
    }
    i
}

/// Sets a key, in place or at the end.
pub(crate) fn put_entry(es: &mut Vec<(String, String)>, k: &str, v: String)
    ensures
        text::pairs(final(es)@) == put(text::pairs(old(es)@), k@, v@),
{
    let ghost before = text::pairs(es@);
    let i: usize = find_key(es, k);
    if i < es.len() {
        es[i].1 = v;
        assert(text::pairs(es@) =~= before.update(i as int, (before[i as int].0, v@)));
    } else {
        es.push((k.to_owned(), v));
        assert(text::pairs(es@) =~= before.push((k@, v@)));
    }
}

/// Applies the rules to the entries.
fn apply_rules(
    es: &mut Vec<(String, String)>,
    rules: &Vec<PatternReplace>,
    daemon: &TemplatableConfig,
)
    ensures
        text::pairs(final(es)@) == rules_entries(
            text::pairs(old(es)@),
            rules@,
            daemon.interface@,
        ),
{
    let ghost start = text::pairs(es@);
    let mut i: usize = 0;
    while i < rules.len()
        invariant
            i <= rules.len(),
            text::pairs(es@) == rules_entries(start, rules@.take(i as int), daemon.interface@),
        decreases rules.len() - i,
    {
        assert(rules@.take(i + 1).drop_last() =~= rules@.take(i as int));
        assert(rules@.take(i + 1).last() == rules@[i as int]);
        let rule = &rules[i];
        let at: usize = find_key(es, rule.match_.as_str());
        assert(at < es@.len() ==> text::pairs(es@)[at as int].1 == es@[at as int].1@);
        let skip = !rule.if_value.as_str().is_empty() && !(at < es.len() && text::same(
            es[at].1.as_str(),
            rule.if_value.as_str(),
        ));
        if !skip {
            let value = template::lookup_configuration_value(rule, daemon);
            put_entry(es, rule.match_.as_str(), value);
        }
        i = i + 1;
    }
    assert(rules@.take(i as int) =~= rules@);
}

/// Writes the entries.
fn emit_entries(es: &Vec<(String, String)>) -> (r: String)
    ensures
        r@ == emit(text::pairs(es@)),
{
    let ghost all = text::pairs(es@);
    let mut out = String::new();
    let mut i: usize = 0;
    while i < es.len()
        invariant
            i <= es.len(),
            all == text::pairs(es@),
            out@ == emit(all.take(i as int)),
        decreases es.len() - i,
    {
        let ghost before = out@;
        assert(all.take(i + 1).drop_last() =~= all.take(i as int));
        assert(all.take(i + 1).last() == (es@[i as int].0@, es@[i as int].1@));
        out.append(es[i].0.as_str());
        out.push('=');
        let q = quote_to_ascii(es[i].1.as_str());
        out.append(q.as_str());
        out.push('\n');
        assert(out@ =~= emit(all.take(i + 1)));
        i = i + 1;
    }
    assert(all.take(i as int) =~= all);
    out
}

/// Rewrites a properties file: the leading comment block is kept, every entry
/// is written again in the order it was read, values escaped to ASCII.
pub fn parse_properties_file(
    raw: &[u8],
    config: &PatternConfig,
    daemon: &TemplatableConfig,
) -> (r: String)
    ensures
        r@ == properties_text(text::utf8_lossy(raw@), config.replace@, daemon.interface@),
{
    let content = text::from_utf8_lossy(raw);
    let lines = text::lines_of(content.as_str());
    let mut out = header_of(&lines);
    let mut es = read_entries(&lines);
    apply_rules(&mut es, &config.replace, daemon);
    let body = emit_entries(&es);
    out.append(body.as_str());
    out
}

/// A key that was put leaves the values of all others as they were.
pub proof fn lemma_put_others(
    es: Seq<(Seq<char>, Seq<char>)>,
    k: Seq<char>,
    v: Seq<char>,
    other: Seq<char>,
)
    requires
        other != k,
    ensures
        ({
            let after = put(es, k, v);
            let i = key_index(es, other);
            let j = key_index(after, other);
            &&& i < es.len() <==> j < after.len()
            &&& i < es.len() ==> after[j].1 == es[i].1 && j == i
        }),
{
    let after = put(es, k, v);
    lemma_put(es, k, v);
    lemma_key_index(es, k);
    lemma_key_index(es, other);
    lemma_key_index(after, other);
    let r = key_index(es, k);
    let i = key_index(es, other);
    let j = key_index(after, other);
    if i < es.len() {
        assert(i != r);
        assert(after[i] == es[i]);
        assert forall|n: int| 0 <= n < i implies (#[trigger] after[n]).0 != other by {
            if n != r {
                assert(after[n] == es[n]);
            } else {
                assert(after[n].0 == k);
            }
        }
        lemma_key_index_unique(after, other, i);
    } else if j < after.len() {
        assert(after[j].0 == other);
        if j != r {
            assert(after[j] == es[j]);
        }
    }
}

/// A rule with a condition applies only to a key that has that value.
pub proof fn law_conditions(es: Seq<(Seq<char>, Seq<char>)>, rule: PatternReplace, interface: Seq<char>)
    requires
        rule.if_value@.len() > 0,
    ensures
        ({
            let k = key_index(es, rule.match_@);
            let after = rule_entries(es, rule, interface);
            &&& k >= es.len() ==> after == es
            &&& k < es.len() && es[k].1 != rule.if_value@ ==> after == es
            &&& k < es.len() && es[k].1 == rule.if_value@ ==> after.len() == es.len() && after[k]
                == (rule.match_@, template::lookup(rule.replace_with, interface)) && forall|j: int|
                0 <= j < es.len() && j != k ==> #[trigger] after[j] == es[j]
        }),
{
    lemma_put(es, rule.match_@, template::lookup(rule.replace_with, interface));
    lemma_key_index(es, rule.match_@);
}

/// Rules apply in order, each to what those before it have left.
pub proof fn law_rules_apply_in_order(
    es: Seq<(Seq<char>, Seq<char>)>,
    rules: Seq<PatternReplace>,
    rule: PatternReplace,
    interface: Seq<char>,
)
    ensures
        rules_entries(es, rules.push(rule), interface) == rule_entries(
            rules_entries(es, rules, interface),
            rule,
            interface,
        ),
        rules_entries(es, Seq::empty(), interface) == es,
{
    assert(rules.push(rule).drop_last() =~= rules);
}

/// The block of comments that a file begins with is kept as it is, up to the first line
/// that is neither blank nor a comment.
pub proof fn law_headers_are_kept(comment: Seq<char>, line: Seq<char>, rest: Seq<Seq<char>>)
    requires
        line.len() > 0 && line[0] != '#' && !text::is_space(line[0]),
    ensures
        header(seq![seq!['#'] + comment] + rest) == seq!['#'] + comment + seq!['\n'] + header(rest),
        header(seq![Seq::<char>::empty()] + rest) == seq!['\n'] + header(rest),
        header(seq![line] + rest).len() == 0,
        header(Seq::empty()).len() == 0,
{
    let c = seq!['#'] + comment;
    assert(!text::is_space('#'));
    assert(text::trim_start(c) == c);
    let a = seq![c] + rest;
    assert(a.skip(1) =~= rest);
    assert(c.push('\n') + header(rest) =~= c + seq!['\n'] + header(rest));
    let none = Seq::<char>::empty();
    let b = seq![none] + rest;
    assert(b.skip(1) =~= rest);
    assert(none.push('\n') + header(rest) =~= seq!['\n'] + header(rest));
    assert(text::trim_start(line) == line);
    assert((seq![line] + rest)[0] == line);
}

/// An entry is a key and a value with an equals sign or a colon between them; comments
/// are no entries.
pub proof fn law_entries_are_read(
    key: Seq<char>,
    value: Seq<char>,
    comment: Seq<char>,
    rest: Seq<Seq<char>>,
)
    requires
        key.len() > 0 && key[0] != '#' && key[0] != '!' && !text::is_space(key[0])
            && !text::is_space(key.last()),
        forall|i: int| 0 <= i < key.len() ==> !is_separator(#[trigger] key[i]) && key[i] != '\\',
        forall|i: int| 0 <= i < value.len() ==> #[trigger] value[i] != '\\',
        value.len() > 0 ==> !text::is_space(value[0]),
    ensures
        entries(seq![key + seq!['='] + value] + rest, None) == seq![(key, value)] + entries(
            rest,
            None,
        ),
        entries(seq![key + seq![':'] + value] + rest, None) == seq![(key, value)] + entries(
            rest,
            None,
        ),
        entries(seq![seq!['#'] + comment] + rest, None) == entries(rest, None),
        entries(seq![seq!['!'] + comment] + rest, None) == entries(rest, None),
{
    lemma_entry_with(key, '=', value, rest);
    lemma_entry_with(key, ':', value, rest);
    assert(!text::is_space('#') && !text::is_space('!'));
    let c = seq!['#'] + comment;
    let d = seq!['!'] + comment;
    assert(text::trim_start(c) == c && text::trim_start(d) == d);
    assert((seq![c] + rest).skip(1) =~= rest);
    assert((seq![d] + rest).skip(1) =~= rest);
}

proof fn lemma_entry_with(key: Seq<char>, sep: char, value: Seq<char>, rest: Seq<Seq<char>>)
    requires
        sep == '=' || sep == ':',
        key.len() > 0 && key[0] != '#' && key[0] != '!' && !text::is_space(key[0])
            && !text::is_space(key.last()),
        forall|i: int| 0 <= i < key.len() ==> !is_separator(#[trigger] key[i]) && key[i] != '\\',
        forall|i: int| 0 <= i < value.len() ==> #[trigger] value[i] != '\\',
        value.len() > 0 ==> !text::is_space(value[0]),
    ensures
        entries(seq![key + seq![sep] + value] + rest, None) == seq![(key, value)] + entries(
            rest,
            None,
        ),
{
    let line = key + seq![sep] + value;
    let all = seq![line] + rest;
    let n = key.len() as int;
    assert(all[0] == line);
    assert(all.skip(1) =~= rest);
    assert(line[0] == key[0]);
    assert(text::trim_start(line) == line);
    assert(line[n] == sep);
    assert forall|j: int| 0 <= j < n implies !is_separator(#[trigger] line[j]) && line[j] != '\\' by {
        assert(line[j] == key[j]);
    }
    lemma_separator(line, 0, n);
    assert(line.take(n) =~= key);
    let none = Seq::<char>::empty();
    text::law_trim(none, key, none);
    assert(none + key + none =~= key);
    lemma_unescape_plain(key);
    let tail = line.skip(n);
    assert(tail[0] == sep);
    assert(tail.skip(1) =~= value);
    assert(text::trim_start(value) == value);
    assert(raw_value(line) == value);
    lemma_unescape_plain(value);
    if value.len() > 0 {
        assert(value.last() == value[value.len() - 1]);
    }
    assert(!goes_on(value));
    assert(none + value =~= value);
}

/// A value that ends in a backslash goes on with the next line, without the backslash
/// and without the white space that the line begins with.
pub proof fn law_values_go_on(
    key: Seq<char>,
    first: Seq<char>,
    blank: Seq<char>,
    second: Seq<char>,
    rest: Seq<Seq<char>>,
)
    requires
        forall|i: int| 0 <= i < first.len() ==> #[trigger] first[i] != '\\',
        forall|i: int| 0 <= i < second.len() ==> #[trigger] second[i] != '\\',
        forall|i: int| 0 <= i < blank.len() ==> text::is_space(#[trigger] blank[i]),
        second.len() > 0 && !text::is_space(second[0]) && !text::is_space(second.last()),
    ensures
        goes_on(first.push('\\')),
        !goes_on(first),
        value_part(first.push('\\')) == first,
        value_part(first) == first,
        entries(seq![blank + second] + rest, Some((key, first))) == seq![(key, first + second)]
            + entries(rest, None),
{
    let a = first.push('\\');
    assert(a.drop_last() =~= first);
    if first.len() > 0 {
        assert(first.last() == first[first.len() - 1]);
    }
    assert(backslashes(first) == 0);
    assert(backslashes(a) == 1);
    lemma_unescape_plain(first);
    lemma_unescape_plain(second);
    let none = Seq::<char>::empty();
    text::law_trim(blank, second, none);
    assert(blank + second + none =~= blank + second);
    assert(second + none =~= second);
    assert(second.last() == second[second.len() - 1]);
    assert(backslashes(second) == 0);
    let all = seq![blank + second] + rest;
    assert(all[0] == blank + second);
    assert(all.skip(1) =~= rest);
}

/// What stands behind a backslash: the usual control characters, a character by its
/// four hexadecimal digits, and everything else for itself.
pub proof fn law_escapes_are_resolved(c: char, digits: Seq<char>, n: int, rest: Seq<char>)
    requires
        c != 'u',
        digits.len() == 4,
        numbers::parse_hex(digits) == Some(n),
        0 <= n <= 0xd7ff,
    ensures
        unescape(seq!['\\', 'n'] + rest) == seq!['\n'] + unescape(rest),
        unescape(seq!['\\', 'r'] + rest) == seq!['\r'] + unescape(rest),
        unescape(seq!['\\', 't'] + rest) == seq!['\t'] + unescape(rest),
        unescape(seq!['\\', 'f'] + rest) == seq!['\x0c'] + unescape(rest),
        c != 'n' && c != 'r' && c != 't' && c != 'f' ==> unescape(seq!['\\', c] + rest) == seq![c]
            + unescape(rest),
        unescape(seq!['\\', 'u'] + digits + rest) == seq![n as char] + unescape(rest),
{
    assert((seq!['\\', 'n'] + rest).skip(2) =~= rest);
    assert((seq!['\\', 'r'] + rest).skip(2) =~= rest);
    assert((seq!['\\', 't'] + rest).skip(2) =~= rest);
    assert((seq!['\\', 'f'] + rest).skip(2) =~= rest);
    assert((seq!['\\', c] + rest).skip(2) =~= rest);
    let s = seq!['\\', 'u'] + digits + rest;
    assert(s.len() >= 6);
    assert(s.subrange(2, 6) =~= digits);
    assert(s.skip(6) =~= rest);
}

/// How entries are written: the key, an equals sign and the value with its escapes, each
/// on a line of its own, behind the comments that the file began with.
pub proof fn law_how_entries_are_written(
    es: Seq<(Seq<char>, Seq<char>)>,
    k: Seq<char>,
    v: Seq<char>,
    content: Seq<char>,
    interface: Seq<char>,
)
    ensures
        emit(es.push((k, v))) == emit(es) + k + seq!['='] + quote(v) + seq!['\n'],
        emit(Seq::empty()).len() == 0,
        properties_text(content, Seq::empty(), interface) == header(text::lines(content)) + emit(
            entries(text::lines(content), None),
        ),
{
    assert(es.push((k, v)).drop_last() =~= es);
}

/// Plain text is written as it is; quotes, backslashes and control characters are
/// escaped, and what is not ASCII is written by its number.
pub proof fn law_how_values_are_written(s: Seq<char>, c: char)
    ensures
        (forall|i: int|
            0 <= i < s.len() ==> ' ' <= #[trigger] s[i] <= '~' && s[i] != '\\' && s[i] != '"')
            ==> quote(s) == s,
        quote(s.push('\\')) == quote(s) + seq!['\\', '\\'],
        quote(s.push('"')) == quote(s) + seq!['\\', '"'],
        quote(s.push('\n')) == quote(s) + seq!['\\', 'n'],
        quote(s.push('\t')) == quote(s) + seq!['\\', 't'],
        '~' < c <= '\u{ffff}' ==> quote(s.push(c)) == quote(s) + (seq!['\\', 'u'] + numbers::hex(
            c as int,
            4,
        )),
    decreases s.len(),
{
    assert(s.push('\\').drop_last() =~= s);
    assert(s.push('"').drop_last() =~= s);
    assert(s.push('\n').drop_last() =~= s);
    assert(s.push('\t').drop_last() =~= s);
    assert(s.push(c).drop_last() =~= s);
    if s.len() > 0 {
        law_how_values_are_written(s.drop_last(), c);
        if forall|i: int|
            0 <= i < s.len() ==> ' ' <= #[trigger] s[i] <= '~' && s[i] != '\\' && s[i] != '"' {
            assert(s.last() == s[s.len() - 1]);
            assert(quote(s) =~= s);
        }
    } else {
        assert(quote(s) =~= s);
    }
}

} // verus!
