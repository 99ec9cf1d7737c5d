//! Ignore patterns of backups.
use vstd::prelude::*;
use crate::pattern;
use crate::text;

verus! {

/// A compiled ignore pattern.
#[derive(Debug)]
pub struct IgnorePattern {
    re: regex::Regex,
    negate: bool,
}

/// A pattern with a wildcard inside a directory.
pub const DIR_WILDCARD: &'static str = r"([^/+])/.*\*.";

pub const STARS_INSIDE: &'static str = r"/\*\*/";

pub const STARS_FIRST: &'static str = r"\*\*/";

pub const STARS_LAST: &'static str = r"/\*\*";

// ---------------------------------------------------------------------------
// Definitions
// ---------------------------------------------------------------------------
/// The pattern on a line, without what surrounds it: comments and blank lines
/// have none.
pub open spec fn bare(line: Seq<char>) -> Option<Seq<char>> {
    let l = text::trim_end_of(line, '\r');
    if l.len() > 0 && l[0] == '#' {
        None
    } else if text::trim(l).len() == 0 {
        None
    } else {
        Some(text::trim(l))
    }
}

/// Whether the pattern takes back earlier ones: it starts with `!`.
pub open spec fn negates(p: Seq<char>) -> bool {
    p.len() > 0 && p[0] == '!'
}

/// The pattern without the mark that negates it and without one `#` or `!`
/// that stands behind that.
pub open spec fn body(p: Seq<char>) -> Seq<char> {
    let q = if negates(p) {
        p.skip(1)
    } else {
        p
    };
    if q.len() > 0 && (q[0] == '#' || q[0] == '!') {
        q.skip(1)
    } else {
        q
    }
}

/// A pattern with a wildcard inside a directory is anchored.
pub open spec fn anchored(p: Seq<char>) -> Seq<char> {
    if !(p.len() > 0 && p[0] == '/') && pattern::matches(DIR_WILDCARD@, p) {
        seq!['/'] + p
    } else {
        p
    }
}

/// A pattern without a leading `/**/`.
pub open spec fn without_any_dir(p: Seq<char>) -> Seq<char> {
    if "/**/"@.is_prefix_of(p) {
        p.skip("/**/"@.len() as int)
    } else {
        p
    }
}

/// Double stars as expressions: any directories between, before, behind.
pub open spec fn double_stars(p: Seq<char>) -> Seq<char> {
    let a = pattern::substituted(STARS_INSIDE@, p, "(/|/.+/)"@);
    let b = pattern::substituted(STARS_FIRST@, a, "(|.*/)"@);
    pattern::substituted(STARS_LAST@, b, "(|/.*)"@)
}

/// Single stars as expressions, escaped ones spared, and question marks
/// escaped.
pub open spec fn single_stars(p: Seq<char>) -> Seq<char> {
    let a = text::replaced_text(p, r"\*"@, r"\#$~"@);
    let b = text::replaced(a, '*', "([^/]*)"@);
    let c = text::replaced(b, '?', r"\?"@);
    text::replaced_text(c, "#$~"@, "*"@)
}

/// The expression for a pattern: what it matches and everything below,
/// anywhere unless it is anchored.
pub open spec fn framed(p: Seq<char>) -> Seq<char> {
    let e = if p.len() > 0 && p.last() == '/' {
        p + "(|.*)$"@
    } else {
        p + "(|/.*)$"@
    };
    if e.len() > 0 && e[0] == '/' {
        "^(|/)"@ + e.skip(1)
    } else {
        "^(|.*/)"@ + e
    }
}

/// The expression for a pattern.
pub open spec fn expression(p: Seq<char>) -> Seq<char> {
    framed(
        single_stars(
            double_stars(without_any_dir(text::replaced(anchored(body(p)), '.', r"\."@))),
        ),
    )
}

/// The fixed expressions used on the way compile.
pub open spec fn tools_compile() -> bool {
    &&& pattern::compiles(DIR_WILDCARD@)
    &&& pattern::compiles(STARS_INSIDE@)
    &&& pattern::compiles(STARS_FIRST@)
    &&& pattern::compiles(STARS_LAST@)
}

/// What a line stands for: an expression, and whether it takes back earlier
/// matches. A line without a pattern, or whose expression does not compile,
/// stands for nothing.
pub open spec fn line_rule(line: Seq<char>) -> Option<(Seq<char>, bool)> {
    match bare(line) {
        Some(p) => if tools_compile() && pattern::compiles(expression(p)) {
            Some((expression(p), negates(p)))
        } else {
            None
        },
        None => None,
    }
}

/// What the lines stand for, in order.
pub open spec fn rules(lines: Seq<Seq<char>>) -> Seq<(Seq<char>, bool)>
    decreases lines.len(),
{
    if lines.len() == 0 {
        Seq::empty()
    } else {
        match line_rule(lines.last()) {
            Some(r) => rules(lines.drop_last()).push(r),
            None => rules(lines.drop_last()),
        }
    }
}

/// Whether a path is ignored after all rules: a rule that matches decides, until
/// a later one does.
pub open spec fn ignored(r: Seq<(Seq<char>, bool)>, f: Seq<char>) -> bool
    decreases r.len(),
{
    if r.len() == 0 {
        false
    } else if pattern::matches(r.last().0, f) {
        !r.last().1
    } else {
        ignored(r.drop_last(), f)
    }
}

impl IgnorePattern {
    pub closed spec fn rule(&self) -> (Seq<char>, bool) {
        (pattern::source(self.re), self.negate)
    }
}

/// The rules that a list of patterns holds.
pub open spec fn rules_of(v: Seq<IgnorePattern>) -> Seq<(Seq<char>, bool)> {
    v.map_values(|p: IgnorePattern| p.rule())
}

// ---------------------------------------------------------------------------
// Executable operations
// ---------------------------------------------------------------------------
/// Compiles ignore patterns, one per line.
pub fn compile(lines: &str) -> (r: Vec<IgnorePattern>)
    ensures
        rules_of(r@) == rules(text::split_on(lines@, '\n')),
{
    let all = text::split_str(lines, '\n');
    let ghost views = text::texts(all@);
    let mut out: Vec<IgnorePattern> = Vec::new();
    let mut i: usize = 0;
    assert(rules_of(out@) =~= rules(views.take(0)));
    while i < all.len()
        invariant
            i <= all.len(),
            views == text::texts(all@),
            rules_of(out@) == rules(views.take(i as int)),
        decreases all.len() - i,
    {
        let ghost before = rules_of(out@);
        assert(views.take(i + 1).drop_last() =~= views.take(i as int));
        assert(views.take(i + 1).last() == all@[i as int]@);
        if let Some(p) = pattern_from_line(all[i].as_str()) {
            out.push(p);
            assert(rules_of(out@) =~= before.push(p.rule()));
        }
        i = i + 1;
    }
    assert(views.take(i as int) =~= views);
    out
}

/// Whether a path, written with slashes and relative to the root, is ignored.
pub fn matches_path(patterns: &[IgnorePattern], f: &str) -> (r: bool)
    ensures
        r == ignored(rules_of(patterns@), text::replaced(f@, '\\', "/"@)),
{
    let f = text::replace_char(f, '\\', "/");
    let ghost all = rules_of(patterns@);
    let mut matched = false;
    let mut i: usize = 0;
    while i < patterns.len()
        invariant
            i <= patterns.len(),
            all == rules_of(patterns@),
            matched == ignored(all.take(i as int), f@),
        decreases patterns.len() - i,
    {
        assert(all.take(i + 1).drop_last() =~= all.take(i as int));
        assert(all.take(i + 1).last() == patterns@[i as int].rule());
        if pattern::is_match(&patterns[i].re, f.as_str()) {
            matched = !patterns[i].negate;
        }
        i = i + 1;
    }
    assert(all.take(i as int) =~= all);
    matched
}

/// The expression for a pattern, behind its body.
fn build_expression(start: String) -> (r: Option<String>)
    ensures
        match r {
            Some(e) => tools_compile() && e@ == framed(
                single_stars(
                    double_stars(without_any_dir(text::replaced(anchored(start@), '.', r"\."@))),
                ),
            ),
            None => !tools_compile(),
        },
{
    let dir = pattern::compile(DIR_WILDCARD)?;
    let inside = pattern::compile(STARS_INSIDE)?;
    let first = pattern::compile(STARS_FIRST)?;
    let last = pattern::compile(STARS_LAST)?;
    let mut line = start;
    let a = text::chars_of(line.as_str());
    if !(a.len() > 0 && a[0] == '/') && pattern::is_match(&dir, line.as_str()) {
        let mut slashed = String::new();
        slashed.push('/');
        slashed.append(line.as_str());
        assert(slashed@ =~= seq!['/'] + start@);
        line = slashed;
    }
    let line = text::replace_char(line.as_str(), '.', r"\.");
    let line = match text::strip_prefix(line.as_str(), "/**/") {
        Some(rest) => rest,
        None => line,
    };
    let line = pattern::replace_all(&inside, line.as_str(), "(/|/.+/)");
    let line = pattern::replace_all(&first, line.as_str(), "(|.*/)");
    let line = pattern::replace_all(&last, line.as_str(), "(|/.*)");
    proof {
        reveal_strlit(r"\*");
        reveal_strlit("#$~");
        assert(r"\*"@.len() == 2);
        assert("#$~"@.len() == 3);
    }
    let line = text::replace_text(line.as_str(), r"\*", r"\#$~");
    let line = text::replace_char(line.as_str(), '*', "([^/]*)");
    let line = text::replace_char(line.as_str(), '?', r"\?");
    let line = text::replace_text(line.as_str(), "#$~", "*");
    let b = text::chars_of(line.as_str());
    let expr = if b.len() > 0 && b[b.len() - 1] == '/' {
        text::cat(line.as_str(), "(|.*)$")
    } else {
        text::cat(line.as_str(), "(|/.*)$")
    };
    let c = text::chars_of(expr.as_str());
    if c.len() > 0 && c[0] == '/' {
        let rest = text::slice_of(c.as_slice(), 1, c.len());
        assert(rest@ =~= expr@.skip(1));
        let rest = text::string_of(rest.as_slice());
        Some(text::cat("^(|/)", rest.as_str()))
    } else {
        Some(text::cat("^(|.*/)", expr.as_str()))
    }
}

/// Compiles the pattern on a line.
fn pattern_from_line(line: &str) -> (r: Option<IgnorePattern>)
    ensures
        match r {
            Some(p) => line_rule(line@) == Some(p.rule()),
            None => line_rule(line@) is None,
        },
{
    let l = text::trimmed_end_of(line, '\r');
    let a = text::chars_of(l.as_str());
    if a.len() > 0 && a[0] == '#' {
        return None;
    }
    let p = text::trim_chars(a.as_slice());
    if p.len() == 0 {
        return None;
    }
    let negate = p[0] == '!';
    let mut from: usize = if negate {
        1
    } else {
        0
    };
    if from < p.len() && (p[from] == '#' || p[from] == '!') {
        from = from + 1;
    }
    let start = text::slice_of(p.as_slice(), from, p.len());
    proof {
        let q = if negates(p@) {
            p@.skip(1)
        } else {
            p@
        };
        if q.len() > 0 && (q[0] == '#' || q[0] == '!') {
            assert(start@ =~= q.skip(1));
        } else {
            assert(start@ =~= q);
        }
    }
    let expr = build_expression(text::string_of(start.as_slice()))?;
    let re = pattern::compile(expr.as_str())?;
    Some(IgnorePattern { re, negate })
}

/// The last rule that matches a path decides: it is ignored exactly when some
/// rule matches it that no later one takes back.
pub proof fn law_last_match_decides(r: Seq<(Seq<char>, bool)>, f: Seq<char>)
    ensures
        ignored(r, f) <==> exists|i: int|
            0 <= i < r.len() && pattern::matches((#[trigger] r[i]).0, f) && !r[i].1 && forall|j: int|
                i < j < r.len() ==> !pattern::matches((#[trigger] r[j]).0, f),
    decreases r.len(),
{
    if r.len() > 0 {
        let d = r.drop_last();
        law_last_match_decides(d, f);
        let n = r.len() - 1;
        if pattern::matches(r[n].0, f) {
            if !r[n].1 {
                assert(pattern::matches(r[n].0, f));
            }
        } else {
            if ignored(d, f) {
                let i = choose|i: int|
                    0 <= i < d.len() && pattern::matches((#[trigger] d[i]).0, f) && !d[i].1
                        && forall|j: int|
                        i < j < d.len() ==> !pattern::matches((#[trigger] d[j]).0, f);
                assert(r[i] == d[i]);
                assert forall|j: int| i < j < r.len() implies !pattern::matches(
                    (#[trigger] r[j]).0,
                    f,
                ) by {
                    if j < n {
                        assert(d[j] == r[j]);
                    }
                }
            }
            if exists|i: int|
                0 <= i < r.len() && pattern::matches((#[trigger] r[i]).0, f) && !r[i].1 && forall|
                    j: int,
                |
                    i < j < r.len() ==> !pattern::matches((#[trigger] r[j]).0, f) {
                let i = choose|i: int|
                    0 <= i < r.len() && pattern::matches((#[trigger] r[i]).0, f) && !r[i].1
                        && forall|j: int|
                        i < j < r.len() ==> !pattern::matches((#[trigger] r[j]).0, f);
                assert(d[i] == r[i]);
                assert forall|j: int| i < j < d.len() implies !pattern::matches(
                    (#[trigger] d[j]).0,
                    f,
                ) by {
                    assert(d[j] == r[j]);
                }
            }
        }
    }
}

// ---------------------------------------------------------------------------
// What patterns are translated to
// ---------------------------------------------------------------------------
/// An expression that stands for a fixed text: it replaces the occurrences of that
/// text, where the replacement names no group.
pub open spec fn reads_as(tool: Seq<char>, literal: Seq<char>) -> bool {
    forall|s: Seq<char>, by: Seq<char>|
        (forall|i: int| 0 <= i < by.len() ==> by[i] != '$') ==> #[trigger] pattern::substituted(
            tool,
            s,
            by,
        ) == text::replaced_text(s, literal, by)
}

/// The expressions for double stars stand for what they look like.
pub open spec fn stars_read_as_written() -> bool {
    &&& reads_as(r"/\*\*/"@, "/**/"@)
    &&& reads_as(r"\*\*/"@, "**/"@)
    &&& reads_as(r"/\*\*"@, "/**"@)
}

/// No two stars stand side by side.
pub open spec fn stars_apart(s: Seq<char>) -> bool {
    forall|i: int, j: int|
        0 <= i < s.len() && j == i + 1 && j < s.len() ==> !(#[trigger] s[i] == '*' && #[trigger] s[j]
            == '*')
}

/// A part of a pattern without double stars, escapes and question marks.
pub open spec fn is_piece(q: Seq<char>) -> bool {
    &&& stars_apart(q)
    &&& forall|i: int|
        0 <= i < q.len() ==> #[trigger] q[i] != '\\' && q[i] != '?' && q[i] != '#'
}

/// What a part of a pattern is translated to: dots are escaped, a star stands for
/// anything but a slash.
pub open spec fn piece_expression(q: Seq<char>) -> Seq<char> {
    text::replaced(text::replaced(q, '.', r"\."@), '*', "([^/]*)"@)
}

/// What the end of a pattern is translated to: everything below matches too.
pub open spec fn tail_expression(q: Seq<char>) -> Seq<char> {
    if q.last() == '/' {
        "(|.*)$"@
    } else {
        "(|/.*)$"@
    }
}

/// What the passes over single stars leave as it is.
spec fn is_settled(s: Seq<char>) -> bool {
    &&& stars_apart(s)
    &&& forall|i: int| 0 <= i < s.len() ==> #[trigger] s[i] != '?' && s[i] != '#'
    &&& forall|i: int|
        0 <= i < s.len() && #[trigger] s[i] == '\\' ==> i + 1 < s.len() && s[i + 1] == '.'
}

proof fn lemma_literals()
    ensures
        r"\."@ =~= seq!['\\', '.'],
        "/**/"@ =~= seq!['/', '*', '*', '/'],
        "**/"@ =~= seq!['*', '*', '/'],
        "/**"@ =~= seq!['/', '*', '*'],
        "(/|/.+/)"@ =~= seq!['(', '/', '|', '/', '.', '+', '/', ')'],
        "(|.*/)"@ =~= seq!['(', '|', '.', '*', '/', ')'],
        "(|/.*)"@ =~= seq!['(', '|', '/', '.', '*', ')'],
        "([^/]*)"@ =~= seq!['(', '[', '^', '/', ']', '*', ')'],
        r"\*"@ =~= seq!['\\', '*'],
        "#$~"@ =~= seq!['#', '$', '~'],
        r"\#$~"@ =~= seq!['\\', '#', '$', '~'],
        r"\?"@ =~= seq!['\\', '?'],
        "*"@ =~= seq!['*'],
        "(|.*)$"@ =~= seq!['(', '|', '.', '*', ')', '$'],
        "(|/.*)$"@ =~= seq!['(', '|', '/', '.', '*', ')', '$'],
{
    reveal_strlit(r"\.");
    reveal_strlit("/**/");
    reveal_strlit("**/");
    reveal_strlit("/**");
    reveal_strlit("(/|/.+/)");
    reveal_strlit("(|.*/)");
    reveal_strlit("(|/.*)");
    reveal_strlit("([^/]*)");
    reveal_strlit(r"\*");
    reveal_strlit("#$~");
    reveal_strlit(r"\#$~");
    reveal_strlit(r"\?");
    reveal_strlit("*");
    reveal_strlit("(|.*)$");
    reveal_strlit("(|/.*)$");
}

proof fn lemma_prefix_at(s: Seq<char>, p: Seq<char>, i: int, k: int)
    requires
        0 <= i <= s.len(),
        0 <= k < p.len(),
        p.is_prefix_of(s.skip(i)),
    ensures
        i + k < s.len(),
        s[i + k] == p[k],
{
    assert(p[k] == s.skip(i).subrange(0, p.len() as int)[k]);
}

proof fn lemma_settled_cat(a: Seq<char>, b: Seq<char>)
    requires
        is_settled(a),
        is_settled(b),
        a.len() == 0 || b.len() == 0 || a.last() != '*' || b[0] != '*',
    ensures
        is_settled(a + b),
{
    let s = a + b;
    assert forall|i: int, j: int| 0 <= i < s.len() && j == i + 1 && j < s.len() implies !(
    #[trigger] s[i] == '*' && #[trigger] s[j] == '*') by {
        if j < a.len() {
            assert(s[i] == a[i] && s[j] == a[j]);
        } else if i >= a.len() {
            assert(s[i] == b[i - a.len()] && s[j] == b[j - a.len()]);
        } else {
            assert(s[i] == a.last() && s[j] == b[0]);
        }
    }
    assert forall|i: int| 0 <= i < s.len() implies #[trigger] s[i] != '?' && s[i] != '#' by {
        if i < a.len() {
            assert(s[i] == a[i]);
        } else {
            assert(s[i] == b[i - a.len()]);
        }
    }
    assert forall|i: int| 0 <= i < s.len() && #[trigger] s[i] == '\\' implies i + 1 < s.len()
        && s[i + 1] == '.' by {
        if i < a.len() {
            assert(a[i] == '\\');
            assert(s[i + 1] == a[i + 1]);
        } else {
            assert(b[i - a.len()] == '\\');
            assert(s[i + 1] == b[i - a.len() + 1]);
        }
    }
}

proof fn lemma_escaped(q: Seq<char>)
    requires
        is_piece(q),
    ensures
        ({
            let e = text::replaced(q, '.', r"\."@);
            &&& is_settled(e)
            &&& e.len() > 0 <==> q.len() > 0
            &&& q.len() > 0 ==> e.last() == q.last()
            &&& q.len() > 0 ==> e[0] == (if q[0] == '.' {
                '\\'
            } else {
                q[0]
            })
        }),
    decreases q.len(),
{
    lemma_literals();
    if q.len() > 0 {
        let h = q.drop_last();
        assert(is_piece(h)) by {
            assert forall|i: int, j: int| 0 <= i < h.len() && j == i + 1 && j < h.len() implies !(
            #[trigger] h[i] == '*' && #[trigger] h[j] == '*') by {
                assert(h[i] == q[i] && h[j] == q[j]);
            }
            assert forall|i: int| 0 <= i < h.len() implies #[trigger] h[i] != '\\' && h[i] != '?'
                && h[i] != '#' by {
                assert(h[i] == q[i]);
            }
        }
        lemma_escaped(h);
        let l = if q.last() == '.' {
            r"\."@
        } else {
            seq![q.last()]
        };
        assert(q[q.len() - 1] == q.last());
        assert(is_settled(l));
        if h.len() > 0 {
            assert(q[q.len() - 2] == h.last());
        }
        lemma_settled_cat(text::replaced(h, '.', r"\."@), l);
    }
}

proof fn lemma_replaced_ends(s: Seq<char>, c: char, by: Seq<char>)
    requires
        by.len() > 0,
    ensures
        ({
            let r = text::replaced(s, c, by);
            &&& r.len() > 0 <==> s.len() > 0
            &&& s.len() > 0 ==> r.last() == (if s.last() == c {
                by.last()
            } else {
                s.last()
            })
            &&& s.len() > 0 ==> r[0] == (if s[0] == c {
                by[0]
            } else {
                s[0]
            })
        }),
    decreases s.len(),
{
    if s.len() > 0 {
        lemma_replaced_ends(s.drop_last(), c, by);
    }
}

proof fn lemma_replaced_lacks(s: Seq<char>, c: char, by: Seq<char>, x: char)
    requires
        forall|i: int| 0 <= i < s.len() ==> #[trigger] s[i] != x,
        forall|i: int| 0 <= i < by.len() ==> #[trigger] by[i] != x,
    ensures
        forall|i: int|
            0 <= i < text::replaced(s, c, by).len() ==> #[trigger] text::replaced(s, c, by)[i] != x,
    decreases s.len(),
{
    if s.len() > 0 {
        let h = s.drop_last();
        assert forall|i: int| 0 <= i < h.len() implies #[trigger] h[i] != x by {
            assert(h[i] == s[i]);
        }
        lemma_replaced_lacks(h, c, by, x);
        let a = text::replaced(h, c, by);
        let r = text::replaced(s, c, by);
        assert(s[s.len() - 1] == s.last());
        assert forall|i: int| 0 <= i < r.len() implies #[trigger] r[i] != x by {
            if i < a.len() {
                assert(r[i] == a[i]);
            } else if s.last() == c {
                assert(r[i] == by[i - a.len()]);
            }
        }
    }
}

proof fn lemma_replaced_join(
    parts: Seq<Seq<char>>,
    sep: Seq<char>,
    c: char,
    by: Seq<char>,
)
    ensures
        text::replaced(text::join(parts, sep), c, by) == text::join(
            parts.map_values(|q: Seq<char>| text::replaced(q, c, by)),
            text::replaced(sep, c, by),
        ),
    decreases parts.len(),
{
    let f = |q: Seq<char>| text::replaced(q, c, by);
    let all = parts.map_values(f);
    if parts.len() == 0 {
        assert(text::replaced(Seq::<char>::empty(), c, by) =~= Seq::empty());
    } else if parts.len() > 1 {
        let h = parts.drop_last();
        lemma_replaced_join(h, sep, c, by);
        assert(all.drop_last() =~= h.map_values(f));
        text::law_replaced_cat(text::join(h, sep) + sep, parts.last(), c, by);
        text::law_replaced_cat(text::join(h, sep), sep, c, by);
    }
}

proof fn lemma_join_settled(es: Seq<Seq<char>>, sep: Seq<char>)
    requires
        forall|i: int| 0 <= i < es.len() ==> is_settled(#[trigger] es[i]),
        is_settled(sep),
        sep.len() > 0 && sep[0] != '*' && sep.last() != '*',
    ensures
        is_settled(text::join(es, sep)),
    decreases es.len(),
{
    if es.len() == 1 {
        assert(is_settled(es[0]));
    } else if es.len() > 1 {
        let h = es.drop_last();
        assert forall|i: int| 0 <= i < h.len() implies is_settled(#[trigger] h[i]) by {
            assert(h[i] == es[i]);
        }
        lemma_join_settled(h, sep);
        assert(is_settled(es[es.len() - 1]));
        let a = text::join(h, sep) + sep;
        lemma_settled_cat(text::join(h, sep), sep);
        assert(a.last() == sep.last());
        lemma_settled_cat(a, es.last());
    }
}

/// Text without neighbouring stars holds no double star.
proof fn lemma_no_double_stars(s: Seq<char>, by: Seq<char>)
    requires
        stars_apart(s),
    ensures
        text::replaced_text(s, "/**/"@, by) == s,
        text::replaced_text(s, "**/"@, by) == s,
        text::replaced_text(s, "/**"@, by) == s,
{
    reveal_strlit("/**/");
    reveal_strlit("**/");
    reveal_strlit("/**");
    assert forall|i: int| 0 <= i <= s.len() implies !"/**/"@.is_prefix_of(#[trigger] s.skip(i)) by {
        if "/**/"@.is_prefix_of(s.skip(i)) {
            lemma_prefix_at(s, "/**/"@, i, 1);
            lemma_prefix_at(s, "/**/"@, i, 2);
        }
    }
    assert forall|i: int| 0 <= i <= s.len() implies !"**/"@.is_prefix_of(#[trigger] s.skip(i)) by {
        if "**/"@.is_prefix_of(s.skip(i)) {
            lemma_prefix_at(s, "**/"@, i, 0);
            lemma_prefix_at(s, "**/"@, i, 1);
        }
    }
    assert forall|i: int| 0 <= i <= s.len() implies !"/**"@.is_prefix_of(#[trigger] s.skip(i)) by {
        if "/**"@.is_prefix_of(s.skip(i)) {
            lemma_prefix_at(s, "/**"@, i, 1);
            lemma_prefix_at(s, "/**"@, i, 2);
        }
    }
    text::law_replaced_text(s, "/**/"@, s, by);
    text::law_replaced_text(s, "**/"@, s, by);
    text::law_replaced_text(s, "/**"@, s, by);
}

proof fn lemma_inside(es: Seq<Seq<char>>, by: Seq<char>)
    requires
        es.len() > 0,
        forall|i: int| 0 <= i < es.len() ==> stars_apart(#[trigger] es[i]),
    ensures
        text::replaced_text(text::join(es, "/**/"@), "/**/"@, by) == text::join(es, by),
    decreases es.len(),
{
    reveal_strlit("/**/");
    let p = "/**/"@;
    let a = es[0];
    assert(stars_apart(a));
    if es.len() == 1 {
        lemma_no_double_stars(a, by);
    } else {
        let rest = es.skip(1);
        let b = text::join(rest, p);
        text::lemma_join_front(es, p);
        text::lemma_join_front(es, by);
        assert forall|i: int| 0 <= i < rest.len() implies stars_apart(#[trigger] rest[i]) by {
            assert(rest[i] == es[i + 1]);
        }
        lemma_inside(rest, by);
        let s = a + p + b;
        assert forall|i: int| 0 <= i < a.len() implies !p.is_prefix_of(#[trigger] s.skip(i)) by {
            if p.is_prefix_of(s.skip(i)) {
                lemma_prefix_at(s, p, i, 1);
                lemma_prefix_at(s, p, i, 2);
                if i + 2 < a.len() {
                    assert(s[i + 1] == a[i + 1] && s[i + 2] == a[i + 2]);
                } else if i + 2 == a.len() {
                    assert(s[i + 2] == p[0]);
                } else {
                    assert(s[i + 1] == p[0]);
                }
            }
        }
        text::law_replaced_text(a, p, b, by);
    }
}

/// The passes over single stars turn stars into expressions and leave the rest.
proof fn lemma_single_stars(s: Seq<char>)
    requires
        is_settled(s),
    ensures
        single_stars(s) == text::replaced(s, '*', "([^/]*)"@),
{
    lemma_literals();
    assert forall|i: int| 0 <= i <= s.len() implies !r"\*"@.is_prefix_of(#[trigger] s.skip(i)) by {
        if r"\*"@.is_prefix_of(s.skip(i)) {
            lemma_prefix_at(s, r"\*"@, i, 0);
            lemma_prefix_at(s, r"\*"@, i, 1);
        }
    }
    text::law_replaced_text(s, r"\*"@, s, r"\#$~"@);
    let b = text::replaced(s, '*', "([^/]*)"@);
    lemma_replaced_lacks(s, '*', "([^/]*)"@, '?');
    lemma_replaced_lacks(s, '*', "([^/]*)"@, '#');
    text::law_replaced(b, '?', r"\?"@);
    assert forall|i: int| 0 <= i <= b.len() implies !"#$~"@.is_prefix_of(#[trigger] b.skip(i)) by {
        if "#$~"@.is_prefix_of(b.skip(i)) {
            lemma_prefix_at(b, "#$~"@, i, 0);
        }
    }
    text::law_replaced_text(b, "#$~"@, b, "*"@);
}

proof fn lemma_escaped_parts(parts: Seq<Seq<char>>)
    requires
        forall|i: int| 0 <= i < parts.len() ==> is_piece(#[trigger] parts[i]),
    ensures
        ({
            let es = parts.map_values(|q: Seq<char>| text::replaced(q, '.', r"\."@));
            &&& text::replaced(text::join(parts, "/**/"@), '.', r"\."@) == text::join(es, "/**/"@)
            &&& forall|i: int|
                0 <= i < es.len() ==> is_settled(#[trigger] es[i]) && stars_apart(es[i])
        }),
{
    let sep = "/**/"@;
    let es = parts.map_values(|q: Seq<char>| text::replaced(q, '.', r"\."@));
    lemma_replaced_join(parts, sep, '.', r"\."@);
    assert(text::replaced(sep, '.', r"\."@) == sep) by {
        lemma_literals();
        text::law_replaced(sep, '.', r"\."@);
    }
    assert forall|i: int| 0 <= i < es.len() implies is_settled(#[trigger] es[i]) && stars_apart(
        es[i],
    ) by {
        lemma_escaped(parts[i]);
    }
}

proof fn lemma_stars_between(es: Seq<Seq<char>>)
    requires
        stars_read_as_written(),
        es.len() > 0,
        forall|i: int| 0 <= i < es.len() ==> is_settled(#[trigger] es[i]) && stars_apart(es[i]),
    ensures
        double_stars(text::join(es, "/**/"@)) == text::join(es, "(/|/.+/)"@),
        is_settled(text::join(es, "(/|/.+/)"@)),
{
    let by = "(/|/.+/)"@;
    let e = text::join(es, "/**/"@);
    let a = text::join(es, by);
    lemma_inside(es, by);
    lemma_groups_settled();
    lemma_join_settled(es, by);
    lemma_no_double_stars(a, "(|.*/)"@);
    lemma_no_double_stars(a, "(|/.*)"@);
    assert(pattern::substituted(STARS_INSIDE@, e, by) == a);
    assert(pattern::substituted(STARS_FIRST@, a, "(|.*/)"@) == a);
    assert(pattern::substituted(STARS_LAST@, a, "(|/.*)"@) == a);
}

proof fn lemma_not_any_dir(es: Seq<Seq<char>>)
    requires
        es.len() > 0,
        es[0].len() > 0,
        stars_apart(es[0]),
    ensures
        !"/**/"@.is_prefix_of(text::join(es, "/**/"@)),
{
    let sep = "/**/"@;
    let e = text::join(es, sep);
    reveal_strlit("/**/");
    if sep.is_prefix_of(e) {
        let f = es[0];
        assert(e.skip(0) =~= e);
        lemma_prefix_at(e, sep, 0, 1);
        lemma_prefix_at(e, sep, 0, 2);
        if es.len() > 1 {
            text::lemma_join_front(es, sep);
            if f.len() > 2 {
                assert(e[1] == f[1] && e[2] == f[2]);
            } else if f.len() == 2 {
                assert(e[2] == sep[0]);
            } else {
                assert(e[1] == sep[0]);
            }
        }
    }
}

proof fn lemma_translated(parts: Seq<Seq<char>>)
    requires
        stars_read_as_written(),
        parts.len() > 0,
        forall|i: int| 0 <= i < parts.len() ==> is_piece(#[trigger] parts[i]),
    ensures
        ({
            let e = text::replaced(text::join(parts, "/**/"@), '.', r"\."@);
            &&& single_stars(double_stars(e)) == text::join(
                parts.map_values(|q: Seq<char>| piece_expression(q)),
                "(/|/.+/)"@,
            )
            &&& parts[0].len() > 0 ==> !"/**/"@.is_prefix_of(e)
        }),
{
    let by = "(/|/.+/)"@;
    let es = parts.map_values(|q: Seq<char>| text::replaced(q, '.', r"\."@));
    lemma_escaped_parts(parts);
    lemma_stars_between(es);
    lemma_single_stars(text::join(es, by));
    lemma_replaced_join(es, by, '*', "([^/]*)"@);
    assert(text::replaced(by, '*', "([^/]*)"@) == by) by {
        lemma_literals();
        text::law_replaced(by, '*', "([^/]*)"@);
    }
    assert(es.map_values(|q: Seq<char>| text::replaced(q, '*', "([^/]*)"@)) =~= parts.map_values(
        |q: Seq<char>| piece_expression(q),
    ));
    if parts[0].len() > 0 {
        assert(is_piece(parts[0]));
        lemma_escaped(parts[0]);
        lemma_not_any_dir(es);
    }
}

proof fn lemma_piece_ends(q: Seq<char>)
    requires
        is_piece(q),
        q.len() > 0,
    ensures
        piece_expression(q).len() > 0,
        piece_expression(q)[0] == '/' <==> q[0] == '/',
        piece_expression(q).last() == '/' <==> q.last() == '/',
        piece_expression(seq!['/'] + q) == seq!['/'] + piece_expression(q),
        is_piece(seq!['/'] + q),
{
    lemma_literals();
    lemma_escaped(q);
    let e = text::replaced(q, '.', r"\."@);
    lemma_replaced_ends(e, '*', "([^/]*)"@);
    text::law_replaced_cat(seq!['/'], q, '.', r"\."@);
    text::law_replaced(seq!['/'], '.', r"\."@);
    text::law_replaced_cat(seq!['/'], e, '*', "([^/]*)"@);
    text::law_replaced(seq!['/'], '*', "([^/]*)"@);
    let s = seq!['/'] + q;
    assert forall|i: int, j: int| 0 <= i < s.len() && j == i + 1 && j < s.len() implies !(
    #[trigger] s[i] == '*' && #[trigger] s[j] == '*') by {
        if i > 0 {
            assert(s[i] == q[i - 1] && s[j] == q[j - 1]);
        }
    }
    assert forall|i: int| 0 <= i < s.len() implies #[trigger] s[i] != '\\' && s[i] != '?' && s[i]
        != '#' by {
        if i > 0 {
            assert(s[i] == q[i - 1]);
        }
    }
}

proof fn lemma_join_ends(parts: Seq<Seq<char>>, sep: Seq<char>)
    requires
        parts.len() > 0,
        parts[0].len() > 0,
        parts.last().len() > 0,
    ensures
        text::join(parts, sep).len() > 0,
        text::join(parts, sep)[0] == parts[0][0],
        text::join(parts, sep).last() == parts.last().last(),
{
    if parts.len() > 1 {
        text::lemma_join_front(parts, sep);
    }
}

proof fn lemma_framed(e: Seq<char>, q: Seq<char>)
    requires
        e.len() > 0,
        e.last() == '/' <==> q.last() == '/',
    ensures
        e[0] == '/' ==> framed(e) == "^(|/)"@ + e.skip(1) + tail_expression(q),
        e[0] != '/' ==> framed(e) == "^(|.*/)"@ + e + tail_expression(q),
{
    let tail = tail_expression(q);
    assert((e + tail)[0] == e[0]);
    assert((e + tail).skip(1) =~= e.skip(1) + tail);
    assert("^(|/)"@ + (e.skip(1) + tail) =~= "^(|/)"@ + e.skip(1) + tail);
    assert("^(|.*/)"@ + (e + tail) =~= "^(|.*/)"@ + e + tail);
}

/// What becomes of the text of a pattern once it is known where it is anchored.
spec fn translated(p: Seq<char>) -> Seq<char> {
    framed(single_stars(double_stars(without_any_dir(text::replaced(p, '.', r"\."@)))))
}

proof fn lemma_translated_parts(parts: Seq<Seq<char>>)
    requires
        stars_read_as_written(),
        parts.len() > 0,
        forall|i: int| 0 <= i < parts.len() ==> is_piece(#[trigger] parts[i]),
        parts[0].len() > 0,
        parts.last().len() > 0,
    ensures
        ({
            let e = text::join(
                parts.map_values(|q: Seq<char>| piece_expression(q)),
                "(/|/.+/)"@,
            );
            &&& parts[0][0] == '/' ==> translated(text::join(parts, "/**/"@)) == "^(|/)"@ + e.skip(
                1,
            ) + tail_expression(parts.last())
            &&& parts[0][0] != '/' ==> translated(text::join(parts, "/**/"@)) == "^(|.*/)"@ + e
                + tail_expression(parts.last())
        }),
{
    let f = |q: Seq<char>| piece_expression(q);
    let all = parts.map_values(f);
    let e = text::join(all, "(/|/.+/)"@);
    assert(is_piece(parts[0]) && is_piece(parts[parts.len() - 1]));
    lemma_piece_ends(parts[0]);
    lemma_piece_ends(parts.last());
    lemma_join_ends(all, "(/|/.+/)"@);
    lemma_translated(parts);
    lemma_framed(e, parts.last());
}

proof fn lemma_slashed(parts: Seq<Seq<char>>)
    requires
        parts.len() > 0,
        forall|i: int| 0 <= i < parts.len() ==> is_piece(#[trigger] parts[i]),
        parts[0].len() > 0,
    ensures
        ({
            let f = |q: Seq<char>| piece_expression(q);
            let more = parts.update(0, seq!['/'] + parts[0]);
            &&& text::join(more, "/**/"@) == seq!['/'] + text::join(parts, "/**/"@)
            &&& text::join(more.map_values(f), "(/|/.+/)"@) == seq!['/'] + text::join(
                parts.map_values(f),
                "(/|/.+/)"@,
            )
            &&& forall|i: int| 0 <= i < more.len() ==> is_piece(#[trigger] more[i])
        }),
{
    let sep = "/**/"@;
    let by = "(/|/.+/)"@;
    let f = |q: Seq<char>| piece_expression(q);
    let more = parts.update(0, seq!['/'] + parts[0]);
    assert(is_piece(parts[0]));
    lemma_piece_ends(parts[0]);
    if parts.len() > 1 {
        text::lemma_join_front(parts, sep);
        text::lemma_join_front(more, sep);
        text::lemma_join_front(parts.map_values(f), by);
        text::lemma_join_front(more.map_values(f), by);
        assert(more.skip(1) =~= parts.skip(1));
        assert(more.map_values(f).skip(1) =~= parts.map_values(f).skip(1));
    }
    assert(text::join(more, sep) =~= seq!['/'] + text::join(parts, sep));
    assert(text::join(more.map_values(f), by) =~= seq!['/'] + text::join(
        parts.map_values(f),
        by,
    ));
    assert forall|i: int| 0 <= i < more.len() implies is_piece(#[trigger] more[i]) by {
        if i > 0 {
            assert(more[i] == parts[i]);
        }
    }
}

/// The expression of a pattern, written out. `/**/` between two parts stands for one
/// slash or for a slash, any directories and a slash; a star stands for anything but
/// a slash; a dot stands for itself. A pattern is matched from the root where it starts
/// with a slash or has a wildcard inside a directory, else behind any slash.
pub proof fn law_expression_of_parts(parts: Seq<Seq<char>>)
    requires
        stars_read_as_written(),
        parts.len() > 0,
        forall|i: int| 0 <= i < parts.len() ==> is_piece(#[trigger] parts[i]),
        parts[0].len() > 0 && parts[0][0] != '!',
        parts.last().len() > 0,
    ensures
        ({
            let p = text::join(parts, "/**/"@);
            let e = text::join(
                parts.map_values(|q: Seq<char>| piece_expression(q)),
                "(/|/.+/)"@,
            );
            let tail = tail_expression(parts.last());
            if parts[0][0] == '/' {
                expression(p) == "^(|/)"@ + e.skip(1) + tail
            } else if pattern::matches(r"([^/+])/.*\*."@, p) {
                expression(p) == "^(|/)"@ + e + tail
            } else {
                expression(p) == "^(|.*/)"@ + e + tail
            }
        }),
{
    let f = |q: Seq<char>| piece_expression(q);
    let p = text::join(parts, "/**/"@);
    let e = text::join(parts.map_values(f), "(/|/.+/)"@);
    assert(is_piece(parts[0]));
    lemma_join_ends(parts, "/**/"@);
    assert(parts[0][0] != '#');
    assert(body(p) == p);
    assert(expression(p) == translated(anchored(p)));
    if parts[0][0] != '/' && pattern::matches(r"([^/+])/.*\*."@, p) {
        let more = parts.update(0, seq!['/'] + parts[0]);
        lemma_slashed(parts);
        lemma_translated_parts(more);
        assert((seq!['/'] + e).skip(1) =~= e);
        assert(more.last().last() == parts.last().last());
    } else {
        lemma_translated_parts(parts);
    }
}

proof fn lemma_star_groups()
    ensures
        text::replaced("(|/.*)"@, '*', "([^/]*)"@) == "(|/.([^/]*))"@,
        text::replaced("(|.*/)"@, '*', "([^/]*)"@) == "(|.([^/]*)/)"@,
        "(|/.([^/]*))"@.len() > 0 && "(|/.([^/]*))"@.last() == ')',
        "(|.([^/]*)/)"@.len() > 0 && "(|.([^/]*)/)"@[0] == '(',
{
    lemma_literals();
    let by = "([^/]*)"@;
    reveal_strlit("(|/.([^/]*))");
    reveal_strlit("(|.([^/]*)/)");
    let l = seq!['(', '|', '/', '.'];
    let r = seq![')'];
    assert("(|/.*)"@ =~= l + seq!['*'] + r);
    text::law_replaced_cat(l + seq!['*'], r, '*', by);
    text::law_replaced_cat(l, seq!['*'], '*', by);
    text::law_replaced(l, '*', by);
    text::law_replaced(r, '*', by);
    assert(l + by + r =~= "(|/.([^/]*))"@);
    let l = seq!['(', '|', '.'];
    let r = seq!['/', ')'];
    assert("(|.*/)"@ =~= l + seq!['*'] + r);
    text::law_replaced_cat(l + seq!['*'], r, '*', by);
    text::law_replaced_cat(l, seq!['*'], '*', by);
    text::law_replaced(l, '*', by);
    text::law_replaced(r, '*', by);
    assert(l + by + r =~= "(|.([^/]*)/)"@);
}

proof fn lemma_behind_not_inside(a: Seq<char>, by: Seq<char>)
    requires
        stars_apart(a),
    ensures
        !"/**/"@.is_prefix_of(a + "/**"@),
        text::replaced_text(a + "/**"@, "/**/"@, by) == a + "/**"@,
{
    let p = "/**/"@;
    reveal_strlit("/**/");
    reveal_strlit("/**");
    let s = a + "/**"@;
    assert forall|i: int| 0 <= i <= s.len() implies !p.is_prefix_of(#[trigger] s.skip(i)) by {
        if p.is_prefix_of(s.skip(i)) {
            lemma_prefix_at(s, p, i, 1);
            lemma_prefix_at(s, p, i, 2);
            lemma_prefix_at(s, p, i, 3);
            assert(s[i + 1] == a[i + 1]);
            if i + 2 < a.len() {
                assert(s[i + 2] == a[i + 2]);
            }
        }
    }
    assert(s.skip(0) =~= s);
    assert(!p.is_prefix_of(s.skip(0)));
    text::law_replaced_text(s, p, s, by);
}

proof fn lemma_behind_not_before(a: Seq<char>, by: Seq<char>)
    requires
        stars_apart(a),
    ensures
        text::replaced_text(a + "/**"@, "**/"@, by) == a + "/**"@,
{
    let p = "**/"@;
    reveal_strlit("**/");
    reveal_strlit("/**");
    let s = a + "/**"@;
    assert forall|i: int| 0 <= i <= s.len() implies !p.is_prefix_of(#[trigger] s.skip(i)) by {
        if p.is_prefix_of(s.skip(i)) {
            lemma_prefix_at(s, p, i, 0);
            lemma_prefix_at(s, p, i, 1);
            lemma_prefix_at(s, p, i, 2);
            assert(s[i] == a[i]);
            if i + 1 < a.len() {
                assert(s[i + 1] == a[i + 1]);
            }
        }
    }
    text::law_replaced_text(s, p, s, by);
}

proof fn lemma_behind(a: Seq<char>, by: Seq<char>)
    requires
        stars_apart(a),
    ensures
        text::replaced_text(a + "/**"@, "/**"@, by) == a + by,
{
    let p = "/**"@;
    reveal_strlit("/**");
    let t = a + p + Seq::<char>::empty();
    assert(t =~= a + p);
    assert forall|i: int| 0 <= i < a.len() implies !p.is_prefix_of(#[trigger] t.skip(i)) by {
        if p.is_prefix_of(t.skip(i)) {
            lemma_prefix_at(t, p, i, 1);
            lemma_prefix_at(t, p, i, 2);
            if i + 2 < a.len() {
                assert(t[i + 1] == a[i + 1] && t[i + 2] == a[i + 2]);
            } else if i + 2 == a.len() {
                assert(t[i + 2] == p[0]);
            } else {
                assert(t[i + 1] == p[0]);
            }
        }
    }
    text::law_replaced_text(a, p, Seq::empty(), by);
    lemma_no_double_stars(Seq::empty(), by);
    assert(a + by + Seq::<char>::empty() =~= a + by);
}

proof fn lemma_groups_settled()
    ensures
        is_settled("(|/.*)"@),
        is_settled("(|.*/)"@),
        is_settled("(/|/.+/)"@),
        "(/|/.+/)"@.len() > 0 && "(/|/.+/)"@[0] != '*' && "(/|/.+/)"@.last() != '*',
        "(|/.*)"@.len() > 0 && "(|/.*)"@[0] != '*',
        "(|.*/)"@.len() > 0 && "(|.*/)"@.last() != '*',
        forall|i: int| 0 <= i < "(/|/.+/)"@.len() ==> "(/|/.+/)"@[i] != '$',
        forall|i: int| 0 <= i < "(|.*/)"@.len() ==> "(|.*/)"@[i] != '$',
        forall|i: int| 0 <= i < "(|/.*)"@.len() ==> "(|/.*)"@[i] != '$',
{
    lemma_literals();
}

proof fn lemma_stars_behind(a: Seq<char>)
    requires
        stars_read_as_written(),
        is_settled(a),
    ensures
        !"/**/"@.is_prefix_of(a + "/**"@),
        double_stars(a + "/**"@) == a + "(|/.*)"@,
        is_settled(a + "(|/.*)"@),
{
    let s = a + "/**"@;
    lemma_groups_settled();
    lemma_behind_not_inside(a, "(/|/.+/)"@);
    lemma_behind_not_before(a, "(|.*/)"@);
    lemma_behind(a, "(|/.*)"@);
    assert(pattern::substituted(STARS_INSIDE@, s, "(/|/.+/)"@) == s);
    assert(pattern::substituted(STARS_FIRST@, s, "(|.*/)"@) == s);
    assert(pattern::substituted(STARS_LAST@, s, "(|/.*)"@) == a + "(|/.*)"@);
    lemma_settled_cat(a, "(|/.*)"@);
}

proof fn lemma_before_not_inside(a: Seq<char>, by: Seq<char>)
    requires
        stars_apart(a),
    ensures
        !"/**/"@.is_prefix_of("**/"@ + a),
        text::replaced_text("**/"@ + a, "/**/"@, by) == "**/"@ + a,
{
    let p = "/**/"@;
    reveal_strlit("/**/");
    reveal_strlit("**/");
    let s = "**/"@ + a;
    assert forall|i: int| 0 <= i <= s.len() implies !p.is_prefix_of(#[trigger] s.skip(i)) by {
        if p.is_prefix_of(s.skip(i)) {
            lemma_prefix_at(s, p, i, 0);
            lemma_prefix_at(s, p, i, 1);
            lemma_prefix_at(s, p, i, 2);
            assert(s[i + 1] == a[i - 2] && s[i + 2] == a[i - 1]);
        }
    }
    assert(s.skip(0) =~= s);
    assert(!p.is_prefix_of(s.skip(0)));
    text::law_replaced_text(s, p, s, by);
}

proof fn lemma_before(a: Seq<char>, by: Seq<char>)
    requires
        stars_apart(a),
    ensures
        text::replaced_text("**/"@ + a, "**/"@, by) == by + a,
{
    let p = "**/"@;
    reveal_strlit("**/");
    let none = Seq::<char>::empty();
    assert(none + p + a =~= p + a);
    text::law_replaced_text(none, p, a, by);
    lemma_no_double_stars(a, by);
    assert(none + by + a =~= by + a);
}

proof fn lemma_stars_before(a: Seq<char>)
    requires
        stars_read_as_written(),
        is_settled(a),
    ensures
        !"/**/"@.is_prefix_of("**/"@ + a),
        double_stars("**/"@ + a) == "(|.*/)"@ + a,
        is_settled("(|.*/)"@ + a),
{
    let s = "**/"@ + a;
    let b = "(|.*/)"@ + a;
    lemma_groups_settled();
    lemma_before_not_inside(a, "(/|/.+/)"@);
    lemma_before(a, "(|.*/)"@);
    lemma_settled_cat("(|.*/)"@, a);
    lemma_no_double_stars(b, "(|/.*)"@);
    assert(pattern::substituted(STARS_INSIDE@, s, "(/|/.+/)"@) == s);
    assert(pattern::substituted(STARS_FIRST@, s, "(|.*/)"@) == b);
    assert(pattern::substituted(STARS_LAST@, b, "(|/.*)"@) == b);
}

/// The expression of a part with double stars behind it: the part itself, and
/// whatever is below it.
pub proof fn law_expression_with_stars_behind(q: Seq<char>)
    requires
        stars_read_as_written(),
        is_piece(q),
        q.len() > 0 && q[0] != '!' && q[0] != '/',
        !pattern::matches(r"([^/+])/.*\*."@, q + "/**"@),
    ensures
        expression(q + "/**"@) == "^(|.*/)"@ + (piece_expression(q) + "(|/.([^/]*))"@)
            + "(|/.*)$"@,
{
    let p = q + "/**"@;
    assert(p[0] == q[0]);
    assert(body(p) == p);
    assert(anchored(p) == p);
    let a = text::replaced(q, '.', r"\."@);
    text::law_replaced_cat(q, "/**"@, '.', r"\."@);
    assert(text::replaced("/**"@, '.', r"\."@) == "/**"@) by {
        lemma_literals();
        text::law_replaced("/**"@, '.', r"\."@);
    }
    lemma_escaped(q);
    lemma_stars_behind(a);
    lemma_single_stars(a + "(|/.*)"@);
    text::law_replaced_cat(a, "(|/.*)"@, '*', "([^/]*)"@);
    lemma_star_groups();
    let e = piece_expression(q) + "(|/.([^/]*))"@;
    lemma_piece_ends(q);
    assert(e[0] == piece_expression(q)[0]);
    assert(e.last() == ')');
    lemma_framed(e, seq![')']);
}

/// The expression of a part with double stars before it: it is matched behind any
/// slash.
pub proof fn law_expression_with_stars_before(q: Seq<char>)
    requires
        stars_read_as_written(),
        is_piece(q),
        q.len() > 0,
        !pattern::matches(r"([^/+])/.*\*."@, "**/"@ + q),
    ensures
        expression("**/"@ + q) == "^(|.*/)"@ + ("(|.([^/]*)/)"@ + piece_expression(q))
            + tail_expression(q),
{
    let p = "**/"@ + q;
    assert(p[0] == '*') by {
        lemma_literals();
    }
    assert(body(p) == p);
    assert(anchored(p) == p);
    let a = text::replaced(q, '.', r"\."@);
    text::law_replaced_cat("**/"@, q, '.', r"\."@);
    assert(text::replaced("**/"@, '.', r"\."@) == "**/"@) by {
        lemma_literals();
        text::law_replaced("**/"@, '.', r"\."@);
    }
    lemma_escaped(q);
    lemma_stars_before(a);
    lemma_single_stars("(|.*/)"@ + a);
    text::law_replaced_cat("(|.*/)"@, a, '*', "([^/]*)"@);
    lemma_star_groups();
    let e = "(|.([^/]*)/)"@ + piece_expression(q);
    lemma_piece_ends(q);
    assert(e[0] == '(');
    assert(e.last() == piece_expression(q).last());
    lemma_framed(e, q);
}

/// A leading `/**/` says that the rest is matched behind any slash.
pub proof fn law_expression_in_any_directory(q: Seq<char>)
    requires
        stars_read_as_written(),
        is_piece(q),
        q.len() > 0 && q[0] != '/',
    ensures
        expression("/**/"@ + q) == "^(|.*/)"@ + piece_expression(q) + tail_expression(q),
{
    lemma_literals();
    let p = "/**/"@ + q;
    assert(body(p) == p);
    assert(anchored(p) == p);
    text::law_replaced_cat("/**/"@, q, '.', r"\."@);
    text::law_replaced("/**/"@, '.', r"\."@);
    let a = text::replaced(q, '.', r"\."@);
    let s = "/**/"@ + a;
    assert("/**/"@ =~= s.subrange(0, "/**/"@.len() as int));
    assert(s.skip("/**/"@.len() as int) =~= a);
    let parts = seq![q];
    assert(text::join(parts, "/**/"@) == q);
    lemma_translated(parts);
    let f = |q: Seq<char>| piece_expression(q);
    assert(parts.map_values(f)[0] == piece_expression(q));
    assert(text::join(parts.map_values(f), "(/|/.+/)"@) == piece_expression(q));
    lemma_piece_ends(q);
    lemma_framed(piece_expression(q), q);
}

/// A question mark stands for itself, and so does an escaped star.
#[verifier::rlimit(80)]
pub proof fn law_escapes(a: Seq<char>, b: Seq<char>)
    requires
        is_piece(a) && is_piece(b),
    ensures
        single_stars(a + "?"@ + b) == text::replaced(a, '*', "([^/]*)"@) + r"\?"@ + text::replaced(
            b,
            '*',
            "([^/]*)"@,
        ),
        single_stars(a + r"\*"@ + b) == text::replaced(a, '*', "([^/]*)"@) + r"\*"@
            + text::replaced(b, '*', "([^/]*)"@),
{
    lemma_literals();
    reveal_strlit("?");
    let by = "([^/]*)"@;
    let ra = text::replaced(a, '*', by);
    let rb = text::replaced(b, '*', by);
    lemma_replaced_lacks(a, '*', by, '?');
    lemma_replaced_lacks(b, '*', by, '?');
    lemma_replaced_lacks(a, '*', by, '#');
    lemma_replaced_lacks(b, '*', by, '#');
    // a question mark
    let s = a + "?"@ + b;
    assert forall|i: int| 0 <= i <= s.len() implies !r"\*"@.is_prefix_of(#[trigger] s.skip(i)) by {
        if r"\*"@.is_prefix_of(s.skip(i)) {
            lemma_prefix_at(s, r"\*"@, i, 0);
            if i < a.len() {
                assert(s[i] == a[i]);
            } else if i > a.len() {
                assert(s[i] == b[i - a.len() - 1]);
            }
        }
    }
    text::law_replaced_text(s, r"\*"@, s, r"\#$~"@);
    text::law_replaced_cat(a + "?"@, b, '*', by);
    text::law_replaced_cat(a, "?"@, '*', by);
    text::law_replaced("?"@, '*', by);
    let t = ra + "?"@ + rb;
    text::law_replaced_cat(ra + "?"@, rb, '?', r"\?"@);
    text::law_replaced_cat(ra, "?"@, '?', r"\?"@);
    text::law_replaced(ra, '?', r"\?"@);
    text::law_replaced(rb, '?', r"\?"@);
    assert("?"@ =~= seq!['?']);
    let u = ra + r"\?"@ + rb;
    assert(text::replaced(t, '?', r"\?"@) == u);
    assert forall|i: int| 0 <= i <= u.len() implies !"#$~"@.is_prefix_of(#[trigger] u.skip(i)) by {
        if "#$~"@.is_prefix_of(u.skip(i)) {
            lemma_prefix_at(u, "#$~"@, i, 0);
            if i < ra.len() {
                assert(u[i] == ra[i]);
            } else if i >= ra.len() + 2 {
                assert(u[i] == rb[i - ra.len() - 2]);
            }
        }
    }
    text::law_replaced_text(u, "#$~"@, u, "*"@);
    // an escaped star
    let s = a + r"\*"@ + b;
    assert forall|i: int| 0 <= i < a.len() implies !r"\*"@.is_prefix_of(#[trigger] s.skip(i)) by {
        if r"\*"@.is_prefix_of(s.skip(i)) {
            lemma_prefix_at(s, r"\*"@, i, 0);
            assert(s[i] == a[i]);
        }
    }
    assert forall|i: int| 0 <= i <= b.len() implies !r"\*"@.is_prefix_of(#[trigger] b.skip(i)) by {
        if r"\*"@.is_prefix_of(b.skip(i)) {
            lemma_prefix_at(b, r"\*"@, i, 0);
        }
    }
    text::law_replaced_text(a, r"\*"@, b, r"\#$~"@);
    text::law_replaced_text(b, r"\*"@, b, r"\#$~"@);
    let m = a + r"\#$~"@ + b;
    assert(text::replaced_text(s, r"\*"@, r"\#$~"@) == m);
    text::law_replaced_cat(a + r"\#$~"@, b, '*', by);
    text::law_replaced_cat(a, r"\#$~"@, '*', by);
    text::law_replaced(r"\#$~"@, '*', by);
    let n = ra + r"\#$~"@ + rb;
    assert(text::replaced(m, '*', by) == n);
    assert forall|i: int| 0 <= i < n.len() implies n[i] != '?' by {
        if i < ra.len() {
            assert(n[i] == ra[i]);
        } else if i >= ra.len() + 4 {
            assert(n[i] == rb[i - ra.len() - 4]);
        }
    }
    text::law_replaced(n, '?', r"\?"@);
    let front = ra.push('\\');
    assert(n =~= front + "#$~"@ + rb);
    assert forall|i: int| 0 <= i < front.len() implies !"#$~"@.is_prefix_of(
        #[trigger] (front + "#$~"@ + rb).skip(i),
    ) by {
        if "#$~"@.is_prefix_of(n.skip(i)) {
            lemma_prefix_at(n, "#$~"@, i, 0);
            assert(n[i] == front[i]);
            if i < ra.len() {
                assert(front[i] == ra[i]);
            }
        }
    }
    assert forall|i: int| 0 <= i <= rb.len() implies !"#$~"@.is_prefix_of(
        #[trigger] rb.skip(i),
    ) by {
        if "#$~"@.is_prefix_of(rb.skip(i)) {
            lemma_prefix_at(rb, "#$~"@, i, 0);
        }
    }
    text::law_replaced_text(front, "#$~"@, rb, "*"@);
    text::law_replaced_text(rb, "#$~"@, rb, "*"@);
    assert(front + "*"@ + rb =~= ra + r"\*"@ + rb);
}

/// Comments and blank lines ignore nothing; a leading `!` takes back what the rest
/// of the line ignores.
pub proof fn law_lines_of_a_file(q: Seq<char>, blank: Seq<char>)
    requires
        q.len() > 0 && q[0] != '!' && q[0] != '#',
        !text::is_space(q[0]) && !text::is_space(q.last()),
        forall|i: int| 0 <= i < blank.len() ==> text::is_space(#[trigger] blank[i]) && blank[i]
            != '\r',
    ensures
        line_rule(seq!['#'] + q) is None,
        line_rule(blank) is None,
        match line_rule(q) {
            Some(r) => !r.1 && line_rule(seq!['!'] + q) == Some((r.0, true)),
            None => line_rule(seq!['!'] + q) is None,
        },
        line_rule(blank + q) == line_rule(q),
{
    let none = Seq::<char>::empty();
    assert(text::is_space('\r'));
    text::law_trim(none, q, none);
    assert(none + q + none =~= q);
    let c = seq!['#'] + q;
    assert(c.last() == q.last());
    assert(text::trim_end_of(c, '\r') == c);
    assert(text::trim_end_of(q, '\r') == q);
    let n = seq!['!'] + q;
    assert(n.last() == q.last());
    assert(text::trim_end_of(n, '\r') == n);
    text::law_trim(none, n, none);
    assert(none + n + none =~= n);
    assert(n.skip(1) =~= q);
    assert(body(n) == q && body(q) == q);
    // white space
    if blank.len() > 0 {
        assert(blank.last() == blank[blank.len() - 1]);
    }
    assert(text::trim_end_of(blank, '\r') == blank);
    lemma_blank(blank);
    let w = blank + q;
    assert(w.last() == q.last());
    assert(text::trim_end_of(w, '\r') == w);
    text::law_trim(blank, q, none);
    assert(blank + q + none =~= w);
    if blank.len() > 0 {
        assert(w[0] == blank[0]);
        assert(text::is_space(blank[0]));
        assert(!text::is_space('#'));
    } else {
        assert(w =~= q);
    }
}

proof fn lemma_blank(s: Seq<char>)
    requires
        forall|i: int| 0 <= i < s.len() ==> text::is_space(#[trigger] s[i]),
    ensures
        text::trim(s).len() == 0,
    decreases s.len(),
{
    if s.len() > 0 {
        assert(text::is_space(s[0]));
        let rest = s.skip(1);
        assert forall|i: int| 0 <= i < rest.len() implies text::is_space(#[trigger] rest[i]) by {
            assert(rest[i] == s[i + 1]);
        }
        lemma_blank(rest);
    }
}

/// `a/**/b` ignores `a/b`, and `a`, any directories and `b`, and what is below any of
/// these, where the expression that is made of it is read as it is written: the
/// pattern from the root, between `a` and `b` a slash or two with something between.
pub proof fn law_stars_stand_for_directories(a: Seq<char>, b: Seq<char>, x: Seq<char>, y: Seq<char>)
    requires
        stars_read_as_written(),
        tools_compile(),
        is_piece(a) && is_piece(b),
        a.len() > 0 && a[0] != '!' && a[0] != '/' && !text::is_space(a[0]),
        b.len() > 0 && b.last() != '/' && !text::is_space(b.last()),
        forall|i: int| 0 <= i < a.len() ==> #[trigger] a[i] != '*' && a[i] != '.',
        forall|i: int| 0 <= i < b.len() ==> #[trigger] b[i] != '*' && b[i] != '.',
        pattern::matches(r"([^/+])/.*\*."@, a + "/**/"@ + b),
        pattern::compiles("^(|/)"@ + (a + "(/|/.+/)"@ + b) + "(|/.*)$"@),
        forall|lead: Seq<char>, mid: Seq<char>, tail: Seq<char>|
            (lead == ""@ || lead == "/"@) && (mid == "/"@ || mid.len() > 2 && mid[0] == '/'
                && mid.last() == '/') && (tail == ""@ || tail[0] == '/') ==> pattern::matches(
                "^(|/)"@ + (a + "(/|/.+/)"@ + b) + "(|/.*)$"@,
                #[trigger] (lead + a + mid + b + tail),
            ),
        x.len() > 0,
        y.len() > 0,
    ensures
        ({
            let r = rules(seq![a + "/**/"@ + b]);
            &&& ignored(r, a + "/"@ + b)
            &&& ignored(r, a + "/"@ + x + "/"@ + b)
            &&& ignored(r, a + "/"@ + x + "/"@ + y + "/"@ + b)
            &&& ignored(r, a + "/"@ + x + "/"@ + b + "/"@ + y)
        }),
{
    reveal_strlit("");
    reveal_strlit("/");
    lemma_literals();
    let parts = seq![a, b];
    let p = a + "/**/"@ + b;
    assert(parts.drop_last() =~= seq![a]);
    assert(text::join(parts.drop_last(), "/**/"@) == a);
    assert(text::join(parts, "/**/"@) == p);
    law_expression_of_parts(parts);
    let f = |q: Seq<char>| piece_expression(q);
    let es = parts.map_values(f);
    text::law_replaced(a, '.', r"\."@);
    text::law_replaced(a, '*', "([^/]*)"@);
    text::law_replaced(b, '.', r"\."@);
    text::law_replaced(b, '*', "([^/]*)"@);
    assert(es =~= seq![a, b]);
    assert(text::join(es, "(/|/.+/)"@) == a + "(/|/.+/)"@ + b) by {
        assert(es.drop_last() =~= seq![a]);
        assert(text::join(es.drop_last(), "(/|/.+/)"@) == a);
    }
    let e = "^(|/)"@ + (a + "(/|/.+/)"@ + b) + "(|/.*)$"@;
    assert(expression(p) == e);
    let none = Seq::<char>::empty();
    assert(p[0] == a[0] && p.last() == b.last());
    assert(text::is_space('\r'));
    assert(text::trim_end_of(p, '\r') == p);
    text::law_trim(none, p, none);
    assert(none + p + none =~= p);
    assert(line_rule(p) == Some((e, false)));
    let r = rules(seq![p]);
    assert(seq![p].drop_last() =~= Seq::<Seq<char>>::empty());
    assert(rules(seq![p].drop_last()) =~= Seq::<(Seq<char>, bool)>::empty());
    assert(r.last() == (e, false));
    assert(""@ =~= none);
    let f1 = a + "/"@ + b;
    let f2 = a + "/"@ + x + "/"@ + b;
    let f3 = a + "/"@ + x + "/"@ + y + "/"@ + b;
    let f4 = f2 + "/"@ + y;
    let m2 = "/"@ + x + "/"@;
    let m3 = "/"@ + x + "/"@ + y + "/"@;
    assert(""@ + a + "/"@ + b + ""@ =~= f1);
    assert(""@ + a + m2 + b + ""@ =~= f2);
    assert(""@ + a + m3 + b + ""@ =~= f3);
    assert(""@ + a + m2 + b + ("/"@ + y) =~= f4);
    assert(pattern::matches(e, ""@ + a + "/"@ + b + ""@));
    assert(pattern::matches(e, ""@ + a + m2 + b + ""@));
    assert(pattern::matches(e, ""@ + a + m3 + b + ""@));
    assert(pattern::matches(e, ""@ + a + m2 + b + ("/"@ + y)));
}

/// The rules of a file are those of its lines, in order; lines that stand for nothing
/// are passed over.
pub proof fn law_rules_of_files(lines: Seq<Seq<char>>, line: Seq<char>)
    ensures
        line_rule(line) matches Some(r) ==> rules(lines.push(line)) == rules(lines).push(r),
        line_rule(line) is None ==> rules(lines.push(line)) == rules(lines),
        rules(Seq::empty()).len() == 0,
{
    assert(lines.push(line).drop_last() =~= lines);
}

} // verus!
