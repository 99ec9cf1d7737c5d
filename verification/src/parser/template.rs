//! `{{ config.* }}` references in replacement values.
use vstd::prelude::*;
use crate::models::configuration::{PatternReplace, ReplaceValue};
use crate::pattern;
use crate::text;

verus! {

/// The part of the daemon configuration that egg templates may read: the
/// docker network interface, as `docker.interface` and
/// `docker.network.interface`.
#[derive(Debug, Clone)]
pub struct TemplatableConfig {
    /// `docker.network.interface`
    pub interface: String,
}

/// A reference to the daemon configuration.
pub const CONFIG_MATCH: &'static str = r"\{\{\s?config\.([\w.-]+)\s?\}\}";

pub open spec fn is_upper(c: char) -> bool {
    'A' <= c && c <= 'Z'
}

pub open spec fn is_lower(c: char) -> bool {
    'a' <= c && c <= 'z'
}

pub open spec fn is_digit(c: char) -> bool {
    '0' <= c && c <= '9'
}

/// Whether a new word starts at the capital `s[i]`: behind a small letter or
/// a digit, or behind a capital and before a small letter.
pub open spec fn word_start(s: Seq<char>, i: int) -> bool {
    &&& i > 0
    &&& (is_lower(s[i - 1]) || is_digit(s[i - 1]) || (is_upper(s[i - 1]) && i + 1 < s.len()
        && is_lower(s[i + 1])))
}

/// The first `n` characters of `s` in snake case.
pub open spec fn snake(s: Seq<char>, n: int) -> Seq<char>
    decreases n,
{
    if n <= 0 {
        Seq::empty()
    } else {
        let c = s[n - 1];
        let head = snake(s, n - 1);
        if !is_upper(c) {
            head.push(c)
        } else if word_start(s, n - 1) {
            head.push('_').push(text::lower_char(c))
        } else {
            head.push(text::lower_char(c))
        }
    }
}

/// The group of a match, empty when it took no part.
pub open spec fn group(g: Seq<Option<Seq<char>>>, i: int) -> Seq<char> {
    if i < g.len() {
        match g[i] {
            Some(s) => s,
            None => Seq::empty(),
        }
    } else {
        Seq::empty()
    }
}

/// Whether a dotted name is one of the two that templates may read.
pub open spec fn readable(name: Seq<char>) -> bool {
    let path = text::split_on(name, '.').map_values(|s: Seq<char>| snake(s, s.len() as int));
    path == seq!["docker"@, "interface"@] || path == seq!["docker"@, "network"@, "interface"@]
}

/// A replacement value with its references resolved: all of them, by the
/// interface, when the first one names it; else the value is left as it is.
pub open spec fn lookup(value: ReplaceValue, interface: Seq<char>) -> Seq<char> {
    match value {
        ReplaceValue::Str(raw) => {
            let p = CONFIG_MATCH@;
            if pattern::compiles(p) && pattern::matches(p, raw@) && (pattern::groups(p, raw@) matches Some(g)
                && readable(group(g, 1))) {
                pattern::substituted(p, raw@, interface)
            } else {
                raw@
            }
        },
        _ => value.text(),
    }
}

impl TemplatableConfig {
    pub fn from_daemon(interface: &str) -> (r: Self)
        ensures
            r.interface@ == interface@,
    {
        TemplatableConfig { interface: interface.to_owned() }
    }
}

/// An identifier in snake case: "MyKey" becomes "my_key".
pub fn to_snake(s: &str) -> (r: String)
    ensures
        r@ == snake(s@, s@.len() as int),
{
    let chars = text::chars_of(s);
    let mut out = String::new();
    let mut i: usize = 0;
    while i < chars.len()
        invariant
            chars@ == s@,
            i <= chars.len(),
            out@ == snake(s@, i as int),
        decreases chars.len() - i,
    {
        let c: char = chars[i];
        if 'A' <= c && c <= 'Z' {
            if i > 0 {
                let p: char = chars[i - 1];
                let prev_small = ('a' <= p && p <= 'z') || ('0' <= p && p <= '9');
                let next_small = i + 1 < chars.len() && 'a' <= chars[i + 1] && chars[i + 1] <= 'z';
                if prev_small || ('A' <= p && p <= 'Z' && next_small) {
                    out.push('_');
                }
            }
            let b: u8 = c as u8;
            out.push((b + 32) as char);
        } else {
            out.push(c);
        }
        i = i + 1;
    }
    out
}

/// Whether a dotted name is one of the two that templates may read.
pub fn is_readable(name: &str) -> (r: bool)
    ensures
        r == readable(name@),
{
    let parts = text::split_str(name, '.');
    let ghost path = text::split_on(name@, '.').map_values(
        |s: Seq<char>| snake(s, s.len() as int),
    );
    let mut i: usize = 0;
    let mut out: Vec<String> = Vec::new();
    while i < parts.len()
        invariant
            i <= parts.len(),
            text::texts(parts@) == text::split_on(name@, '.'),
            path == text::split_on(name@, '.').map_values(
                |s: Seq<char>| snake(s, s.len() as int),
            ),
            text::texts(out@) == path.take(i as int),
        decreases parts.len() - i,
    {
        let ghost before = out@;
        assert(text::texts(parts@)[i as int] == parts@[i as int]@);
        let t = to_snake(parts[i].as_str());
        out.push(t);
        assert(text::texts(out@) =~= text::texts(before).push(t@));
        i = i + 1;
    }
    assert(path.take(i as int) =~= path);
    assert(forall|k: int| 0 <= k < out@.len() ==> #[trigger] out@[k]@ == path[k]) by {
        assert forall|k: int| 0 <= k < out@.len() implies #[trigger] out@[k]@ == path[k] by {
            assert(text::texts(out@)[k] == out@[k]@);
        }
    }
    if out.len() == 2 {
        let r = text::same(out[0].as_str(), "docker") && text::same(out[1].as_str(), "interface");
        proof {
            if r {
                assert(path =~= seq!["docker"@, "interface"@]);
            }
        }
        r
    } else if out.len() == 3 {
        let r = text::same(out[0].as_str(), "docker") && text::same(out[1].as_str(), "network")
            && text::same(out[2].as_str(), "interface");
        proof {
            if r {
                assert(path =~= seq!["docker"@, "network"@, "interface"@]);
            }
        }
        r
    } else {
        false
    }
}

/// Resolves the references in a rule's replacement value.
pub fn lookup_configuration_value(replace: &PatternReplace, daemon: &TemplatableConfig) -> (r:
    String)
    ensures
        r@ == lookup(replace.replace_with, daemon.interface@),
{
    match &replace.replace_with {
        ReplaceValue::Str(raw) => {
            let re = match pattern::compile(CONFIG_MATCH) {
                Some(re) => re,
                None => {
                    return raw.clone();
                },
            };
            if !pattern::is_match(&re, raw.as_str()) {
                return raw.clone();
            }
            match pattern::captures(&re, raw.as_str()) {
                Some(g) => {
                    let hunt: String = group_of(&g, 1);
                    if is_readable(hunt.as_str()) {
                        pattern::replace_all(&re, raw.as_str(), daemon.interface.as_str())
                    } else {
                        raw.clone()
                    }
                },
                None => raw.clone(),
            }
        },
        other => other.as_string(),
    }
}

/// The group of a match, empty when it took no part.
pub(crate) fn group_of(g: &Vec<Option<String>>, i: usize) -> (r: String)
    ensures
        r@ == group(pattern::group_texts(g@), i as int),
{
    if i < g.len() {
        match &g[i] {
            Some(s) => s.clone(),
            None => String::new(),
        }
    } else {
        String::new()
    }
}

/// Names without capitals are in snake case already.
pub proof fn law_snake_case_stays(s: Seq<char>, n: int)
    requires
        0 <= n <= s.len(),
        forall|i: int| 0 <= i < s.len() ==> !('A' <= #[trigger] s[i] <= 'Z'),
    ensures
        snake(s, n) == s.take(n),
    decreases n,
{
    if n > 0 {
        law_snake_case_stays(s, n - 1);
        assert(!is_upper(s[n - 1]));
        assert(snake(s, n) =~= s.take(n));
    } else {
        assert(snake(s, n) =~= s.take(n));
    }
}

/// A capital behind a small letter begins a word: it becomes small, with an underscore
/// before it.
pub proof fn law_capitals_begin_words(s: Seq<char>, n: int)
    requires
        0 < n < s.len(),
        'A' <= s[n] <= 'Z',
    ensures
        'a' <= s[n - 1] <= 'z' || '0' <= s[n - 1] <= '9' ==> snake(s, n + 1) == snake(s, n) + seq![
            '_',
            text::lower_char(s[n]),
        ],
        s[n - 1] == '_' ==> snake(s, n + 1) == snake(s, n).push(text::lower_char(s[n])),
{
    assert(snake(s, n).push('_').push(text::lower_char(s[n])) =~= snake(s, n) + seq![
        '_',
        text::lower_char(s[n]),
    ]);
}

/// The two names that templates may read.
pub proof fn law_readable_names()
    ensures
        readable("docker.interface"@),
        readable("docker.network.interface"@),
        !readable("docker"@),
        !readable("token"@),
{
    reveal_strlit("docker.interface");
    reveal_strlit("docker.network.interface");
    reveal_strlit("docker");
    reveal_strlit("network");
    reveal_strlit("interface");
    reveal_strlit("token");
    let f = |s: Seq<char>| snake(s, s.len() as int);
    let (a, b, c, t) = ("docker"@, "network"@, "interface"@, "token"@);
    assert forall|i: int| 0 <= i < a.len() implies !('A' <= #[trigger] a[i] <= 'Z') && a[i] != '.' by {}
    assert forall|i: int| 0 <= i < b.len() implies !('A' <= #[trigger] b[i] <= 'Z') && b[i] != '.' by {}
    assert forall|i: int| 0 <= i < c.len() implies !('A' <= #[trigger] c[i] <= 'Z') && c[i] != '.' by {}
    assert forall|i: int| 0 <= i < t.len() implies !('A' <= #[trigger] t[i] <= 'Z') && t[i] != '.' by {}
    law_snake_case_stays(a, a.len() as int);
    law_snake_case_stays(b, b.len() as int);
    law_snake_case_stays(c, c.len() as int);
    law_snake_case_stays(t, t.len() as int);
    assert(a.take(a.len() as int) =~= a && b.take(b.len() as int) =~= b && c.take(c.len() as int)
        =~= c && t.take(t.len() as int) =~= t);
    text::law_split_on(a, '.', c);
    text::law_split_on(c, '.', c);
    text::law_split_on(t, '.', c);
    assert(a + seq!['.'] + c =~= "docker.interface"@);
    assert((seq![a] + seq![c]).map_values(f) =~= seq![a, c]);
    let bc = b + seq!['.'] + c;
    text::law_split_on(b, '.', c);
    text::law_split_on(a, '.', bc);
    assert(a + seq!['.'] + bc =~= "docker.network.interface"@);
    assert((seq![a] + (seq![b] + seq![c])).map_values(f) =~= seq![a, b, c]);
    assert(seq![a].map_values(f).len() == 1);
    assert(seq![t].map_values(f).len() == 1);
}

/// A value that holds no reference, or a reference to nothing that may be read, stays;
/// else every reference becomes the interface. Values that are no text are written out.
pub proof fn law_references(raw: String, interface: Seq<char>, b: bool, n: String, g: Seq<Option<Seq<char>>>, name: Seq<char>)
    ensures
        pattern::groups(CONFIG_MATCH@, raw@) is None ==> lookup(ReplaceValue::Str(raw), interface)
            == raw@,
        pattern::compiles(CONFIG_MATCH@) && pattern::matches(CONFIG_MATCH@, raw@)
            && pattern::groups(CONFIG_MATCH@, raw@) == Some(g) && g.len() > 1 && g[1] == Some(name)
            && readable(name) ==> lookup(ReplaceValue::Str(raw), interface)
            == pattern::substituted(CONFIG_MATCH@, raw@, interface),
        pattern::groups(CONFIG_MATCH@, raw@) == Some(g) && g.len() > 1 && g[1] == Some(name)
            && !readable(name) ==> lookup(ReplaceValue::Str(raw), interface) == raw@,
        lookup(ReplaceValue::Bool(true), interface) == "true"@,
        lookup(ReplaceValue::Bool(false), interface) == "false"@,
        lookup(ReplaceValue::Number(n), interface) == n@,
        lookup(ReplaceValue::Null, interface) == "<nil>"@,
{
}

/// Of several capitals the last begins a word where a small letter follows it; the
/// others belong to the word that they are in.
pub proof fn law_runs_of_capitals(s: Seq<char>, n: int)
    requires
        0 < n < s.len(),
        'A' <= s[n] <= 'Z' && 'A' <= s[n - 1] <= 'Z',
    ensures
        n + 1 < s.len() && 'a' <= s[n + 1] <= 'z' ==> snake(s, n + 1) == snake(s, n) + seq![
            '_',
            text::lower_char(s[n]),
        ],
        n + 1 == s.len() || !('a' <= s[n + 1] <= 'z') ==> snake(s, n + 1) == snake(s, n).push(
            text::lower_char(s[n]),
        ),
        'A' <= s[0] <= 'Z' ==> snake(s, 1) == seq![text::lower_char(s[0])],
{
    assert(snake(s, n).push('_').push(text::lower_char(s[n])) =~= snake(s, n) + seq![
        '_',
        text::lower_char(s[n]),
    ]);
    assert(snake(s, 0) =~= Seq::<char>::empty());
    assert(Seq::<char>::empty().push(text::lower_char(s[0])) =~= seq![text::lower_char(s[0])]);
}

} // verus!
