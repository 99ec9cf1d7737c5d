//! What the panel says of a server and of the process it runs.
use vstd::prelude::*;
use crate::json;
use crate::json::{Doc, Json};
use crate::pattern;
use crate::text;

verus! {

/// The settings of a server.
#[derive(Debug, Clone, Default)]
pub struct ServerConfig {
    pub uuid: String,
    pub meta: ServerMeta,
    pub suspended: bool,
    pub environment: Vec<(String, String)>,
    pub invocation: String,
    pub skip_egg_scripts: bool,
    pub build: ServerBuild,
    pub allocations: Allocations,
    pub mounts: Vec<ServerMount>,
    pub egg: Egg,
    pub container: ContainerConfig,
    pub labels: Vec<(String, String)>,
    pub crash_detection_enabled: bool,
}

#[derive(Debug, Clone, Default)]
pub struct ServerMeta {
    pub name: String,
    pub description: String,
}

/// The limits of a server.
#[derive(Debug, Clone, Default)]
pub struct ServerBuild {
    /// MB
    pub memory_limit: i64,
    /// MB; -1 is unlimited
    pub swap: i64,
    /// 10 to 1000
    pub io_weight: i64,
    /// percent; 0 is unlimited
    pub cpu_limit: i64,
    /// the cores to run on, such as "0-3"; empty for all
    pub threads: String,
    /// MB
    pub disk_space: i64,
    pub oom_disabled: bool,
}

/// The addresses of a server. An address occurs once in `mappings`.
#[derive(Debug, Clone, Default)]
pub struct Allocations {
    pub force_outgoing_ip: bool,
    pub default: Allocation,
    pub mappings: Vec<(String, Vec<u16>)>,
}

#[derive(Debug, Clone, Default)]
pub struct Allocation {
    pub ip: String,
    pub port: u16,
}

#[derive(Debug, Clone)]
pub struct ServerMount {
    pub source: String,
    pub target: String,
    pub read_only: bool,
}

#[derive(Debug, Clone, Default)]
pub struct Egg {
    pub id: String,
    pub file_denylist: Vec<String>,
}

#[derive(Debug, Clone, Default)]
pub struct ContainerConfig {
    pub image: String,
    pub oom_disabled: bool,
    pub requires_rebuild: bool,
}

/// How the process of a server is run.
#[derive(Debug, Clone, Default)]
pub struct ProcessConfig {
    pub startup: ProcessStartup,
    pub stop: ProcessStop,
    pub configs: Vec<PatternConfig>,
}

#[derive(Debug, Clone, Default)]
pub struct ProcessStartup {
    /// lines that mark the server as started
    pub done: Vec<OutputLineMatcher>,
    pub user_interaction: Vec<String>,
    pub strip_ansi: bool,
}

#[derive(Debug, Clone, Default)]
pub struct ProcessStop {
    /// "command", "signal" or "stop"
    pub kind: String,
    pub value: String,
}

/// One configuration file of an egg: where it is, how it is read, and the
/// rules to apply to it.
#[derive(Debug, Clone)]
pub struct PatternConfig {
    pub file: String,
    /// "file", "yaml"/"yml", "properties", "ini", "json" or "xml"
    pub parser: String,
    pub replace: Vec<PatternReplace>,
}

/// One find/replace rule. `if_value` may be empty, an exact value, or a
/// pattern behind `regex:`.
#[derive(Debug, Clone)]
pub struct PatternReplace {
    pub match_: String,
    pub replace_with: ReplaceValue,
    pub if_value: String,
}

/// The typed replacement value. A number is kept as its literal text.
#[derive(Debug, Clone, PartialEq)]
pub enum ReplaceValue {
    Str(String),
    Bool(bool),
    Number(String),
    Null,
}

/// A boolean as text.
pub open spec fn bool_text(b: bool) -> Seq<char> {
    if b {
        "true"@
    } else {
        "false"@
    }
}

/// A boolean as text.
pub fn bool_string(b: bool) -> (r: String)
    ensures
        r@ == bool_text(b),
{
    if b {
        "true".to_owned()
    } else {
        "false".to_owned()
    }
}

impl ReplaceValue {
    /// The value as text; null is `<nil>`.
    pub open spec fn text(&self) -> Seq<char> {
        match self {
            ReplaceValue::Str(s) => s@,
            ReplaceValue::Null => "<nil>"@,
            ReplaceValue::Bool(b) => bool_text(*b),
            ReplaceValue::Number(n) => n@,
        }
    }

    /// The value as text.
    pub fn as_string(&self) -> (r: String)
        ensures
            r@ == self.text(),
    {
        match self {
            ReplaceValue::Str(s) => s.clone(),
            ReplaceValue::Null => "<nil>".to_owned(),
            ReplaceValue::Bool(b) => bool_string(*b),
            ReplaceValue::Number(n) => n.clone(),
        }
    }

    /// The text that the plain-file parser writes.
    pub fn raw_string(&self) -> (r: String)
        ensures
            r@ == self.text(),
    {
        self.as_string()
    }
}

/// One line that marks a server as started: a substring, or an expression
/// when the panel prefixed it with `regex:`.
#[derive(Debug, Clone)]
pub struct OutputLineMatcher {
    raw: Option<String>,
    regex: Option<regex::Regex>,
}

impl OutputLineMatcher {
    /// What a line of the panel's list means: an expression when it is a
    /// non-empty pattern that compiles behind `regex:`, else a substring.
    pub open spec fn denotes(&self, raw: Seq<char>) -> bool {
        let tag = "regex:"@;
        let pattern = raw.skip(tag.len() as int);
        if tag.is_prefix_of(raw) && pattern.len() > 0 && pattern::compiles(pattern) {
            self.expression() == Some(pattern) && self.substring() is None
        } else {
            self.expression() is None && self.substring() == Some(raw)
        }
    }

    /// The expression searched for, if it is one.
    pub closed spec fn expression(&self) -> Option<Seq<char>> {
        match self.regex {
            Some(re) => Some(pattern::source(re)),
            None => None,
        }
    }

    /// The substring searched for, if there is no expression.
    pub closed spec fn substring(&self) -> Option<Seq<char>> {
        match self.raw {
            Some(s) => Some(s@),
            None => None,
        }
    }

    /// Reads one line of the panel's list.
    pub fn parse(raw: &str) -> (r: Self)
        ensures
            r.denotes(raw@),
    {
        if let Some(pattern) = text::strip_prefix(raw, "regex:") {
            if !pattern.as_str().is_empty() {
                if let Some(re) = pattern::compile(pattern.as_str()) {
                    return OutputLineMatcher { raw: None, regex: Some(re) };
                }
            }
        }
        OutputLineMatcher { raw: Some(raw.to_owned()), regex: None }
    }

    /// The substring, or nothing when the matcher is an expression.
    pub fn as_str(&self) -> (r: &str)
        ensures
            r@ == (match self.substring() {
                Some(s) => s,
                None => ""@,
            }),
    {
        match &self.raw {
            Some(s) => s.as_str(),
            None => "",
        }
    }

    /// Whether the line is one that the matcher stands for.
    pub fn matches(&self, line: &str) -> (r: bool)
        ensures
            r == (match self.expression() {
                Some(p) => pattern::matches(p, line@),
                None => self.substring() matches Some(s) && text::find(line@, s) >= 0,
            }),
    {
        match &self.regex {
            Some(re) => pattern::is_match(re, line),
            None => match &self.raw {
                Some(raw) => text::contains(line, raw.as_str()),
                None => false,
            },
        }
    }
}

// ---------------------------------------------------------------------------
// Addresses
// ---------------------------------------------------------------------------
/// The address and every port of it.
pub open spec fn ports_of(ip: Seq<char>, ports: Seq<u16>) -> Seq<(Seq<char>, u16)> {
    ports.map_values(|p: u16| (ip, p))
}

/// Every address with every port of it, in order.
pub open spec fn mapped_ports(m: Seq<(String, Vec<u16>)>) -> Seq<(Seq<char>, u16)>
    decreases m.len(),
{
    if m.len() == 0 {
        Seq::empty()
    } else {
        mapped_ports(m.drop_last()) + ports_of(m.last().0@, m.last().1@)
    }
}

/// The views of a list of addresses and ports.
pub open spec fn ports_view(v: Seq<(String, u16)>) -> Seq<(Seq<char>, u16)> {
    v.map_values(|e: (String, u16)| (e.0@, e.1))
}

impl ServerConfig {
    /// What a server binds: every mapped address and port, or the default one
    /// when nothing is mapped.
    pub open spec fn bound(&self) -> Seq<(Seq<char>, u16)> {
        let m = mapped_ports(self.allocations.mappings@);
        if m.len() == 0 {
            seq![(self.allocations.default.ip@, self.allocations.default.port)]
        } else {
            m
        }
    }

    /// The default address.
    pub fn default_allocation(&self) -> (r: &Allocation)
        ensures
            *r == self.allocations.default,
    {
        &self.allocations.default
    }

    /// Every address and port to bind.
    pub fn allocations(&self) -> (r: Vec<(String, u16)>)
        ensures
            ports_view(r@) == self.bound(),
            r@.len() > 0,
    {
        let m = &self.allocations.mappings;
        let mut out: Vec<(String, u16)> = Vec::new();
        let mut i: usize = 0;
        assert(ports_view(out@) =~= Seq::empty());
        while i < m.len()
            invariant
                i <= m.len(),
                ports_view(out@) == mapped_ports(m@.take(i as int)),
            decreases m.len() - i,
        {
            let ghost before = ports_view(out@);
            let ghost ip = m@[i as int].0@;
            assert(m@.take(i + 1).drop_last() =~= m@.take(i as int));
            let mut j: usize = 0;
            assert(before + ports_of(ip, m@[i as int].1@.take(0)) =~= before);
            while j < m[i].1.len()
                invariant
                    i < m.len(),
                    j <= m@[i as int].1@.len(),
                    ip == m@[i as int].0@,
                    ports_view(out@) == before + ports_of(ip, m@[i as int].1@.take(j as int)),
                decreases m@[i as int].1@.len() - j,
            {
                let ghost here = ports_view(out@);
                let port: u16 = m[i].1[j];
                out.push((m[i].0.clone(), port));
                assert(ports_view(out@) =~= here.push((ip, port)));
                assert(ports_of(ip, m@[i as int].1@.take(j + 1)) =~= ports_of(
                    ip,
                    m@[i as int].1@.take(j as int),
                ).push((ip, port)));
                assert(ports_view(out@) =~= before + ports_of(ip, m@[i as int].1@.take(j + 1)));
                j = j + 1;
            }
            assert(m@[i as int].1@.take(j as int) =~= m@[i as int].1@);
            i = i + 1;
        }
        assert(m@.take(i as int) =~= m@);
        if out.len() == 0 {
            let d = self.default_allocation();
            out.push((d.ip.clone(), d.port));
            assert(ports_view(out@) =~= seq![(d.ip@, d.port)]);
        }
        out
    }
}

// ---------------------------------------------------------------------------
// Shapes that the panel may send
// ---------------------------------------------------------------------------
/// A value of an environment map as text; null is empty.
pub open spec fn env_text(d: Doc) -> Seq<char> {
    match d {
        Doc::Str(s) => s,
        Doc::Number(n) => n,
        Doc::Bool(b) => bool_text(b),
        Doc::Null => Seq::empty(),
        _ => json::compact(d),
    }
}

/// A replacement value; anything but a scalar is kept as its JSON text.
pub open spec fn replace_value_is(v: ReplaceValue, d: Doc) -> bool {
    match d {
        Doc::Str(s) => v matches ReplaceValue::Str(t) && t@ == s,
        Doc::Bool(b) => v == ReplaceValue::Bool(b),
        Doc::Number(n) => v matches ReplaceValue::Number(t) && t@ == n,
        Doc::Null => v is Null,
        _ => v matches ReplaceValue::Str(t) && t@ == json::compact(d),
    }
}

/// A member that is there and not null.
pub open spec fn present(m: Seq<(Seq<char>, Doc)>, k: Seq<char>) -> Option<Doc> {
    match json::lookup(m, k) {
        Some(Doc::Null) => None,
        other => other,
    }
}

/// The value of a rule: under `replace_with`, in old eggs under `value`, else
/// null.
pub open spec fn rule_value(m: Seq<(Seq<char>, Doc)>) -> Doc {
    match (present(m, "replace_with"@), present(m, "value"@)) {
        (Some(v), _) => v,
        (None, Some(v)) => v,
        (None, None) => Doc::Null,
    }
}

/// What a rule of the panel means. The match is required; a condition must be
/// text.
pub open spec fn rule_is(r: Option<PatternReplace>, d: Doc) -> bool {
    match d {
        Doc::Object(m) => match (json::lookup(m, "match"@), crate::config::text_member(
            m,
            "if_value"@,
        )) {
            (Some(Doc::Str(s)), Some(c)) => r is Some && r->0.match_@ == s && r->0.if_value@ == c
                && replace_value_is(r->0.replace_with, rule_value(m)),
            _ => r is None,
        },
        _ => r is None,
    }
}

/// A value of an environment map as text.
pub fn env_string(d: &Json) -> (r: String)
    ensures
        r@ == env_text(json::doc(*d)),
{
    match d {
        Json::Str(s) => s.clone(),
        Json::Number(n) => n.clone(),
        Json::Bool(b) => bool_string(*b),
        Json::Null => String::new(),
        other => other.compact_text(),
    }
}

impl ReplaceValue {
    /// A replacement value from the panel's document.
    pub fn from_json(d: &Json) -> (r: Self)
        ensures
            replace_value_is(r, json::doc(*d)),
    {
        match d {
            Json::Str(s) => ReplaceValue::Str(s.clone()),
            Json::Bool(b) => ReplaceValue::Bool(*b),
            Json::Number(n) => ReplaceValue::Number(n.clone()),
            Json::Null => ReplaceValue::Null,
            other => ReplaceValue::Str(other.compact_text()),
        }
    }
}

/// A member that is there and not null.
fn find_present<'a>(m: &'a Vec<(String, Json)>, k: &str) -> (r: Option<&'a Json>)
    ensures
        match r {
            Some(j) => present(json::members(m@), k@) == Some(json::doc(*j)),
            None => present(json::members(m@), k@) is None,
        },
{
    let (i, found) = json::place(m, k);
    if !found {
        return None;
    }
    match &m[i].1 {
        Json::Null => None,
        other => Some(other),
    }
}

impl PatternReplace {
    /// A rule from the panel's document.
    pub fn from_json(d: &Json) -> (r: Option<Self>)
        ensures
            rule_is(r, json::doc(*d)),
    {
        match d {
            Json::Object(m) => {
                proof {
                    json::lemma_doc_object(*m);
                }
                let (i, found) = json::place(m, "match");
                if !found {
                    return None;
                }
                let match_ = match &m[i].1 {
                    Json::Str(s) => s.clone(),
                    _ => {
                        return None;
                    },
                };
                let if_value = match crate::config::read_text_member(m, "if_value") {
                    Some(s) => s,
                    None => {
                        return None;
                    },
                };
                let replace_with = match find_present(m, "replace_with") {
                    Some(v) => ReplaceValue::from_json(v),
                    None => match find_present(m, "value") {
                        Some(v) => ReplaceValue::from_json(v),
                        None => ReplaceValue::Null,
                    },
                };
                Some(PatternReplace { match_, replace_with, if_value })
            },
            _ => None,
        }
    }
}

impl OutputLineMatcher {
    /// The matchers in the panel's document: a list of lines, or one line. A
    /// document of any other shape holds none.
    pub fn from_json(d: &Json) -> (r: Option<Vec<OutputLineMatcher>>)
        ensures
            match json::doc(*d) {
                Doc::Str(s) => r is Some && r->0@.len() == 1 && r->0@[0].denotes(s),
                Doc::Array(a) => if forall|i: int| 0 <= i < a.len() ==> (#[trigger] a[i]) is Str {
                    r is Some && r->0@.len() == a.len() && forall|i: int|
                        0 <= i < a.len() ==> (#[trigger] r->0@[i]).denotes(a[i]->Str_0)
                } else {
                    r is None
                },
                _ => r is None,
            },
    {
        match d {
            Json::Str(s) => {
                let mut out: Vec<OutputLineMatcher> = Vec::new();
                out.push(OutputLineMatcher::parse(s.as_str()));
                Some(out)
            },
            Json::Array(a) => {
                let ghost all = json::docs(a@);
                proof {
                    json::lemma_doc_array(*a);
                }
                let mut out: Vec<OutputLineMatcher> = Vec::new();
                let mut i: usize = 0;
                while i < a.len()
                    invariant
                        i <= a.len(),
                        all == json::docs(a@),
                        json::doc(*d) == Doc::Array(all),
                        out@.len() == i,
                        forall|k: int|
                            0 <= k < i ==> (#[trigger] all[k]) is Str && out@[k].denotes(
                                all[k]->Str_0,
                            ),
                    decreases a.len() - i,
                {
                    assert(all[i as int] == json::doc(a@[i as int]));
                    match &a[i] {
                        Json::Str(s) => {
                            out.push(OutputLineMatcher::parse(s.as_str()));
                        },
                        _ => {
                            assert(!(all[i as int] is Str));
                            return None;
                        },
                    }
                    i = i + 1;
                }
                proof {
                    assert forall|k: int| 0 <= k < all.len() implies (#[trigger] out@[k]).denotes(
                        all[k]->Str_0,
                    ) by {
                        assert(all[k] is Str);
                    }
                }
                Some(out)
            },
            _ => None,
        }
    }
}

/// Values as text.
pub proof fn law_values_as_text(s: String)
    ensures
        ReplaceValue::Str(s).text() == s@,
        ReplaceValue::Number(s).text() == s@,
        ReplaceValue::Bool(true).text() == "true"@,
        ReplaceValue::Bool(false).text() == "false"@,
        ReplaceValue::Null.text() == "<nil>"@,
        env_text(Doc::Str(s@)) == s@,
        env_text(Doc::Number(s@)) == s@,
        env_text(Doc::Bool(true)) == "true"@,
        env_text(Doc::Bool(false)) == "false"@,
        env_text(Doc::Null).len() == 0,
{
}

proof fn lemma_mapped_ports(m: Seq<(String, Vec<u16>)>, i: int, j: int)
    requires
        0 <= i < m.len(),
        0 <= j < m[i].1@.len(),
    ensures
        mapped_ports(m).contains((m[i].0@, m[i].1@[j])),
    decreases m.len(),
{
    let rest = m.drop_last();
    let a = mapped_ports(rest);
    let b = ports_of(m.last().0@, m.last().1@);
    let all = mapped_ports(m);
    if i < rest.len() {
        lemma_mapped_ports(rest, i, j);
        let k = choose|k: int| 0 <= k < a.len() && a[k] == (rest[i].0@, rest[i].1@[j]);
        assert(all[k] == a[k]);
    } else {
        assert(b[j] == (m[i].0@, m[i].1@[j]));
        assert(all[a.len() + j] == b[j]);
    }
}

/// A server binds every port that is mapped for an address, in order, and the default
/// one only where nothing is mapped.
pub proof fn law_ports_that_are_bound(cfg: &ServerConfig, i: int, j: int)
    ensures
        0 <= i < cfg.allocations.mappings@.len() && 0 <= j < cfg.allocations.mappings@[i].1@.len()
            ==> cfg.bound().contains(
            (cfg.allocations.mappings@[i].0@, cfg.allocations.mappings@[i].1@[j]),
        ),
        cfg.allocations.mappings@.len() == 0 ==> cfg.bound() == seq![
            (cfg.allocations.default.ip@, cfg.allocations.default.port),
        ],
{
    let m = cfg.allocations.mappings@;
    if 0 <= i < m.len() && 0 <= j < m[i].1@.len() {
        lemma_mapped_ports(m, i, j);
    }
}

/// Mapped ports follow one another as the mappings do.
pub proof fn law_mappings_in_order(m: Seq<(String, Vec<u16>)>, e: (String, Vec<u16>), j: int)
    ensures
        mapped_ports(m.push(e)).len() == mapped_ports(m).len() + e.1@.len(),
        0 <= j < e.1@.len() ==> mapped_ports(m.push(e))[mapped_ports(m).len() + j] == (
            e.0@,
            e.1@[j],
        ),
        0 <= j < mapped_ports(m).len() ==> mapped_ports(m.push(e))[j] == mapped_ports(m)[j],
{
    assert(m.push(e).drop_last() =~= m);
}

/// A replacement is what is given under `replace_with`, in old eggs under `value`; one
/// that is null counts as not given.
pub proof fn law_values_of_rules(m: Seq<(Seq<char>, Doc)>, v: Doc, w: Doc)
    requires
        !(v is Null) && !(w is Null),
    ensures
        json::lookup(m, "replace_with"@) == Some(v) ==> rule_value(m) == v,
        (json::lookup(m, "replace_with"@) is None || json::lookup(m, "replace_with"@) == Some(
            Doc::Null,
        )) && json::lookup(m, "value"@) == Some(w) ==> rule_value(m) == w,
        json::lookup(m, "replace_with"@) is None && json::lookup(m, "value"@) is None
            ==> rule_value(m) == Doc::Null,
{
}

/// A rule has a match, which is text, a condition, which is text or missing, and a value;
/// anything else is no rule.
pub proof fn law_what_rules_are(m: Seq<(Seq<char>, Doc)>, s: Seq<char>, r: Option<PatternReplace>, d: Doc)
    requires
        rule_is(r, d),
    ensures
        !(d is Object) ==> r is None,
        d == Doc::Object(m) && json::lookup(m, "match"@) is None ==> r is None,
        d == Doc::Object(m) && json::lookup(m, "match"@) == Some(Doc::Str(s)) && json::lookup(
            m,
            "if_value"@,
        ) is None ==> (r matches Some(x) && x.match_@ == s && x.if_value@.len() == 0
            && replace_value_is(x.replace_with, rule_value(m))),
{
}

/// A replacement keeps its type; what is neither text, number, boolean nor nothing is
/// kept as its JSON text.
pub proof fn law_types_of_replacements(v: ReplaceValue, s: Seq<char>, b: bool)
    ensures
        replace_value_is(v, Doc::Str(s)) <==> (v matches ReplaceValue::Str(t) && t@ == s),
        replace_value_is(v, Doc::Number(s)) <==> (v matches ReplaceValue::Number(t) && t@ == s),
        replace_value_is(v, Doc::Bool(b)) <==> v == ReplaceValue::Bool(b),
        replace_value_is(v, Doc::Null) <==> v is Null,
{
}

/// A line that starts is an expression behind `regex:`, where that is one; else it is
/// searched for as it is.
pub proof fn law_lines_that_start(m: &OutputLineMatcher, expression: Seq<char>, raw: Seq<char>)
    ensures
        m.denotes("regex:"@ + expression) && expression.len() > 0 && pattern::compiles(expression)
            ==> m.expression() == Some(expression) && m.substring() is None,
        m.denotes(raw) && !("regex:"@).is_prefix_of(raw) ==> m.expression() is None
            && m.substring() == Some(raw),
{
    let tag = "regex:"@;
    let s = tag + expression;
    assert(tag =~= s.subrange(0, tag.len() as int));
    assert(s.skip(tag.len() as int) =~= expression);
}

} // verus!
