//! The commands of the daemon: what they are asked, and what they report.
use vstd::prelude::*;
use crate::codec;
use crate::json;
use crate::json::{Doc, Json};
use crate::numbers;
use crate::text;

verus! {

pub const DEFAULT_CONFIG_PATH: &'static str = "/etc/pterodactyl/config.yml";

/// What the daemon is asked to do.
#[derive(Debug)]
pub enum Command {
    /// serve the panel
    Daemon,
    Version,
    Configure,
    Diagnostics,
    /// nothing that is known; what the user is told
    Unknown(String),
}

/// What a user is told of an unknown command.
pub open spec fn usage_text(command: Seq<char>) -> Seq<char> {
    "unknown command `"@ + command
        + "`\n\nusage:\n  roost                    run the daemon\n  roost configure [flags]\n  roost diagnostics [flags]\n  roost version"@
}

/// What the daemon is asked to do, by its first argument.
pub fn run(args: &[String]) -> (r: Command)
    ensures
        if args@.len() == 0 {
            r is Daemon
        } else if args@[0]@ == "--version"@ || args@[0]@ == "version"@ {
            r is Version
        } else if args@[0]@ == "configure"@ {
            r is Configure
        } else if args@[0]@ == "diagnostics"@ {
            r is Diagnostics
        } else {
            r matches Command::Unknown(m) && m@ == usage_text(args@[0]@)
        },
{
    if args.len() == 0 {
        return Command::Daemon;
    }
    let c = args[0].as_str();
    if text::same(c, "--version") || text::same(c, "version") {
        Command::Version
    } else if text::same(c, "configure") {
        Command::Configure
    } else if text::same(c, "diagnostics") {
        Command::Diagnostics
    } else {
        Command::Unknown(
            text::cat3(
                "unknown command `",
                c,
                "`\n\nusage:\n  roost                    run the daemon\n  roost configure [flags]\n  roost diagnostics [flags]\n  roost version",
            ),
        )
    }
}

// ---------------------------------------------------------------------------
// Flags
// ---------------------------------------------------------------------------
/// The flags of a command: those with values, and switches.
#[derive(Debug)]
pub struct Flags {
    pub values: Vec<(String, String)>,
    pub switches: Vec<String>,
}

/// A flag without the dashes before it.
pub open spec fn without_dashes(a: Seq<char>) -> Seq<char>
    decreases a.len(),
{
    if a.len() >= 2 && a[0] == '-' && a[1] == '-' {
        without_dashes(a.skip(2))
    } else {
        a
    }
}

/// The full name of a flag.
pub open spec fn flag_name(a: Seq<char>) -> Seq<char> {
    let name = without_dashes(a);
    if name == "p"@ {
        "panel-url"@
    } else if name == "t"@ {
        "token"@
    } else if name == "n"@ {
        "node"@
    } else if name == "c"@ {
        "config-path"@
    } else {
        name
    }
}

pub open spec fn names_of(v: Seq<&'static str>) -> Seq<Seq<char>> {
    v.map_values(|s: &'static str| s@)
}

/// What some arguments say, when some flags have values and others are switches;
/// or what is wrong with the first one that is wrong.
pub open spec fn flags_of(
    args: Seq<Seq<char>>,
    with_values: Seq<Seq<char>>,
    switches: Seq<Seq<char>>,
) -> Result<(Seq<(Seq<char>, Seq<char>)>, Seq<Seq<char>>), Seq<char>>
    decreases args.len(),
{
    if args.len() == 0 {
        Ok((Seq::empty(), Seq::empty()))
    } else {
        let name = flag_name(args[0]);
        if with_values.contains(name) {
            if args.len() < 2 {
                Err("flag --"@ + name + " requires a value"@)
            } else {
                match flags_of(args.skip(2), with_values, switches) {
                    Ok((v, s)) => Ok((seq![(name, args[1])] + v, s)),
                    Err(e) => Err(e),
                }
            }
        } else if switches.contains(name) {
            match flags_of(args.skip(1), with_values, switches) {
                Ok((v, s)) => Ok((v, seq![name] + s)),
                Err(e) => Err(e),
            }
        } else {
            Err("unknown flag --"@ + name)
        }
    }
}

fn strip_dashes(a: &str) -> (r: String)
    ensures
        r@ == without_dashes(a@),
{
    let c = text::chars_of(a);
    let mut i: usize = 0;
    assert(a@.skip(0) =~= a@);
    while c.len() - i >= 2 && c[i] == '-' && c[i + 1] == '-'
        invariant
            i <= c.len(),
            c@ == a@,
            without_dashes(a@) == without_dashes(a@.skip(i as int)),
        decreases c.len() - i,
    {
        assert(a@.skip(i as int).skip(2) =~= a@.skip(i + 2));
        i = i + 2;
    }
    let rest = text::slice_of(c.as_slice(), i, c.len());
    assert(rest@ =~= a@.skip(i as int));
    text::string_of(rest.as_slice())
}

fn full_name(a: &str) -> (r: String)
    ensures
        r@ == flag_name(a@),
{
    let name = strip_dashes(a);
    if text::same(name.as_str(), "p") {
        "panel-url".to_owned()
    } else if text::same(name.as_str(), "t") {
        "token".to_owned()
    } else if text::same(name.as_str(), "n") {
        "node".to_owned()
    } else if text::same(name.as_str(), "c") {
        "config-path".to_owned()
    } else {
        name
    }
}

fn is_among(list: &[&'static str], name: &str) -> (r: bool)
    ensures
        r == names_of(list@).contains(name@),
{
    let mut i: usize = 0;
    while i < list.len()
        invariant
            i <= list.len(),
            forall|k: int| 0 <= k < i ==> (#[trigger] names_of(list@)[k]) != name@,
        decreases list.len() - i,
    {
        assert(names_of(list@)[i as int] == list@[i as int]@);
        if text::same(list[i], name) {
            return true;
        }
        i = i + 1;
    }
    false
}

/// Reads the flags of a command.
pub fn parse_flags(args: &[String], with_values: &[&'static str], switches: &[&'static str]) -> (r:
    Result<Flags, String>)
    ensures
        match r {
            Ok(f) => flags_of(text::texts(args@), names_of(with_values@), names_of(switches@)) == Ok::<
                (Seq<(Seq<char>, Seq<char>)>, Seq<Seq<char>>),
                Seq<char>,
            >((text::pairs(f.values@), text::texts(f.switches@))),
            Err(e) => flags_of(text::texts(args@), names_of(with_values@), names_of(switches@))
                == Err::<(Seq<(Seq<char>, Seq<char>)>, Seq<Seq<char>>), Seq<char>>(e@),
        },
{
    let ghost all = text::texts(args@);
    let ghost wv = names_of(with_values@);
    let ghost sw = names_of(switches@);
    let ghost want = flags_of(all, wv, sw);
    let mut values: Vec<(String, String)> = Vec::new();
    let mut on: Vec<String> = Vec::new();
    let mut i: usize = 0;
    proof {
        assert(all.skip(0) =~= all);
        assert(text::pairs(values@) =~= Seq::empty());
        assert(text::texts(on@) =~= Seq::<Seq<char>>::empty());
        if let Ok((v, s)) = want {
            assert(text::pairs(values@) + v =~= v);
            assert(text::texts(on@) + s =~= s);
        }
    }
    while i < args.len()
        invariant
            i <= args.len(),
            all == text::texts(args@),
            wv == names_of(with_values@),
            sw == names_of(switches@),
            want == flags_of(all, wv, sw),
            match flags_of(all.skip(i as int), wv, sw) {
                Ok((v, s)) => want == Ok::<
                    (Seq<(Seq<char>, Seq<char>)>, Seq<Seq<char>>),
                    Seq<char>,
                >((text::pairs(values@) + v, text::texts(on@) + s)),
                Err(e) => want == Err::<
                    (Seq<(Seq<char>, Seq<char>)>, Seq<Seq<char>>),
                    Seq<char>,
                >(e),
            },
        decreases args.len() - i,
    {
        let ghost rest = all.skip(i as int);
        let name = full_name(args[i].as_str());
        proof {
            assert(rest[0] == args@[i as int]@);
            assert(rest.skip(1) =~= all.skip(i + 1));
        }
        if is_among(with_values, name.as_str()) {
            i = i + 1;
            if i >= args.len() {
                return Err(text::cat3("flag --", name.as_str(), " requires a value"));
            }
            let ghost before = values@;
            let ghost n = name@;
            let value = args[i].clone();
            let ghost shown = value@;
            values.push((name, value));
            proof {
                assert(rest[1] == args@[i as int]@);
                assert(rest.skip(2) =~= all.skip(i + 1));
                assert(text::pairs(values@) =~= text::pairs(before).push((n, shown)));
                if let Ok((v, s)) = flags_of(rest.skip(2), wv, sw) {
                    assert(text::pairs(before) + (seq![(n, shown)] + v) =~= text::pairs(values@)
                        + v);
                }
            }
        } else if is_among(switches, name.as_str()) {
            let ghost before = on@;
            let ghost n = name@;
            on.push(name);
            proof {
                assert(text::texts(on@) =~= text::texts(before).push(n));
                if let Ok((v, s)) = flags_of(rest.skip(1), wv, sw) {
                    assert(text::texts(before) + (seq![n] + s) =~= text::texts(on@) + s);
                }
            }
        } else {
            return Err(text::cat("unknown flag --", name.as_str()));
        }
        i = i + 1;
    }
    proof {
        assert(all.skip(i as int).len() == 0);
        assert(text::pairs(values@) + Seq::<(Seq<char>, Seq<char>)>::empty() =~= text::pairs(
            values@,
        ));
        assert(text::texts(on@) + Seq::<Seq<char>>::empty() =~= text::texts(on@));
    }
    Ok(Flags { values, switches: on })
}

/// The value of a flag: the last one that was given.
pub open spec fn last_value(v: Seq<(Seq<char>, Seq<char>)>, k: Seq<char>) -> Option<Seq<char>>
    decreases v.len(),
{
    if v.len() == 0 {
        None
    } else if v.last().0 == k {
        Some(v.last().1)
    } else {
        last_value(v.drop_last(), k)
    }
}

impl Flags {
    /// The value of a flag, if it was given.
    pub open spec fn says(&self, k: Seq<char>) -> Option<Seq<char>> {
        last_value(text::pairs(self.values@), k)
    }

    /// Whether a switch is on.
    pub open spec fn on(&self, k: Seq<char>) -> bool {
        text::texts(self.switches@).contains(k)
    }

    /// The value of a flag, if it was given.
    pub fn value(&self, k: &str) -> (r: Option<&str>)
        ensures
            match r {
                Some(v) => self.says(k@) == Some(v@),
                None => self.says(k@) is None,
            },
    {
        let ghost all = text::pairs(self.values@);
        let mut i: usize = self.values.len();
        assert(all.take(i as int) =~= all);
        while i > 0
            invariant
                i <= self.values.len(),
                all == text::pairs(self.values@),
                last_value(all, k@) == last_value(all.take(i as int), k@),
            decreases i,
        {
            assert(all.take(i as int).drop_last() =~= all.take(i - 1));
            assert(all.take(i as int).last() == all[i - 1]);
            if text::same(self.values[i - 1].0.as_str(), k) {
                return Some(self.values[i - 1].1.as_str());
            }
            i = i - 1;
        }
        None
    }

    /// Whether a switch is on.
    pub fn is_on(&self, k: &str) -> (r: bool)
        ensures
            r == self.on(k@),
    {
        text::has_text(&self.switches, k)
    }
}

// ---------------------------------------------------------------------------
// Configuring
// ---------------------------------------------------------------------------
/// What a configuration is fetched with.
#[derive(Debug)]
pub struct ConfigureRequest {
    pub panel_url: String,
    pub token: String,
    pub node: String,
    pub config_path: String,
    /// what is asked
    pub url: String,
    pub allow_insecure: bool,
}

/// Where a configuration is written.
pub open spec fn target_of(f: &Flags) -> Seq<char> {
    match f.says("config-path"@) {
        Some(p) => p,
        None => "/etc/pterodactyl/config.yml"@,
    }
}

/// Why a configuration cannot be fetched. `exists` tells whether there is one
/// already.
pub open spec fn configure_fault(f: &Flags, exists: bool) -> Option<Seq<char>> {
    if f.says("panel-url"@) is None {
        Some("configure: --panel-url is required"@)
    } else if !(f.says("token"@) matches Some(t) && t.len() > 0) {
        Some("configure: --token is required"@)
    } else if !(f.says("node"@) matches Some(n) && n.len() > 0 && numbers::all_digits(n)) {
        Some("configure: --node must be the numeric ID of the node"@)
    } else if exists && !f.on("override"@) {
        Some(
            "Aborting process; a configuration file already exists for this node (use --override to replace it)."@,
        )
    } else {
        None
    }
}

fn only_digits(s: &str) -> (r: bool)
    ensures
        r == numbers::all_digits(s@),
{
    let a = text::chars_of(s);
    let mut i: usize = 0;
    while i < a.len()
        invariant
            i <= a.len(),
            a@ == s@,
            forall|k: int| 0 <= k < i ==> numbers::is_digit(#[trigger] s@[k]),
        decreases a.len() - i,
    {
        let c = a[i];
        if !('0' <= c && c <= '9') {
            assert(!numbers::is_digit(s@[i as int]));
            return false;
        }
        i = i + 1;
    }
    true
}

/// Where a configuration is written.
pub fn config_target(f: &Flags) -> (r: String)
    ensures
        r@ == target_of(f),
{
    match f.value("config-path") {
        Some(p) => p.to_owned(),
        None => "/etc/pterodactyl/config.yml".to_owned(),
    }
}

/// What a configuration is fetched with, or why it cannot be.
pub fn configure(f: &Flags, exists: bool) -> (r: Result<ConfigureRequest, String>)
    ensures
        match r {
            Ok(q) => {
                &&& configure_fault(f, exists) is None
                &&& f.says("panel-url"@) matches Some(u) && q.panel_url@ == text::trim_end_of(
                    u,
                    '/',
                )
                &&& f.says("token"@) == Some(q.token@)
                &&& f.says("node"@) == Some(q.node@)
                &&& q.config_path@ == target_of(f)
                &&& q.url@ == q.panel_url@ + "/api/application/nodes/"@ + q.node@
                    + "/configuration"@
                &&& q.allow_insecure == f.on("allow-insecure"@)
            },
            Err(m) => configure_fault(f, exists) == Some(m@),
        },
{
    let panel_url = match f.value("panel-url") {
        Some(u) => text::trimmed_end_of(u, '/'),
        None => {
            return Err("configure: --panel-url is required".to_owned());
        },
    };
    let token = match f.value("token") {
        Some(t) => {
            if t.is_empty() {
                return Err("configure: --token is required".to_owned());
            }
            t.to_owned()
        },
        None => {
            return Err("configure: --token is required".to_owned());
        },
    };
    let node = match f.value("node") {
        Some(n) => {
            if n.is_empty() || !only_digits(n) {
                return Err("configure: --node must be the numeric ID of the node".to_owned());
            }
            n.to_owned()
        },
        None => {
            return Err("configure: --node must be the numeric ID of the node".to_owned());
        },
    };
    let config_path = config_target(f);
    if exists && !f.is_on("override") {
        return Err(
            "Aborting process; a configuration file already exists for this node (use --override to replace it).".to_owned(),
        );
    }
    let mut url = text::cat3(panel_url.as_str(), "/api/application/nodes/", node.as_str());
    url.append("/configuration");
    Ok(
        ConfigureRequest {
            panel_url,
            token,
            node,
            config_path,
            url,
            allow_insecure: f.is_on("allow-insecure"),
        },
    )
}

/// Refuses an answer of the panel that is no configuration.
pub fn check_configure_answer(status: u16, status_text: &str, body: &str) -> (r: Result<(), String>)
    ensures
        match r {
            Ok(_) => 200 <= status < 300,
            Err(m) => if status == 403 || status == 401 {
                m@ == "The authentication credentials provided were not valid."@
            } else {
                !(200 <= status < 300) && m@
                    == "An error occurred while processing this request.\nHTTP "@ + status_text@
                    + "\n"@ + body@
            },
        },
{
    if status == 403 || status == 401 {
        return Err("The authentication credentials provided were not valid.".to_owned());
    }
    if 200 <= status && status < 300 {
        return Ok(());
    }
    let mut m = text::cat3(
        "An error occurred while processing this request.\nHTTP ",
        status_text,
        "\n",
    );
    m.append(body);
    Err(m)
}

/// A document with another one laid over it: objects are merged member by
/// member, and all else is taken from the upper one.
pub open spec fn merged(base: Doc, overlay: Doc) -> Doc
    decreases overlay, 0int,
{
    match (base, overlay) {
        (Doc::Object(m), Doc::Object(o)) => Doc::Object(merged_members(m, o)),
        _ => overlay,
    }
}

/// The members of an object with those of another one laid over them.
pub open spec fn merged_members(m: Seq<(Seq<char>, Doc)>, o: Seq<(Seq<char>, Doc)>) -> Seq<
    (Seq<char>, Doc),
>
    decreases o, o.len(),
{
    if o.len() == 0 {
        m
    } else {
        let before = merged_members(m, o.drop_last());
        let k = o[o.len() - 1].0;
        let v = o[o.len() - 1].1;
        json::put(
            before,
            k,
            match json::lookup(before, k) {
                Some(e) => merged(e, v),
                None => v,
            },
        )
    }
}

/// Lays the configuration that the panel gave over the built-in defaults, which
/// are YAML.
pub fn merge_defaults(defaults: &[u8], panel: &Json) -> (r: Result<Json, String>)
    ensures
        match (codec::parsed_yaml(defaults@), r) {
            (Ok(base), Ok(d)) => json::doc(d) == merged(base, json::doc(*panel)),
            (Err(e), Err(m)) => m@ == "cannot parse built-in defaults: "@ + e,
            _ => false,
        },
{
    match codec::parse_yaml(defaults) {
        Ok(base) => Ok(merge_values(base, panel)),
        Err(e) => Err(text::cat("cannot parse built-in defaults: ", e.as_str())),
    }
}

/// The text of a body, as far as it came.
pub open spec fn body_text(body: Result<Seq<u8>, Seq<char>>) -> Seq<char> {
    match body {
        Ok(b) => text::utf8_lossy(b),
        Err(_) => Seq::empty(),
    }
}

/// The configuration that an answer of the panel makes of the built-in defaults,
/// or the message for an answer that makes none. `body` is what came, or why
/// nothing did.
pub open spec fn configured_by(
    status: u16,
    status_text: Seq<char>,
    body: Result<Seq<u8>, Seq<char>>,
    defaults: Seq<u8>,
) -> Result<Doc, Seq<char>> {
    if status == 403 || status == 401 {
        Err("The authentication credentials provided were not valid."@)
    } else if !(200 <= status < 300) {
        Err(
            "An error occurred while processing this request.\nHTTP "@ + status_text + "\n"@
                + body_text(body),
        )
    } else {
        match body {
            Err(e) => Err("Failed to decode the panel response: "@ + e),
            Ok(b) => match (codec::parsed_json(b), codec::parsed_yaml(defaults)) {
                (Err(_), _) => Err(
                    "Failed to decode the panel response: error decoding response body"@,
                ),
                (Ok(_), Err(e)) => Err(
                    "Failed to merge configuration: "@ + ("cannot parse built-in defaults: "@ + e),
                ),
                (Ok(panel), Ok(base)) => Ok(merged(base, panel)),
            },
        }
    }
}

/// Reads the answer of the panel and lays it over the built-in defaults, which
/// are YAML.
pub fn read_configure_answer(
    status: u16,
    status_text: &str,
    body: Result<Vec<u8>, String>,
    defaults: &[u8],
) -> (r: Result<Json, String>)
    ensures
        configured_by(
            status,
            status_text@,
            match body {
                Ok(b) => Ok(b@),
                Err(e) => Err(e@),
            },
            defaults@,
        ) == (match r {
            Ok(d) => Ok(json::doc(d)),
            Err(m) => Err(m@),
        }),
{
    let shown = match &body {
        Ok(b) => text::from_utf8_lossy(b.as_slice()),
        Err(_) => String::new(),
    };
    check_configure_answer(status, status_text, shown.as_str())?;
    let bytes = match body {
        Ok(b) => b,
        Err(e) => {
            return Err(text::cat("Failed to decode the panel response: ", e.as_str()));
        },
    };
    match codec::parse_json(bytes.as_slice()) {
        Ok(panel) => match merge_defaults(defaults, &panel) {
            Ok(d) => Ok(d),
            Err(e) => Err(text::cat("Failed to merge configuration: ", e.as_str())),
        },
        Err(_) => Err(
            "Failed to decode the panel response: error decoding response body".to_owned(),
        ),
    }
}

/// A document with another one laid over it.
pub fn merge_values(base: Json, overlay: &Json) -> (r: Json)
    ensures
        json::doc(r) == merged(json::doc(base), json::doc(*overlay)),
    decreases overlay,
{
    match base {
        Json::Object(mut m) => {
            match overlay {
                Json::Object(o) => {
                    let ghost mine = json::members(m@);
                    let ghost theirs = json::members(o@);
                    proof {
                        json::lemma_doc_object(m);
                        json::lemma_doc_object(*o);
                        assert(theirs.take(0) =~= Seq::empty());
                    }
                    let mut i: usize = 0;
                    while i < o.len()
                        invariant
                            i <= o.len(),
                            overlay == Json::Object(*o),
                            theirs == json::members(o@),
                            json::members(m@) == merged_members(mine, theirs.take(i as int)),
                        decreases o.len() - i,
                    {
                        let ghost before = m@;
                        proof {
                            assert(theirs.take(i + 1).drop_last() =~= theirs.take(i as int));
                            assert(theirs.take(i + 1).last() == theirs[i as int]);
                            assert(decreases_to!(overlay->Object_0@ => overlay->Object_0@[i as int]));
                            assert(decreases_to!(overlay->Object_0@[i as int] => overlay->Object_0@[i as int].1));
                        }
                        let k = o[i].0.as_str();
                        let (at, found) = json::place(&m, k);
                        if found {
                            let e = m[at].1.copy();
                            let v = merge_values(e, &o[i].1);
                            let ghost d = json::doc(v);
                            m.set(at, (k.to_owned(), v));
                            assert(json::members(m@) =~= json::put(json::members(before), k@, d));
                        } else {
                            let v = o[i].1.copy();
                            let ghost d = json::doc(v);
                            m.insert(at, (k.to_owned(), v));
                            assert(json::members(m@) =~= json::put(json::members(before), k@, d));
                        }
                        i = i + 1;
                    }
                    assert(theirs.take(i as int) =~= theirs);
                    proof {
                        json::lemma_doc_object(m);
                    }
                    Json::Object(m)
                },
                _ => overlay.copy(),
            }
        },
        _ => overlay.copy(),
    }
}

proof fn lemma_merged_ascends(m: Seq<(Seq<char>, Doc)>, o: Seq<(Seq<char>, Doc)>)
    requires
        json::ascending(m),
    ensures
        json::ascending(merged_members(m, o)),
    decreases o.len(),
{
    if o.len() > 0 {
        lemma_merged_ascends(m, o.drop_last());
        let before = merged_members(m, o.drop_last());
        let k = o[o.len() - 1].0;
        let v = o[o.len() - 1].1;
        json::law_put_ascending(
            before,
            k,
            match json::lookup(before, k) {
                Some(e) => merged(e, v),
                None => v,
            },
        );
    }
}

/// What the panel does not speak of stays as it was; what it speaks of is laid
/// over what was there.
pub proof fn law_overlay_wins(m: Seq<(Seq<char>, Doc)>, o: Seq<(Seq<char>, Doc)>, k: Seq<char>, i: int)
    requires
        json::ascending(m),
        json::ascending(o),
    ensures
        (forall|j: int| 0 <= j < o.len() ==> (#[trigger] o[j]).0 != k) ==> json::lookup(
            merged_members(m, o),
            k,
        ) == json::lookup(m, k),
        0 <= i < o.len() ==> json::lookup(merged_members(m, o), o[i].0) == Some(
            match json::lookup(m, o[i].0) {
                Some(e) => merged(e, o[i].1),
                None => o[i].1,
            },
        ),
    decreases o.len(),
{
    if o.len() > 0 {
        let rest = o.drop_last();
        let before = merged_members(m, rest);
        let key = o[o.len() - 1].0;
        let v = o[o.len() - 1].1;
        let w = match json::lookup(before, key) {
            Some(e) => merged(e, v),
            None => v,
        };
        assert(json::ascending(rest)) by {
            assert forall|a: int, b: int| 0 <= a < b < rest.len() implies text::less(
                #[trigger] rest[a].0,
                #[trigger] rest[b].0,
            ) by {
                assert(rest[a] == o[a] && rest[b] == o[b]);
            }
        }
        lemma_merged_ascends(m, rest);
        law_overlay_wins(m, rest, k, i);
        law_overlay_wins(m, rest, key, i);
        json::law_put_lookup(before, key, w);
        assert forall|j: int| 0 <= j < rest.len() implies (#[trigger] rest[j]).0 != key by {
            assert(rest[j] == o[j]);
            assert(text::less(o[j].0, o[o.len() - 1].0));
            text::lemma_less_irreflexive(key);
        }
        if k != key {
            json::law_put_others(before, key, w, k);
            if forall|j: int| 0 <= j < o.len() ==> (#[trigger] o[j]).0 != k {
                assert forall|j: int| 0 <= j < rest.len() implies (#[trigger] rest[j]).0 != k by {
                    assert(rest[j] == o[j]);
                }
            }
        } else {
            assert(o[o.len() - 1].0 == k);
        }
        if 0 <= i < rest.len() {
            assert(rest[i] == o[i]);
            assert(o[i].0 != key);
            json::law_put_others(before, key, w, o[i].0);
        }
    }
}

/// Flags have their full names, or a letter that stands for one.
pub proof fn law_flag_names(name: Seq<char>)
    ensures
        flag_name("--panel-url"@) == "panel-url"@ && flag_name("--p"@) == "panel-url"@ && flag_name(
            "p"@,
        ) == "panel-url"@,
        flag_name("--t"@) == "token"@ && flag_name("--n"@) == "node"@ && flag_name("--c"@)
            == "config-path"@,
        name.len() > 1 && !(name[0] == '-' && name[1] == '-') ==> flag_name("--"@ + name) == name
            && flag_name(name) == name,
{
    reveal_strlit("--panel-url");
    reveal_strlit("panel-url");
    reveal_strlit("--p");
    reveal_strlit("--t");
    reveal_strlit("--n");
    reveal_strlit("--c");
    reveal_strlit("p");
    reveal_strlit("t");
    reveal_strlit("n");
    reveal_strlit("c");
    reveal_strlit("--");
    assert("--panel-url"@.skip(2) =~= "panel-url"@);
    assert(without_dashes("panel-url"@) == "panel-url"@);
    assert("--p"@.skip(2) =~= "p"@ && without_dashes("p"@) == "p"@);
    assert("--t"@.skip(2) =~= "t"@ && without_dashes("t"@) == "t"@);
    assert("--n"@.skip(2) =~= "n"@ && without_dashes("n"@) == "n"@);
    assert("--c"@.skip(2) =~= "c"@ && without_dashes("c"@) == "c"@);
    assert("p"@[0] == 'p' && "t"@[0] == 't' && "n"@[0] == 'n' && "c"@[0] == 'c');
    if name.len() > 1 && !(name[0] == '-' && name[1] == '-') {
        assert(("--"@ + name).skip(2) =~= name);
        assert(without_dashes(name) == name);
    }
}

/// A flag with a value takes the next argument, a switch takes none, and a flag that is
/// not known, or lacks its value, is an error. Arguments are read in order.
pub proof fn law_flags_are_read(
    flag: Seq<char>,
    value: Seq<char>,
    rest: Seq<Seq<char>>,
    with_values: Seq<Seq<char>>,
    switches: Seq<Seq<char>>,
)
    ensures
        with_values.contains(flag_name(flag)) ==> {
            &&& match flags_of(rest, with_values, switches) {
                Ok((v, s)) => flags_of(seq![flag, value] + rest, with_values, switches) == Ok::<
                    (Seq<(Seq<char>, Seq<char>)>, Seq<Seq<char>>),
                    Seq<char>,
                >((seq![(flag_name(flag), value)] + v, s)),
                Err(e) => flags_of(seq![flag, value] + rest, with_values, switches) == Err::<
                    (Seq<(Seq<char>, Seq<char>)>, Seq<Seq<char>>),
                    Seq<char>,
                >(e),
            }
            &&& flags_of(seq![flag], with_values, switches) == Err::<
                (Seq<(Seq<char>, Seq<char>)>, Seq<Seq<char>>),
                Seq<char>,
            >("flag --"@ + flag_name(flag) + " requires a value"@)
        },
        !with_values.contains(flag_name(flag)) && switches.contains(flag_name(flag)) ==> (match flags_of(
            rest,
            with_values,
            switches,
        ) {
            Ok((v, s)) => flags_of(seq![flag] + rest, with_values, switches) == Ok::<
                (Seq<(Seq<char>, Seq<char>)>, Seq<Seq<char>>),
                Seq<char>,
            >((v, seq![flag_name(flag)] + s)),
            Err(e) => flags_of(seq![flag] + rest, with_values, switches) is Err,
        }),
        !with_values.contains(flag_name(flag)) && !switches.contains(flag_name(flag)) ==> flags_of(
            seq![flag] + rest,
            with_values,
            switches,
        ) == Err::<(Seq<(Seq<char>, Seq<char>)>, Seq<Seq<char>>), Seq<char>>(
            "unknown flag --"@ + flag_name(flag),
        ),
{
    let two = seq![flag, value] + rest;
    let one = seq![flag] + rest;
    assert(two[0] == flag && two[1] == value);
    assert(one[0] == flag);
    assert(two.skip(2) =~= rest);
    assert(one.skip(1) =~= rest);
}

/// Of several values of a flag the last counts.
pub proof fn law_last_value_counts(v: Seq<(Seq<char>, Seq<char>)>, k: Seq<char>, other: Seq<char>, x: Seq<char>)
    requires
        other != k,
    ensures
        last_value(v.push((k, x)), k) == Some(x),
        last_value(v.push((other, x)), k) == last_value(v, k),
        last_value(Seq::empty(), k) is None,
{
    assert(v.push((k, x)).drop_last() =~= v);
    assert(v.push((other, x)).drop_last() =~= v);
}

/// A configuration is fetched with the panel, a token and the number of a node, and
/// takes the place of another only if that is asked for.
pub proof fn law_when_nodes_are_configured(f: &Flags, exists: bool)
    ensures
        configure_fault(f, exists) is None <==> {
            &&& f.says("panel-url"@) is Some
            &&& f.says("token"@) matches Some(t) && t.len() > 0
            &&& f.says("node"@) matches Some(n) && n.len() > 0 && numbers::all_digits(n)
            &&& exists ==> f.on("override"@)
        },
        f.says("config-path"@) is None ==> target_of(f) == "/etc/pterodactyl/config.yml"@,
        f.says("config-path"@) matches Some(p) ==> target_of(f) == p,
{
}

/// What is laid over something that is no object, or is none itself, takes its place.
pub proof fn law_overlay_replaces(base: Doc, overlay: Doc)
    ensures
        !(base is Object) || !(overlay is Object) ==> merged(base, overlay) == overlay,
        base is Object && overlay is Object ==> merged(base, overlay) is Object,
        merged(base, Doc::Object(Seq::empty())) == (if base is Object {
            base
        } else {
            Doc::Object(Seq::empty())
        }),
{
}

/// A configuration comes from an answer of success that can be read, laid over the
/// defaults; every other answer is an error.
pub proof fn law_answers_that_configure(
    status: u16,
    status_text: Seq<char>,
    body: Seq<u8>,
    defaults: Seq<u8>,
    panel: Doc,
    base: Doc,
)
    requires
        codec::parsed_yaml(defaults) == Ok::<Doc, Seq<char>>(base),
    ensures
        200 <= status < 300 && codec::parsed_json(body) == Ok::<Doc, Seq<char>>(panel)
            ==> configured_by(status, status_text, Ok(body), defaults) == Ok::<Doc, Seq<char>>(
            merged(base, panel),
        ),
        200 <= status < 300 && codec::parsed_json(body) is Err ==> configured_by(
            status,
            status_text,
            Ok(body),
            defaults,
        ) is Err,
        !(200 <= status < 300) ==> configured_by(status, status_text, Ok(body), defaults) is Err,
        status == 401 || status == 403 ==> configured_by(status, status_text, Ok(body), defaults)
            == Err::<Doc, Seq<char>>("The authentication credentials provided were not valid."@),
{
}

} // verus!
