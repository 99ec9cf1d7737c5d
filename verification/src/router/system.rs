//! Requests about the daemon itself.
use vstd::prelude::*;
use crate::config::Config;
use crate::error::{AppError, AppResult};
use crate::json;
use crate::json::{Doc, Json};
use crate::numbers;
use crate::text;

verus! {

// ---------------------------------------------------------------------------
// What the machine is
// ---------------------------------------------------------------------------
/// What is known of the machine.
#[derive(Debug, Clone)]
pub struct SystemFacts {
    pub architecture: String,
    pub cpu_threads: u64,
    pub kernel_version: String,
    /// the name of the distribution
    pub os: String,
    pub os_type: String,
    /// the version of the daemon
    pub version: String,
}

/// What docker says of itself.
#[derive(Debug, Clone)]
pub struct EngineInfo {
    pub containers: i64,
    pub running: i64,
    pub paused: i64,
    pub stopped: i64,
    pub driver: Option<String>,
    /// rows of names and values
    pub driver_status: Vec<Vec<String>>,
    pub cgroup_driver: String,
    pub cgroup_version: String,
    pub memory: Option<i64>,
}

/// The versions that docker is made of.
#[derive(Debug, Clone)]
pub struct EngineVersion {
    pub version: Option<String>,
    /// names and versions
    pub components: Vec<(String, String)>,
}

/// The file system that images are kept on, by the rows of docker: the last one
/// that is named.
pub open spec fn backing(rows: Seq<Vec<String>>) -> Seq<char>
    decreases rows.len(),
{
    if rows.len() == 0 {
        ""@
    } else {
        let row = rows.last()@;
        if row.len() > 1 && row[0]@ == "Backing Filesystem"@ {
            row[1]@
        } else {
            backing(rows.drop_last())
        }
    }
}

/// The version of the component that runs containers: the last one that is
/// named.
pub open spec fn runc_version(components: Seq<(String, String)>) -> Seq<char>
    decreases components.len(),
{
    if components.len() == 0 {
        ""@
    } else if components.last().0@ == "runc"@ {
        components.last().1@
    } else {
        runc_version(components.drop_last())
    }
}

pub open spec fn number_doc(n: int) -> Doc {
    Doc::Number(numbers::decimal_int(n))
}

/// What is told of docker.
pub open spec fn docker_doc(info: Option<EngineInfo>, version: Option<EngineVersion>) -> Doc {
    Doc::Object(
        seq![
            (
                "cgroups"@,
                Doc::Object(
                    seq![
                        ("driver"@, Doc::Str(match info {
                            Some(i) => i.cgroup_driver@,
                            None => ""@,
                        })),
                        ("version"@, Doc::Str(match info {
                            Some(i) => i.cgroup_version@,
                            None => ""@,
                        })),
                    ],
                ),
            ),
            (
                "containers"@,
                Doc::Object(
                    seq![
                        ("paused"@, number_doc(match info {
                            Some(i) => i.paused as int,
                            None => 0,
                        })),
                        ("running"@, number_doc(match info {
                            Some(i) => i.running as int,
                            None => 0,
                        })),
                        ("stopped"@, number_doc(match info {
                            Some(i) => i.stopped as int,
                            None => 0,
                        })),
                        ("total"@, number_doc(match info {
                            Some(i) => i.containers as int,
                            None => 0,
                        })),
                    ],
                ),
            ),
            (
                "runc"@,
                Doc::Object(
                    seq![("version"@, Doc::Str(match version {
                        Some(v) => runc_version(v.components@),
                        None => ""@,
                    }))],
                ),
            ),
            (
                "storage"@,
                Doc::Object(
                    seq![
                        ("driver"@, Doc::Str(match info {
                            Some(i) => match i.driver {
                                Some(d) => d@,
                                None => ""@,
                            },
                            None => ""@,
                        })),
                        ("filesystem"@, Doc::Str(match info {
                            Some(i) => backing(i.driver_status@),
                            None => ""@,
                        })),
                    ],
                ),
            ),
            ("version"@, Doc::Str(match version {
                Some(v) => match v.version {
                    Some(s) => s@,
                    None => ""@,
                },
                None => ""@,
            })),
        ],
    )
}

/// What is told of the machine.
pub open spec fn system_doc(facts: SystemFacts, info: Option<EngineInfo>) -> Doc {
    Doc::Object(
        seq![
            ("architecture"@, Doc::Str(facts.architecture@)),
            ("cpu_threads"@, Doc::Number(numbers::decimal(facts.cpu_threads as nat))),
            ("kernel_version"@, Doc::Str(facts.kernel_version@)),
            ("memory_bytes"@, number_doc(match info {
                Some(i) => match i.memory {
                    Some(m) => m as int,
                    None => 0,
                },
                None => 0,
            })),
            ("os"@, Doc::Str(facts.os@)),
            ("os_type"@, Doc::Str(facts.os_type@)),
        ],
    )
}

fn find_backing(rows: &Vec<Vec<String>>) -> (r: String)
    ensures
        r@ == backing(rows@),
{
    let mut i: usize = rows.len();
    assert(rows@.take(i as int) =~= rows@);
    while i > 0
        invariant
            i <= rows.len(),
            backing(rows@) == backing(rows@.take(i as int)),
        decreases i,
    {
        assert(rows@.take(i as int).drop_last() =~= rows@.take(i - 1));
        let row = &rows[i - 1];
        if row.len() > 1 && text::same(row[0].as_str(), "Backing Filesystem") {
            return row[1].clone();
        }
        i = i - 1;
    }
    "".to_owned()
}

fn find_runc(components: &Vec<(String, String)>) -> (r: String)
    ensures
        r@ == runc_version(components@),
{
    let mut i: usize = components.len();
    assert(components@.take(i as int) =~= components@);
    while i > 0
        invariant
            i <= components.len(),
            runc_version(components@) == runc_version(components@.take(i as int)),
        decreases i,
    {
        assert(components@.take(i as int).drop_last() =~= components@.take(i - 1));
        if text::same(components[i - 1].0.as_str(), "runc") {
            return components[i - 1].1.clone();
        }
        i = i - 1;
    }
    "".to_owned()
}

fn number(n: i64) -> (r: Json)
    ensures
        json::doc(r) == number_doc(n as int),
{
    Json::Number(numbers::decimal_i64(n))
}

fn word(s: String) -> (r: Json)
    ensures
        json::doc(r) == Doc::Str(s@),
{
    Json::Str(s)
}

fn docker_json(info: &Option<EngineInfo>, version: &Option<EngineVersion>) -> (r: Json)
    ensures
        json::doc(r) == docker_doc(*info, *version),
{
    let mut cgroups = json::no_members();
    let mut containers = json::no_members();
    let mut storage = json::no_members();
    match info {
        Some(i) => {
            json::add_member(&mut cgroups, "driver", word(i.cgroup_driver.clone()));
            json::add_member(&mut cgroups, "version", word(i.cgroup_version.clone()));
            json::add_member(&mut containers, "paused", number(i.paused));
            json::add_member(&mut containers, "running", number(i.running));
            json::add_member(&mut containers, "stopped", number(i.stopped));
            json::add_member(&mut containers, "total", number(i.containers));
            let driver = match &i.driver {
                Some(d) => d.clone(),
                None => "".to_owned(),
            };
            json::add_member(&mut storage, "driver", word(driver));
            json::add_member(&mut storage, "filesystem", word(find_backing(&i.driver_status)));
        },
        None => {
            json::add_member(&mut cgroups, "driver", word("".to_owned()));
            json::add_member(&mut cgroups, "version", word("".to_owned()));
            json::add_member(&mut containers, "paused", number(0));
            json::add_member(&mut containers, "running", number(0));
            json::add_member(&mut containers, "stopped", number(0));
            json::add_member(&mut containers, "total", number(0));
            json::add_member(&mut storage, "driver", word("".to_owned()));
            json::add_member(&mut storage, "filesystem", word("".to_owned()));
        },
    }
    let mut runc = json::no_members();
    let engine = match version {
        Some(v) => {
            json::add_member(&mut runc, "version", word(find_runc(&v.components)));
            match &v.version {
                Some(s) => s.clone(),
                None => "".to_owned(),
            }
        },
        None => {
            json::add_member(&mut runc, "version", word("".to_owned()));
            "".to_owned()
        },
    };
    let ghost want = docker_doc(*info, *version)->Object_0;
    assert(json::members(cgroups@) =~= want[0].1->Object_0);
    assert(json::members(containers@) =~= want[1].1->Object_0);
    assert(json::members(runc@) =~= want[2].1->Object_0);
    assert(json::members(storage@) =~= want[3].1->Object_0);
    let mut all = json::no_members();
    json::add_member(&mut all, "cgroups", json::object(cgroups));
    json::add_member(&mut all, "containers", json::object(containers));
    json::add_member(&mut all, "runc", json::object(runc));
    json::add_member(&mut all, "storage", json::object(storage));
    json::add_member(&mut all, "version", word(engine));
    assert(json::members(all@) =~= want);
    json::object(all)
}

/// All that is told of the machine, of docker and of the daemon.
pub fn system_information_v2(
    facts: &SystemFacts,
    info: &Option<EngineInfo>,
    version: &Option<EngineVersion>,
) -> (r: Json)
    ensures
        json::doc(r) == Doc::Object(
            seq![
                ("docker"@, docker_doc(*info, *version)),
                ("system"@, system_doc(*facts, *info)),
                ("version"@, Doc::Str(facts.version@)),
            ],
        ),
{
    let memory: i64 = match info {
        Some(i) => match i.memory {
            Some(m) => m,
            None => 0,
        },
        None => 0,
    };
    let mut system = json::no_members();
    json::add_member(&mut system, "architecture", word(facts.architecture.clone()));
    json::add_member(
        &mut system,
        "cpu_threads",
        Json::Number(numbers::decimal_u64(facts.cpu_threads)),
    );
    json::add_member(&mut system, "kernel_version", word(facts.kernel_version.clone()));
    json::add_member(&mut system, "memory_bytes", number(memory));
    json::add_member(&mut system, "os", word(facts.os.clone()));
    json::add_member(&mut system, "os_type", word(facts.os_type.clone()));
    assert(json::members(system@) =~= system_doc(*facts, *info)->Object_0);
    let mut all = json::no_members();
    json::add_member(&mut all, "docker", docker_json(info, version));
    json::add_member(&mut all, "system", json::object(system));
    json::add_member(&mut all, "version", word(facts.version.clone()));
    assert(json::members(all@) =~= seq![
        ("docker"@, docker_doc(*info, *version)),
        ("system"@, system_doc(*facts, *info)),
        ("version"@, Doc::Str(facts.version@)),
    ]);
    json::object(all)
}

/// The short form of what is told of the machine.
pub fn system_information(facts: &SystemFacts) -> (r: Json)
    ensures
        json::doc(r) == Doc::Object(
            seq![
                ("architecture"@, Doc::Str(facts.architecture@)),
                ("cpu_count"@, Doc::Number(numbers::decimal(facts.cpu_threads as nat))),
                ("kernel_version"@, Doc::Str(facts.kernel_version@)),
                ("os"@, Doc::Str(facts.os_type@)),
                ("version"@, Doc::Str(facts.version@)),
            ],
        ),
{
    let mut all = json::no_members();
    json::add_member(&mut all, "architecture", word(facts.architecture.clone()));
    json::add_member(
        &mut all,
        "cpu_count",
        Json::Number(numbers::decimal_u64(facts.cpu_threads)),
    );
    json::add_member(&mut all, "kernel_version", word(facts.kernel_version.clone()));
    json::add_member(&mut all, "os", word(facts.os_type.clone()));
    json::add_member(&mut all, "version", word(facts.version.clone()));
    assert(json::members(all@) =~= seq![
        ("architecture"@, Doc::Str(facts.architecture@)),
        ("cpu_count"@, Doc::Number(numbers::decimal(facts.cpu_threads as nat))),
        ("kernel_version"@, Doc::Str(facts.kernel_version@)),
        ("os"@, Doc::Str(facts.os_type@)),
        ("version"@, Doc::Str(facts.version@)),
    ]);
    json::object(all)
}

/// The value of a setting in the lines of the release file, by the first line
/// that has it.
pub open spec fn setting(lines: Seq<Seq<char>>, key: Seq<char>) -> Option<Seq<char>>
    decreases lines.len(),
{
    if lines.len() == 0 {
        None
    } else if key.is_prefix_of(lines[0]) {
        Some(
            text::trim_end_of(
                text::trim_start_of(lines[0].skip(key.len() as int), '"'),
                '"',
            ),
        )
    } else {
        setting(lines.skip(1), key)
    }
}

/// Finds a setting in the release file.
fn find_setting(content: &str, key: &str) -> (r: Option<String>)
    ensures
        match r {
            Some(v) => setting(text::lines(content@), key@) == Some(v@),
            None => setting(text::lines(content@), key@) is None,
        },
{
    let lines = text::lines_of(content);
    let ghost all = text::lines(content@);
    let mut i: usize = 0;
    proof {
        let seen = lines@.map_values(|v: Vec<char>| v@);
        assert(all == seen);
        assert forall|k: int| 0 <= k < lines@.len() implies (#[trigger] lines@[k])@ == all[k] by {
            assert(seen[k] == lines@[k]@);
        }
        assert(all.skip(0) =~= all);
    }
    while i < lines.len()
        invariant
            i <= lines.len(),
            all == text::lines(content@),
            all.len() == lines@.len(),
            forall|k: int| 0 <= k < lines@.len() ==> (#[trigger] lines@[k])@ == all[k],
            setting(all, key@) == setting(all.skip(i as int), key@),
        decreases lines.len() - i,
    {
        assert(all.skip(i as int)[0] == lines@[i as int]@);
        assert(all.skip(i as int).skip(1) =~= all.skip(i + 1));
        let line = text::string_of(lines[i].as_slice());
        if let Some(v) = text::strip_prefix(line.as_str(), key) {
            return Some(text::trimmed_of(v.as_str(), '"'));
        }
        i = i + 1;
    }
    None
}

/// The name of the distribution by its release file: the pretty one, else the
/// plain one, else what the caller knows it by.
pub fn os_release_name(content: Option<&str>, otherwise: &str) -> (r: String)
    ensures
        r@ == (match content {
            Some(c) => match (
                setting(text::lines(c@), "PRETTY_NAME="@),
                setting(text::lines(c@), "NAME="@),
            ) {
                (Some(n), _) => n,
                (None, Some(n)) => n,
                (None, None) => otherwise@,
            },
            None => otherwise@,
        }),
{
    if let Some(c) = content {
        if let Some(n) = find_setting(c, "PRETTY_NAME=") {
            return n;
        }
        if let Some(n) = find_setting(c, "NAME=") {
            return n;
        }
    }
    otherwise.to_owned()
}

// ---------------------------------------------------------------------------
// A configuration that the panel sends
// ---------------------------------------------------------------------------
/// Whether a token is not given itself, but says where it is.
pub open spec fn indirect(token: Seq<char>) -> bool {
    text::find(token, "$"@) != -1 || "file://"@.is_prefix_of(token)
}

fn is_indirect(token: &str) -> (r: bool)
    ensures
        r == indirect(token@),
{
    proof {
        reveal_strlit("$");
    }
    text::contains(token, "$") || text::starts_with(token, "file://")
}

/// Whether a token is at odds with the one that the environment gives.
pub open spec fn overridden(env: Option<&str>, token: Seq<char>) -> bool {
    env matches Some(t) && t@.len() > 0 && text::trim(t@) != token
}

fn is_overridden(env: Option<&str>, token: &str) -> (r: bool)
    ensures
        r == overridden(env, token@),
{
    match env {
        Some(t) => !t.is_empty() && !text::same(text::trimmed(t).as_str(), token),
        None => false,
    }
}

/// Why a configuration is not taken over.
pub open spec fn update_refusal(
    token: Seq<char>,
    token_id: Seq<char>,
    env_token: Option<&str>,
    env_token_id: Option<&str>,
) -> Option<Seq<char>> {
    if indirect(token) {
        Some("config: remote token cannot use token indirection"@)
    } else if indirect(token_id) {
        Some("config: remote token ID cannot use token indirection"@)
    } else if overridden(env_token, token) {
        Some("config: remote token does not match environment override"@)
    } else if overridden(env_token_id, token_id) {
        Some("config: remote token ID does not match environment override"@)
    } else if token.len() == 0 || token_id.len() == 0 {
        Some("config: refusing to apply an update with an empty authentication token"@)
    } else {
        None
    }
}

/// Whether a certificate is where the panel expects it.
pub open spec fn is_default_place(path: Seq<char>) -> bool {
    "/etc/letsencrypt/live/"@.is_prefix_of(path)
}

/// A configuration takes the place of the current one. Certificates that the panel
/// only expects somewhere stay where they are, and so does the file.
pub open spec fn takes_over(current: &Config, update: Config, c: Config) -> bool {
    &&& c.api.ssl.key@ == (if is_default_place(update.api.ssl.key@) {
        current.api.ssl.key@
    } else {
        update.api.ssl.key@
    })
    &&& c.api.ssl.cert@ == (if is_default_place(update.api.ssl.cert@) {
        current.api.ssl.cert@
    } else {
        update.api.ssl.cert@
    })
    &&& c.api == (crate::config::ApiConfig {
        ssl: crate::config::SslConfig {
            key: c.api.ssl.key,
            cert: c.api.ssl.cert,
            ..update.api.ssl
        },
        ..update.api
    })
    &&& c == (Config { api: c.api, path: c.path, ..update })
    &&& match current.path {
        Some(p) => c.path matches Some(q) && q@ == p@,
        None => c.path == update.path,
    }
}

/// The configuration that takes the place of the current one; none where the
/// daemon ignores what the panel sends. `update` is what was sent, or why it could
/// not be read. A token has to be given itself, and to agree with the environment.
pub fn post_update_configuration(
    current: &Config,
    update: Result<Config, String>,
    env_token: Option<&str>,
    env_token_id: Option<&str>,
) -> (r: AppResult<Option<Config>>)
    ensures
        if current.ignore_panel_config_updates {
            r == Ok::<Option<Config>, AppError>(None)
        } else {
            match update {
                Err(e) => r is Err && crate::error::is_bad_request(
                    r->Err_0,
                    "invalid config payload: "@ + e@,
                ),
                Ok(sent) => match update_refusal(
                    sent.token@,
                    sent.token_id@,
                    env_token,
                    env_token_id,
                ) {
                    Some(m) => r is Err && crate::error::is_bad_request(r->Err_0, m),
                    None => r matches Ok(Some(c)) && takes_over(current, sent, c),
                },
            }
        },
{
    if current.ignore_panel_config_updates {
        return Ok(None);
    }
    let mut c = match update {
        Ok(sent) => sent,
        Err(e) => {
            return Err(AppError::BadRequest(text::cat("invalid config payload: ", e.as_str())));
        },
    };
    if text::starts_with(c.api.ssl.key.as_str(), "/etc/letsencrypt/live/") {
        c.api.ssl.key = current.api.ssl.key.clone();
    }
    if text::starts_with(c.api.ssl.cert.as_str(), "/etc/letsencrypt/live/") {
        c.api.ssl.cert = current.api.ssl.cert.clone();
    }
    if is_indirect(c.token.as_str()) {
        return Err(
            AppError::BadRequest("config: remote token cannot use token indirection".to_owned()),
        );
    }
    if is_indirect(c.token_id.as_str()) {
        return Err(
            AppError::BadRequest(
                "config: remote token ID cannot use token indirection".to_owned(),
            ),
        );
    }
    if is_overridden(env_token, c.token.as_str()) {
        return Err(
            AppError::BadRequest(
                "config: remote token does not match environment override".to_owned(),
            ),
        );
    }
    if is_overridden(env_token_id, c.token_id.as_str()) {
        return Err(
            AppError::BadRequest(
                "config: remote token ID does not match environment override".to_owned(),
            ),
        );
    }
    if c.token.as_str().is_empty() || c.token_id.as_str().is_empty() {
        return Err(
            AppError::BadRequest(
                "config: refusing to apply an update with an empty authentication token".to_owned(),
            ),
        );
    }
    if let Some(p) = &current.path {
        c.path = Some(p.clone());
    }
    Ok(Some(c))
}

/// A configuration that is taken over has a token, which it gives itself.
pub proof fn law_updates_keep_a_token(
    token: Seq<char>,
    token_id: Seq<char>,
    env_token: Option<&str>,
    env_token_id: Option<&str>,
)
    requires
        update_refusal(token, token_id, env_token, env_token_id) is None,
    ensures
        token.len() > 0 && !indirect(token),
        token_id.len() > 0 && !indirect(token_id),
        env_token matches Some(t) ==> t@.len() == 0 || token == text::trim(t@),
{
}

/// The file system and the version that count are the last that are named.
pub proof fn law_last_named_counts(
    rows: Seq<Vec<String>>,
    row: Vec<String>,
    components: Seq<(String, String)>,
    c: (String, String),
)
    ensures
        row@.len() > 1 && row@[0]@ == "Backing Filesystem"@ ==> backing(rows.push(row)) == row@[1]@,
        row@.len() <= 1 || row@[0]@ != "Backing Filesystem"@ ==> backing(rows.push(row)) == backing(
            rows,
        ),
        backing(Seq::empty()) == ""@,
        c.0@ == "runc"@ ==> runc_version(components.push(c)) == c.1@,
        c.0@ != "runc"@ ==> runc_version(components.push(c)) == runc_version(components),
        runc_version(Seq::empty()) == ""@,
{
    assert(rows.push(row).drop_last() =~= rows);
    assert(components.push(c).drop_last() =~= components);
}

/// A setting is what follows its key on the first line that starts with it, without
/// quotes.
pub proof fn law_settings(
    before: Seq<Seq<char>>,
    key: Seq<char>,
    value: Seq<char>,
    behind: Seq<Seq<char>>,
)
    requires
        forall|i: int| 0 <= i < before.len() ==> !key.is_prefix_of(#[trigger] before[i]),
        value.len() > 0 ==> value[0] != '"' && value.last() != '"',
    ensures
        setting(before + seq![key + value] + behind, key) == Some(value),
        setting(before + seq![key + seq!['"'] + value + seq!['"']] + behind, key) == Some(value),
        setting(before, key) is None,
    decreases before.len(),
{
    let one = key + value;
    let two = key + seq!['"'] + value + seq!['"'];
    let a = before + seq![one] + behind;
    let b = before + seq![two] + behind;
    if before.len() == 0 {
        assert(a[0] == one && b[0] == two);
        assert(key =~= one.subrange(0, key.len() as int));
        assert(key =~= two.subrange(0, key.len() as int));
        assert(one.skip(key.len() as int) =~= value);
        let q = two.skip(key.len() as int);
        assert(q =~= seq!['"'] + value + seq!['"']);
        assert(text::trim_start_of(value, '"') == value);
        assert(text::trim_end_of(value, '"') == value);
        let r = value + seq!['"'];
        assert(q.skip(1) =~= r);
        if value.len() == 0 {
            assert(r.skip(1) =~= value);
            assert(text::trim_start_of(r, '"') == text::trim_start_of(r.skip(1), '"'));
        } else {
            assert(r[0] == value[0]);
            assert(text::trim_start_of(r, '"') == r);
            assert(r.drop_last() =~= value);
            assert(text::trim_end_of(r, '"') == text::trim_end_of(value, '"'));
        }
        assert(text::trim_start_of(q, '"') == text::trim_start_of(r, '"'));
    } else {
        let rest = before.skip(1);
        assert forall|i: int| 0 <= i < rest.len() implies !key.is_prefix_of(#[trigger] rest[i]) by {
            assert(rest[i] == before[i + 1]);
        }
        law_settings(rest, key, value, behind);
        assert(a[0] == before[0] && b[0] == before[0]);
        assert(a.skip(1) =~= rest + seq![one] + behind);
        assert(b.skip(1) =~= rest + seq![two] + behind);
    }
}

/// A configuration is taken over with tokens that are given themselves, are there, and
/// agree with the environment.
pub proof fn law_which_updates_are_taken(
    token: Seq<char>,
    token_id: Seq<char>,
    env_token: Option<&str>,
    env_token_id: Option<&str>,
)
    ensures
        update_refusal(token, token_id, env_token, env_token_id) is None <==> {
            &&& token.len() > 0 && token_id.len() > 0
            &&& text::find(token, "$"@) == -1 && text::find(token_id, "$"@) == -1
            &&& !("file://"@).is_prefix_of(token) && !("file://"@).is_prefix_of(token_id)
            &&& env_token matches Some(t) ==> t@.len() == 0 || text::trim(t@) == token
            &&& env_token_id matches Some(t) ==> t@.len() == 0 || text::trim(t@) == token_id
        },
{
}

/// An update takes the place of the configuration, but for certificates that are only
/// expected somewhere and for where the file is.
pub proof fn law_updates_take_over(current: &Config, update: Config, c: Config)
    requires
        takes_over(current, update, c),
    ensures
        c.debug == update.debug && c.app_name == update.app_name && c.uuid == update.uuid
            && c.token_id == update.token_id && c.token == update.token && c.system == update.system
            && c.docker == update.docker && c.throttles == update.throttles && c.remote
            == update.remote && c.remote_query == update.remote_query && c.allowed_mounts
            == update.allowed_mounts && c.allowed_origins == update.allowed_origins
            && c.allow_cors_private_network == update.allow_cors_private_network
            && c.ignore_panel_config_updates == update.ignore_panel_config_updates,
        c.api.host == update.api.host && c.api.port == update.api.port
            && c.api.disable_remote_download == update.api.disable_remote_download
            && c.api.upload_limit == update.api.upload_limit && c.api.trusted_proxies
            == update.api.trusted_proxies && c.api.ssl.enabled == update.api.ssl.enabled,
        ("/etc/letsencrypt/live/"@).is_prefix_of(update.api.ssl.cert@) ==> c.api.ssl.cert@
            == current.api.ssl.cert@,
        !("/etc/letsencrypt/live/"@).is_prefix_of(update.api.ssl.cert@) ==> c.api.ssl.cert@
            == update.api.ssl.cert@,
        ("/etc/letsencrypt/live/"@).is_prefix_of(update.api.ssl.key@) ==> c.api.ssl.key@
            == current.api.ssl.key@,
        !("/etc/letsencrypt/live/"@).is_prefix_of(update.api.ssl.key@) ==> c.api.ssl.key@
            == update.api.ssl.key@,
        current.path matches Some(p) ==> (c.path matches Some(q) && q@ == p@),
{
}

/// What is told of the machine.
pub proof fn law_what_is_told_of_the_machine(facts: SystemFacts, info: EngineInfo, m: i64)
    ensures
        system_doc(facts, Some(info)) matches Doc::Object(o) && o.contains(
            ("architecture"@, Doc::Str(facts.architecture@)),
        ) && o.contains(
            ("cpu_threads"@, Doc::Number(numbers::decimal(facts.cpu_threads as nat))),
        ) && o.contains(("kernel_version"@, Doc::Str(facts.kernel_version@))) && o.contains(
            ("os"@, Doc::Str(facts.os@)),
        ) && o.contains(("os_type"@, Doc::Str(facts.os_type@))) && (info.memory == Some(m)
            ==> o.contains(("memory_bytes"@, Doc::Number(numbers::decimal_int(m as int))))),
        system_doc(facts, None) matches Doc::Object(o) && o.contains(
            ("memory_bytes"@, Doc::Number(numbers::decimal_int(0))),
        ),
{
    let o = system_doc(facts, Some(info))->Object_0;
    assert(o[0] == ("architecture"@, Doc::Str(facts.architecture@)));
    assert(o[1] == ("cpu_threads"@, Doc::Number(numbers::decimal(facts.cpu_threads as nat))));
    assert(o[2] == ("kernel_version"@, Doc::Str(facts.kernel_version@)));
    assert(o[4] == ("os"@, Doc::Str(facts.os@)));
    assert(o[5] == ("os_type"@, Doc::Str(facts.os_type@)));
    assert(info.memory == Some(m) ==> o[3] == (
        "memory_bytes"@,
        Doc::Number(numbers::decimal_int(m as int)),
    ));
    let e = system_doc(facts, None)->Object_0;
    assert(e[3] == ("memory_bytes"@, Doc::Number(numbers::decimal_int(0))));
}

/// What is told of docker: how many containers there are and how they do, and what the
/// engine is made of.
pub proof fn law_what_is_told_of_docker(info: EngineInfo, version: EngineVersion)
    ensures
        docker_doc(Some(info), Some(version)) matches Doc::Object(o) && o.len() == 5 && o[0] == (
            "cgroups"@,
            Doc::Object(
                seq![
                    ("driver"@, Doc::Str(info.cgroup_driver@)),
                    ("version"@, Doc::Str(info.cgroup_version@)),
                ],
            ),
        ) && o[1] == (
            "containers"@,
            Doc::Object(
                seq![
                    ("paused"@, Doc::Number(numbers::decimal_int(info.paused as int))),
                    ("running"@, Doc::Number(numbers::decimal_int(info.running as int))),
                    ("stopped"@, Doc::Number(numbers::decimal_int(info.stopped as int))),
                    ("total"@, Doc::Number(numbers::decimal_int(info.containers as int))),
                ],
            ),
        ) && o[2] == (
            "runc"@,
            Doc::Object(seq![("version"@, Doc::Str(runc_version(version.components@)))]),
        ) && o[3].0 == "storage"@ && (info.driver matches Some(d) ==> o[3].1 == Doc::Object(
            seq![
                ("driver"@, Doc::Str(d@)),
                ("filesystem"@, Doc::Str(backing(info.driver_status@))),
            ],
        )) && (version.version matches Some(v) ==> o[4] == ("version"@, Doc::Str(v@))),
{
    let o = docker_doc(Some(info), Some(version))->Object_0;
    assert(o[0].1->Object_0 =~= seq![
        ("driver"@, Doc::Str(info.cgroup_driver@)),
        ("version"@, Doc::Str(info.cgroup_version@)),
    ]);
    assert(o[1].1->Object_0 =~= seq![
        ("paused"@, Doc::Number(numbers::decimal_int(info.paused as int))),
        ("running"@, Doc::Number(numbers::decimal_int(info.running as int))),
        ("stopped"@, Doc::Number(numbers::decimal_int(info.stopped as int))),
        ("total"@, Doc::Number(numbers::decimal_int(info.containers as int))),
    ]);
    assert(o[2].1->Object_0 =~= seq![
        ("version"@, Doc::Str(runc_version(version.components@))),
    ]);
    if let Some(d) = info.driver {
        assert(o[3].1->Object_0 =~= seq![
            ("driver"@, Doc::Str(d@)),
            ("filesystem"@, Doc::Str(backing(info.driver_status@))),
        ]);
    }
}

} // verus!
