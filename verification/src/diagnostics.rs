//! The report that helps to find out what is wrong. It never has a token in it.
use vstd::prelude::*;
use crate::cli::Flags;
use crate::config::Config;
use crate::models::configuration::{bool_string, bool_text};
use crate::numbers;
use crate::text;

verus! {

/// What a report is made from.
#[derive(Debug)]
pub struct DiagnosticsRequest {
    pub config_path: String,
    pub log_lines: usize,
    /// where the report goes, if not to the terminal
    pub output: Option<String>,
    pub include_endpoints: bool,
    pub include_logs: bool,
}

/// What a report is made from, by the flags of the command; `env_path` is where
/// the environment says that the configuration is.
pub fn diagnostics(f: &Flags, env_path: Option<&str>) -> (r: DiagnosticsRequest)
    ensures
        r.config_path@ == (match f.says("config-path"@) {
            Some(p) => p,
            None => match env_path {
                Some(p) => p@,
                None => "/etc/pterodactyl/config.yml"@,
            },
        }),
        r.log_lines == (match f.says("log-lines"@) {
            Some(v) => match numbers::parse_unsigned(v, usize::MAX as int) {
                Some(n) => n,
                None => 200,
            },
            None => 200,
        }),
        match r.output {
            Some(o) => f.says("output"@) == Some(o@),
            None => f.says("output"@) is None,
        },
        r.include_endpoints == f.on("include-endpoints"@),
        r.include_logs == !f.on("no-logs"@),
{
    let config_path = match f.value("config-path") {
        Some(p) => p.to_owned(),
        None => match env_path {
            Some(p) => p.to_owned(),
            None => "/etc/pterodactyl/config.yml".to_owned(),
        },
    };
    let log_lines: usize = match f.value("log-lines") {
        Some(v) => match numbers::read_usize(v) {
            Some(n) => n,
            None => 200,
        },
        None => 200,
    };
    let output = match f.value("output") {
        Some(o) => Some(o.to_owned()),
        None => None,
    };
    DiagnosticsRequest {
        config_path,
        log_lines,
        output,
        include_endpoints: f.is_on("include-endpoints"),
        include_logs: !f.is_on("no-logs"),
    }
}

/// What docker says of itself.
#[derive(Debug)]
pub struct DockerReport {
    pub version: String,
    pub server_version: String,
    pub storage_driver: String,
    pub cgroup_driver: String,
    pub warnings: Vec<String>,
    /// the containers of the daemon, or why they could not be listed
    pub containers: Result<Vec<String>, String>,
}

/// What a report is made of.
#[derive(Debug)]
pub struct Findings {
    /// the version of the daemon
    pub version: String,
    /// what docker says, or why it says nothing; none when it was not asked
    pub docker: Option<Result<DockerReport, String>>,
    pub os: String,
    pub arch: String,
    pub config_path: String,
    /// where the states of the servers are kept, and what is kept
    pub states: Option<(String, String)>,
    /// the log of the daemon, if it could be read
    pub log: Option<String>,
}

/// An address, or that there is one.
pub open spec fn endpoint(value: Seq<char>, shown: bool) -> Seq<char> {
    if shown {
        value
    } else {
        "{redacted}"@
    }
}

/// An address, or that there is one.
pub fn redact_endpoint(value: &str, include_endpoints: bool) -> (r: String)
    ensures
        r@ == endpoint(value@, include_endpoints),
{
    if include_endpoints {
        value.to_owned()
    } else {
        "{redacted}".to_owned()
    }
}

/// Some texts, each on a line of its own, set in.
pub open spec fn indented(v: Seq<Seq<char>>) -> Seq<char>
    decreases v.len(),
{
    if v.len() == 0 {
        Seq::empty()
    } else {
        indented(v.drop_last()) + "  "@ + v.last() + "\n"@
    }
}

/// The last lines of a text.
pub open spec fn tail(lines: Seq<Seq<char>>, n: usize) -> Seq<Seq<char>> {
    if lines.len() <= n {
        lines
    } else {
        lines.skip(lines.len() - n)
    }
}

/// What the report says of docker.
pub open spec fn docker_part(d: Option<Result<DockerReport, String>>) -> Seq<char> {
    match d {
        None => Seq::empty(),
        Some(Err(e)) => "  Docker: "@ + e@ + "\n"@,
        Some(Ok(r)) => "  Docker: "@ + r.version@ + "\n== Docker: Info ==\n  Server Version: "@
            + r.server_version@ + "\n  Storage Driver: "@ + r.storage_driver@
            + "\n  Cgroup Driver: "@ + r.cgroup_driver@ + "\n"@ + indented(
            text::texts(r.warnings@),
        ) + "== Docker: Containers ==\n"@ + (match r.containers {
            Err(e) => "  Couldn't list containers: "@ + e@ + "\n"@,
            Ok(v) => if v@.len() == 0 {
                "  (none)\n"@
            } else {
                indented(text::texts(v@))
            },
        }),
    }
}

/// What the report says of the configuration.
pub open spec fn config_part(c: &Config, shown: bool) -> Seq<char> {
    "  Panel Location: "@ + endpoint(c.remote@, shown) + "\n  Internal Webserver: "@ + endpoint(
        c.api.host@,
        shown,
    ) + " : "@ + numbers::decimal(c.api.port as nat) + "\n  SSL Enabled: "@ + bool_text(
        c.api.ssl.enabled,
    ) + "\n  SFTP Server: "@ + endpoint(c.system.sftp.bind_address@, shown) + " : "@
        + numbers::decimal(c.system.sftp.bind_port as nat) + "\n  SFTP Read-Only: "@ + bool_text(
        c.system.sftp.read_only,
    ) + "\n  Root Directory: "@ + c.system.root_directory@ + "\n  Logs Directory: "@
        + c.system.log_directory@ + "\n  Data Directory: "@ + c.system.data@
        + "\n  Archive Directory: "@ + c.system.archive_directory@ + "\n  Backup Directory: "@
        + c.system.backup_directory@ + "\n  Debug Mode: "@ + bool_text(c.debug) + "\n"@
}

/// What the report says of the servers.
pub open spec fn states_part(s: Option<(String, String)>) -> Seq<char> {
    match s {
        Some((path, states)) => "== Server States ("@ + path@ + ") ==\n  "@ + states@ + "\n"@,
        None => Seq::empty(),
    }
}

/// What the report says of the log.
pub open spec fn log_part(log: Option<String>, lines: usize, shown: bool) -> Seq<char> {
    "== Latest Roost Logs ==\n"@ + (if !shown {
        "  Logs redacted.\n"@
    } else {
        match log {
            Some(l) => indented(tail(text::lines(l@), lines)),
            None => "  No logs found or an error occurred.\n"@,
        }
    })
}

/// The whole report.
pub open spec fn report(f: &Findings, c: Option<&Config>, lines: usize, endpoints: bool, logs: bool) -> Seq<
    char,
> {
    "Pterodactyl Roost - Diagnostics Report\n== Versions ==\n  Roost: v"@ + f.version@ + "\n"@
        + docker_part(f.docker) + "  OS: "@ + f.os@ + " "@ + f.arch@ + "\n== Configuration ("@
        + f.config_path@ + ") ==\n"@ + (match c {
        Some(c) => config_part(c, endpoints) + states_part(f.states) + log_part(
            f.log,
            lines,
            logs,
        ),
        None => "  (config could not be loaded; tokens are never included in this report)\n"@,
    })
}

fn add_indented(out: &mut String, v: &Vec<String>)
    ensures
        final(out)@ == old(out)@ + indented(text::texts(v@)),
{
    let ghost all = text::texts(v@);
    let ghost start = out@;
    let mut i: usize = 0;
    assert(start + indented(all.take(0)) =~= start);
    while i < v.len()
        invariant
            i <= v.len(),
            all == text::texts(v@),
            out@ == start + indented(all.take(i as int)),
        decreases v.len() - i,
    {
        assert(all.take(i + 1).drop_last() =~= all.take(i as int));
        assert(all.take(i + 1).last() == v@[i as int]@);
        out.append("  ");
        out.append(v[i].as_str());
        out.append("\n");
        assert(out@ =~= start + indented(all.take(i + 1)));
        i = i + 1;
    }
    assert(all.take(i as int) =~= all);
}

fn last_lines(content: &str, n: usize) -> (r: Vec<String>)
    ensures
        text::texts(r@) == tail(text::lines(content@), n),
{
    let lines = text::lines_of(content);
    let ghost all = text::lines(content@);
    let ghost seen = lines@.map_values(|v: Vec<char>| v@);
    let start: usize = if lines.len() <= n {
        0
    } else {
        lines.len() - n
    };
    let ghost want = tail(all, n);
    assert(all == seen && seen.len() == lines@.len());
    assert(want =~= all.skip(start as int));
    let mut out: Vec<String> = Vec::new();
    let mut i: usize = start;
    while i < lines.len()
        invariant
            start <= i <= lines.len(),
            seen == lines@.map_values(|v: Vec<char>| v@),
            want == seen.skip(start as int),
            text::texts(out@) =~= want.take(i - start),
        decreases lines.len() - i,
    {
        let ghost before = out@;
        let line = text::string_of(lines[i].as_slice());
        let ghost shown = line@;
        assert(seen[i as int] == lines@[i as int]@);
        out.push(line);
        assert(text::texts(out@) =~= text::texts(before).push(shown));
        i = i + 1;
    }
    assert(text::texts(out@) =~= want);
    out
}

fn docker_text(d: &Option<Result<DockerReport, String>>) -> (r: String)
    ensures
        r@ == docker_part(*d),
{
    match d {
        None => String::new(),
        Some(Err(e)) => text::cat3("  Docker: ", e.as_str(), "\n"),
        Some(Ok(p)) => {
            let mut s = text::cat3(
                "  Docker: ",
                p.version.as_str(),
                "\n== Docker: Info ==\n  Server Version: ",
            );
            s.append(p.server_version.as_str());
            s.append("\n  Storage Driver: ");
            s.append(p.storage_driver.as_str());
            s.append("\n  Cgroup Driver: ");
            s.append(p.cgroup_driver.as_str());
            s.append("\n");
            add_indented(&mut s, &p.warnings);
            s.append("== Docker: Containers ==\n");
            match &p.containers {
                Err(e) => {
                    let line = text::cat3("  Couldn't list containers: ", e.as_str(), "\n");
                    s.append(line.as_str());
                },
                Ok(v) => {
                    if v.len() == 0 {
                        s.append("  (none)\n");
                    } else {
                        add_indented(&mut s, v);
                    }
                },
            }
            s
        },
    }
}

fn config_text(c: &Config, shown: bool) -> (r: String)
    ensures
        r@ == config_part(c, shown),
{
    let mut s = text::cat3(
        "  Panel Location: ",
        redact_endpoint(c.remote.as_str(), shown).as_str(),
        "\n  Internal Webserver: ",
    );
    s.append(redact_endpoint(c.api.host.as_str(), shown).as_str());
    s.append(" : ");
    s.append(numbers::decimal_u64(c.api.port as u64).as_str());
    s.append("\n  SSL Enabled: ");
    s.append(bool_string(c.api.ssl.enabled).as_str());
    s.append("\n  SFTP Server: ");
    s.append(redact_endpoint(c.system.sftp.bind_address.as_str(), shown).as_str());
    s.append(" : ");
    s.append(numbers::decimal_u64(c.system.sftp.bind_port as u64).as_str());
    s.append("\n  SFTP Read-Only: ");
    s.append(bool_string(c.system.sftp.read_only).as_str());
    s.append("\n  Root Directory: ");
    s.append(c.system.root_directory.as_str());
    s.append("\n  Logs Directory: ");
    s.append(c.system.log_directory.as_str());
    s.append("\n  Data Directory: ");
    s.append(c.system.data.as_str());
    s.append("\n  Archive Directory: ");
    s.append(c.system.archive_directory.as_str());
    s.append("\n  Backup Directory: ");
    s.append(c.system.backup_directory.as_str());
    s.append("\n  Debug Mode: ");
    s.append(bool_string(c.debug).as_str());
    s.append("\n");
    s
}

/// The whole report: versions, docker, the configuration without its tokens, the
/// states of the servers, and the end of the log.
pub fn collect_diagnostics(
    f: &Findings,
    config: Option<&Config>,
    log_lines: usize,
    include_endpoints: bool,
    include_logs: bool,
) -> (r: String)
    ensures
        r@ == report(f, config, log_lines, include_endpoints, include_logs),
{
    let mut s = text::cat3(
        "Pterodactyl Roost - Diagnostics Report\n== Versions ==\n  Roost: v",
        f.version.as_str(),
        "\n",
    );
    s.append(docker_text(&f.docker).as_str());
    s.append("  OS: ");
    s.append(f.os.as_str());
    s.append(" ");
    s.append(f.arch.as_str());
    s.append("\n== Configuration (");
    s.append(f.config_path.as_str());
    s.append(") ==\n");
    match config {
        None => {
            s.append(
                "  (config could not be loaded; tokens are never included in this report)\n",
            );
        },
        Some(c) => {
            let mut part = config_text(c, include_endpoints);
            if let Some((path, states)) = &f.states {
                let mut t = text::cat3("== Server States (", path.as_str(), ") ==\n  ");
                t.append(states.as_str());
                t.append("\n");
                part.append(t.as_str());
            }
            assert(part@ =~= config_part(c, include_endpoints) + states_part(f.states));
            let mut log = "== Latest Roost Logs ==\n".to_owned();
            if !include_logs {
                log.append("  Logs redacted.\n");
            } else {
                match &f.log {
                    Some(l) => {
                        let lines = last_lines(l.as_str(), log_lines);
                        add_indented(&mut log, &lines);
                    },
                    None => {
                        log.append("  No logs found or an error occurred.\n");
                    },
                }
            }
            assert(log@ =~= log_part(f.log, log_lines, include_logs));
            part.append(log.as_str());
            s.append(part.as_str());
        },
    }
    s
}

/// A report says nothing of the tokens: it is the same whatever they are.
pub proof fn law_reports_hide_tokens(
    f: &Findings,
    a: &Config,
    b: &Config,
    lines: usize,
    endpoints: bool,
    logs: bool,
)
    requires
        *a == (Config { token: a.token, token_id: a.token_id, ..*b }),
    ensures
        report(f, Some(a), lines, endpoints, logs) == report(f, Some(b), lines, endpoints, logs),
{
}

/// Without leave to show them, a report says nothing of the addresses either.
pub proof fn law_reports_hide_endpoints(
    f: &Findings,
    a: &Config,
    b: &Config,
    lines: usize,
    logs: bool,
)
    requires
        *a == (Config {
            token: a.token,
            token_id: a.token_id,
            remote: a.remote,
            api: crate::config::ApiConfig { host: a.api.host, ..b.api },
            system: crate::config::SystemConfig {
                sftp: crate::config::SftpConfig {
                    bind_address: a.system.sftp.bind_address,
                    ..b.system.sftp
                },
                ..b.system
            },
            ..*b
        }),
    ensures
        report(f, Some(a), lines, false, logs) == report(f, Some(b), lines, false, logs),
{
}

/// The last lines are those behind all but so many.
pub proof fn law_last_lines(a: Seq<Seq<char>>, b: Seq<Seq<char>>, n: usize)
    requires
        b.len() == n,
    ensures
        tail(a + b, n) == b,
        a.len() <= n ==> tail(a, n) == a,
{
    if a.len() == 0 {
        assert(a + b =~= b);
    } else {
        assert((a + b).skip((a + b).len() - n) =~= b);
    }
}

/// Addresses are shown with leave, and else only that there are some; logs likewise.
pub proof fn law_what_is_shown(value: Seq<char>, log: String, lines: usize)
    ensures
        endpoint(value, true) == value,
        endpoint(value, false) == "{redacted}"@,
        log_part(Some(log), lines, false) == "== Latest Roost Logs ==\n"@ + "  Logs redacted.\n"@,
        log_part(None, lines, false) == log_part(Some(log), lines, false),
        log_part(Some(log), lines, true) == "== Latest Roost Logs ==\n"@ + indented(
            tail(text::lines(log@), lines),
        ),
{
}

/// Lines are set in, each on a line of its own, in order.
pub proof fn law_lines_are_set_in(a: Seq<Seq<char>>, b: Seq<Seq<char>>, s: Seq<char>)
    ensures
        indented(a + b) == indented(a) + indented(b),
        indented(seq![s]) == "  "@ + s + "\n"@,
        indented(Seq::empty()).len() == 0,
    decreases b.len(),
{
    assert(seq![s].drop_last() =~= Seq::<Seq<char>>::empty());
    assert(indented(seq![s].drop_last()) =~= Seq::<char>::empty());
    assert(indented(seq![s]) =~= "  "@ + s + "\n"@);
    if b.len() == 0 {
        assert(a + b =~= a);
        assert(indented(a) + indented(b) =~= indented(a));
    } else {
        law_lines_are_set_in(a, b.drop_last(), s);
        assert((a + b).drop_last() =~= a + b.drop_last());
        assert(indented(a + b) =~= indented(a) + indented(b));
    }
}

/// What the report says of the configuration, line by line.
pub proof fn law_what_is_said_of_the_configuration(c: &Config)
    ensures
        config_part(c, true) == "  Panel Location: "@ + c.remote@ + "\n  Internal Webserver: "@
            + c.api.host@ + " : "@ + numbers::decimal(c.api.port as nat) + "\n  SSL Enabled: "@ + (
        if c.api.ssl.enabled {
            "true"@
        } else {
            "false"@
        }) + "\n  SFTP Server: "@ + c.system.sftp.bind_address@ + " : "@ + numbers::decimal(
            c.system.sftp.bind_port as nat,
        ) + "\n  SFTP Read-Only: "@ + (if c.system.sftp.read_only {
            "true"@
        } else {
            "false"@
        }) + "\n  Root Directory: "@ + c.system.root_directory@ + "\n  Logs Directory: "@
            + c.system.log_directory@ + "\n  Data Directory: "@ + c.system.data@
            + "\n  Archive Directory: "@ + c.system.archive_directory@ + "\n  Backup Directory: "@
            + c.system.backup_directory@ + "\n  Debug Mode: "@ + (if c.debug {
            "true"@
        } else {
            "false"@
        }) + "\n"@,
{
}

/// What the report says of servers and of docker, where it knows of them.
pub proof fn law_what_is_said_of_the_rest(path: String, states: String, e: String)
    ensures
        states_part(Some((path, states))) == "== Server States ("@ + path@ + ") ==\n  "@ + states@
            + "\n"@,
        states_part(None).len() == 0,
        docker_part(None).len() == 0,
        docker_part(Some(Err(e))) == "  Docker: "@ + e@ + "\n"@,
{
}

} // verus!
