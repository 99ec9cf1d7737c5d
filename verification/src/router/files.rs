//! Requests about the files of a server.
use vstd::prelude::*;
use crate::config::Config;
use crate::error::{AppError, AppResult};
use crate::net;
use crate::net::Ip;
use crate::router::downloader::MAX_PER_SERVER;
use crate::router::downloads::{is_plain_name, plain_name};
use crate::router::restore::{parse_url, url_parts};
use crate::server::server::{within, Server};
use crate::text;

verus! {

/// The kind of a file that is shown, by the extension of its name in lower case.
pub open spec fn shown_as(ext: Seq<char>) -> Seq<char> {
    if ext == "txt"@ || ext == "log"@ || ext == "properties"@ {
        "text/plain"@
    } else if ext == "json"@ {
        "application/json"@
    } else if ext == "yml"@ || ext == "yaml"@ {
        "text/yaml"@
    } else if ext == "xml"@ {
        "application/xml"@
    } else if ext == "html"@ {
        "text/html"@
    } else if ext == "sh"@ {
        "text/x-sh"@
    } else if ext == "md"@ {
        "text/markdown"@
    } else if ext == "jar"@ {
        "application/java-archive"@
    } else if ext == "zip"@ {
        "application/zip"@
    } else if ext == "gz"@ {
        "application/gzip"@
    } else if ext == "tar"@ {
        "application/x-tar"@
    } else if ext == "png"@ {
        "image/png"@
    } else if ext == "jpg"@ || ext == "jpeg"@ {
        "image/jpeg"@
    } else if ext == "gif"@ {
        "image/gif"@
    } else if ext == "svg"@ {
        "image/svg+xml"@
    } else if ext == "pdf"@ {
        "application/pdf"@
    } else {
        "application/octet-stream"@
    }
}

/// The kind of a file that is shown, by what stands behind the last dot of its
/// name.
pub fn mime_for_name(name: &str) -> (r: &'static str)
    ensures
        r@ == shown_as(text::lower(text::split_on(name@, '.').last())),
{
    let mut parts = text::split_str(name, '.');
    let ghost all = text::split_on(name@, '.');
    proof {
        text::lemma_split_nonempty(name@, '.');
        assert(all == text::texts(parts@));
        assert(all.len() == parts@.len());
        assert(all[all.len() - 1] == parts@[parts@.len() - 1]@);
    }
    let n: usize = parts.len();
    let last = parts.remove(n - 1);
    let lowered = text::lowered(last.as_str());
    let e = lowered.as_str();
    if text::same(e, "txt") || text::same(e, "log") || text::same(e, "properties") {
        "text/plain"
    } else if text::same(e, "json") {
        "application/json"
    } else if text::same(e, "yml") || text::same(e, "yaml") {
        "text/yaml"
    } else if text::same(e, "xml") {
        "application/xml"
    } else if text::same(e, "html") {
        "text/html"
    } else if text::same(e, "sh") {
        "text/x-sh"
    } else if text::same(e, "md") {
        "text/markdown"
    } else if text::same(e, "jar") {
        "application/java-archive"
    } else if text::same(e, "zip") {
        "application/zip"
    } else if text::same(e, "gz") {
        "application/gzip"
    } else if text::same(e, "tar") {
        "application/x-tar"
    } else if text::same(e, "png") {
        "image/png"
    } else if text::same(e, "jpg") || text::same(e, "jpeg") {
        "image/jpeg"
    } else if text::same(e, "gif") {
        "image/gif"
    } else if text::same(e, "svg") {
        "image/svg+xml"
    } else if text::same(e, "pdf") {
        "application/pdf"
    } else {
        "application/octet-stream"
    }
}

// ---------------------------------------------------------------------------
// Modes
// ---------------------------------------------------------------------------
pub open spec fn is_octal_digit(c: char) -> bool {
    '0' <= c <= '7'
}

/// The value of some octal digits.
pub open spec fn octal_value(s: Seq<char>) -> int
    decreases s.len(),
{
    if s.len() == 0 {
        0
    } else {
        octal_value(s.drop_last()) * 8 + (s.last() as int - '0' as int)
    }
}

pub open spec fn all_octal(s: Seq<char>) -> bool {
    forall|i: int| 0 <= i < s.len() ==> is_octal_digit(#[trigger] s[i])
}

/// A number in octal digits, of 32 bits; a plus sign may stand before it
/// (`u32::from_str_radix` with radix 8).
pub open spec fn parse_octal(s: Seq<char>) -> Option<int> {
    let digits = if s.len() > 0 && s[0] == '+' {
        s.skip(1)
    } else {
        s
    };
    if digits.len() > 0 && all_octal(digits) && octal_value(digits) <= u32::MAX {
        Some(octal_value(digits))
    } else {
        None
    }
}

/// The mode that is asked for: without the zeros before it, unless it is only one
/// character.
pub open spec fn mode_of(mode: Seq<char>) -> Option<int> {
    parse_octal(
        if mode.len() > 1 {
            text::trim_start_of(mode, '0')
        } else {
            mode
        },
    )
}

proof fn lemma_octal_grows(s: Seq<char>, i: int)
    requires
        0 <= i <= s.len(),
        all_octal(s),
    ensures
        0 <= octal_value(s.take(i)) <= octal_value(s),
    decreases s.len(),
{
    if i < s.len() {
        let t = s.drop_last();
        assert forall|k: int| 0 <= k < t.len() implies is_octal_digit(#[trigger] t[k]) by {
            assert(t[k] == s[k]);
        }
        lemma_octal_grows(t, i);
        assert(t.take(i) =~= s.take(i));
        assert(is_octal_digit(s[s.len() - 1]));
    } else {
        assert(s.take(i) =~= s);
        lemma_octal_positive(s);
    }
}

proof fn lemma_octal_positive(s: Seq<char>)
    requires
        all_octal(s),
    ensures
        octal_value(s) >= 0,
    decreases s.len(),
{
    if s.len() > 0 {
        let t = s.drop_last();
        assert forall|k: int| 0 <= k < t.len() implies is_octal_digit(#[trigger] t[k]) by {
            assert(t[k] == s[k]);
        }
        lemma_octal_positive(t);
        assert(is_octal_digit(s[s.len() - 1]));
    }
}

/// Reads the digits behind position `from`.
fn read_digits(s: &Vec<char>, from: usize) -> (r: Option<u32>)
    requires
        from <= s@.len(),
    ensures
        ({
            let d = s@.skip(from as int);
            match r {
                Some(n) => d.len() > 0 && all_octal(d) && octal_value(d) == n,
                None => !(d.len() > 0 && all_octal(d) && octal_value(d) <= u32::MAX),
            }
        }),
{
    let ghost d = s@.skip(from as int);
    if from == s.len() {
        return None;
    }
    let mut n: u64 = 0;
    let mut i: usize = from;
    assert(d.take(0) =~= Seq::empty());
    while i < s.len()
        invariant
            from <= i <= s.len(),
            d == s@.skip(from as int),
            n == octal_value(d.take(i - from)),
            n <= u32::MAX,
            forall|k: int| 0 <= k < i - from ==> is_octal_digit(#[trigger] d[k]),
        decreases s.len() - i,
    {
        let c = s[i];
        assert(d[i - from] == c);
        if !('0' <= c && c <= '7') {
            return None;
        }
        proof {
            assert(d.take(i - from + 1).drop_last() =~= d.take(i - from));
        }
        let digit: u64 = (text::code_point(c) - 48) as u64;
        n = n * 8 + digit;
        if n > u32::MAX as u64 {
            proof {
                if all_octal(d) {
                    lemma_octal_grows(d, i - from + 1);
                }
            }
            return None;
        }
        i = i + 1;
    }
    assert(d.take(i - from) =~= d);
    Some(n as u32)
}

/// Reads a mode that is asked for.
pub fn parse_mode(mode: &str) -> (r: AppResult<u32>)
    ensures
        match r {
            Ok(m) => mode_of(mode@) == Some(m as int),
            Err(e) => mode_of(mode@) is None && crate::error::is_bad_request(
                e,
                "invalid mode: "@ + mode@,
            ),
        },
{
    let all = text::chars_of(mode);
    let digits = if all.len() > 1 {
        text::chars_of(text::trimmed_start_of(mode, '0').as_str())
    } else {
        all
    };
    assert(digits@.skip(0) =~= digits@);
    let from: usize = if digits.len() > 0 && digits[0] == '+' {
        1
    } else {
        0
    };
    match read_digits(&digits, from) {
        Some(m) => Ok(m),
        None => Err(AppError::BadRequest(text::cat("invalid mode: ", mode))),
    }
}

// ---------------------------------------------------------------------------
// Remote downloads
// ---------------------------------------------------------------------------
/// Where a download is put: its directory, and its name.
pub fn pull_target(root: Option<String>, directory: Option<String>, name: Option<String>) -> (r: (
    String,
    String,
))
    ensures
        r.0@ == (match root {
            Some(d) => d@,
            None => match directory {
                Some(d) => d@,
                None => ""@,
            },
        }),
        r.1@ == (match name {
            Some(n) => n@,
            None => "download"@,
        }),
{
    let d = match root {
        Some(d) => d,
        None => match directory {
            Some(d) => d,
            None => "".to_owned(),
        },
    };
    let n = match name {
        Some(n) => n,
        None => "download".to_owned(),
    };
    (d, n)
}

/// Refuses a download: where downloads are off, to a path in place of a name,
/// without room, and one too many. `used` is what the files of the server take,
/// `running` how many downloads it has.
pub fn post_pull(config: &Config, server: &Server, name: &str, used: u64, running: usize) -> (r:
    AppResult<()>)
    ensures
        ({
            let off = config.api.disable_remote_download;
            let room = within(server.config.build.disk_space, used);
            match r {
                Ok(_) => !off && plain_name(name@) && room && running < MAX_PER_SERVER,
                Err(e) => if off {
                    crate::error::is_forbidden(
                        e,
                        "remote downloads have been disabled by the daemon administrator"@,
                    )
                } else if !plain_name(name@) {
                    crate::error::is_bad_request(e, "invalid file name"@)
                } else if !room {
                    e matches AppError::Internal(m) && m@
                        == "not enough disk space to download this file"@
                } else {
                    running >= MAX_PER_SERVER && crate::error::is_bad_request(
                        e,
                        "This server has reached its limit of 3 simultaneous remote file downloads at once. Please wait for one to complete before trying again."@,
                    )
                },
            }
        }),
{
    if config.api.disable_remote_download {
        return Err(
            AppError::Forbidden(
                "remote downloads have been disabled by the daemon administrator".to_owned(),
            ),
        );
    }
    if !is_plain_name(name) {
        return Err(AppError::BadRequest("invalid file name".to_owned()));
    }
    if !server.has_space_available(used) {
        return Err(
            AppError::Internal("not enough disk space to download this file".to_owned()),
        );
    }
    if running >= MAX_PER_SERVER {
        return Err(
            AppError::BadRequest(
                "This server has reached its limit of 3 simultaneous remote file downloads at once. Please wait for one to complete before trying again.".to_owned(),
            ),
        );
    }
    Ok(())
}

/// What is wrong with a URL, by its parts.
pub open spec fn url_fault(parts: Option<(Seq<char>, Seq<char>, Option<u16>)>) -> Option<Seq<char>> {
    match parts {
        None => Some("invalid URL"@),
        Some((scheme, host, _)) => if scheme != "http"@ && scheme != "https"@ {
            Some("unsupported URL scheme: "@ + scheme)
        } else if host.len() == 0 {
            Some("URL has no host"@)
        } else {
            None
        },
    }
}

/// Refuses the parts of a URL that cannot be downloaded from. Returns the host
/// and the port whose addresses are looked up.
pub fn check_url_parts(parts: Option<(String, String, Option<u16>)>) -> (r: AppResult<(String, u16)>)
    ensures
        ({
            let seen = match parts {
                Some((s, h, p)) => Some((s@, h@, p)),
                None => None,
            };
            match r {
                Ok((host, port)) => url_fault(seen) is None && (seen matches Some(p) && host@ == p.1
                    && port == (match p.2 {
                    Some(n) => n,
                    None => 80u16,
                })),
                Err(e) => url_fault(seen) matches Some(m) && crate::error::is_bad_request(e, m),
            }
        }),
{
    match parts {
        None => Err(AppError::BadRequest("invalid URL".to_owned())),
        Some((scheme, host, port)) => {
            if !text::same(scheme.as_str(), "http") && !text::same(scheme.as_str(), "https") {
                return Err(
                    AppError::BadRequest(text::cat("unsupported URL scheme: ", scheme.as_str())),
                );
            }
            if host.as_str().is_empty() {
                return Err(AppError::BadRequest("URL has no host".to_owned()));
            }
            let p: u16 = match port {
                Some(n) => n,
                None => 80,
            };
            Ok((host, p))
        },
    }
}

/// Refuses a URL that cannot be downloaded from. Returns the host and the port
/// whose addresses are looked up.
pub fn check_url(url: &str) -> (r: AppResult<(String, u16)>)
    ensures
        match r {
            Ok((host, port)) => url_fault(url_parts(url@)) is None && (url_parts(url@) matches Some(
                p,
            ) && host@ == p.1 && port == (match p.2 {
                Some(n) => n,
                None => 80u16,
            })),
            Err(e) => url_fault(url_parts(url@)) matches Some(m) && crate::error::is_bad_request(
                e,
                m,
            ),
        },
{
    check_url_parts(parse_url(url))
}

/// Whether some address is private.
pub open spec fn any_private(ips: Seq<Ip>) -> bool {
    exists|i: int| 0 <= i < ips.len() && net::private(#[trigger] ips[i])
}

/// Refuses a host that could not be looked up, or that has a private address.
pub fn validate_download_url(ips: Option<&Vec<Ip>>) -> (r: AppResult<()>)
    ensures
        match r {
            Ok(_) => ips matches Some(v) && !any_private(v@),
            Err(e) => match ips {
                None => crate::error::is_bad_request(e, "cannot resolve host"@),
                Some(v) => any_private(v@) && crate::error::is_forbidden(
                    e,
                    "the requested URL points to a private or local network address"@,
                ),
            },
        },
{
    let v = match ips {
        Some(v) => v,
        None => {
            return Err(AppError::BadRequest("cannot resolve host".to_owned()));
        },
    };
    let mut i: usize = 0;
    while i < v.len()
        invariant
            i <= v.len(),
            ips == Some(v),
            forall|j: int| 0 <= j < i ==> !net::private(#[trigger] v@[j]),
        decreases v.len() - i,
    {
        if net::is_private_ip(v[i]) {
            assert(net::private(v@[i as int]));
            return Err(
                AppError::Forbidden(
                    "the requested URL points to a private or local network address".to_owned(),
                ),
            );
        }
        i = i + 1;
    }
    Ok(())
}

/// Nothing is downloaded from a host that has a private address among others.
pub proof fn law_private_hosts_are_refused(ips: Seq<Ip>, i: int)
    requires
        0 <= i < ips.len(),
        net::private(ips[i]),
    ensures
        any_private(ips),
{
}

/// Refuses the answer of a remote host that is not a success.
pub fn check_pull_status(status: u16, status_text: &str) -> (r: AppResult<()>)
    ensures
        match r {
            Ok(_) => 200 <= status < 300,
            Err(e) => !(200 <= status < 300) && crate::error::is_bad_request(
                e,
                "remote returned "@ + status_text@,
            ),
        },
{
    if 200 <= status && status < 300 {
        Ok(())
    } else {
        Err(AppError::BadRequest(text::cat("remote returned ", status_text)))
    }
}

/// Some kinds of files.
pub proof fn law_kinds_of_files()
    ensures
        shown_as("txt"@) == "text/plain"@ && shown_as("log"@) == "text/plain"@ && shown_as(
            "properties"@,
        ) == "text/plain"@,
        shown_as("json"@) == "application/json"@,
        shown_as("yml"@) == "text/yaml"@ && shown_as("yaml"@) == "text/yaml"@,
        shown_as("xml"@) == "application/xml"@,
        shown_as("html"@) == "text/html"@,
        shown_as("sh"@) == "text/x-sh"@,
        shown_as("md"@) == "text/markdown"@,
        shown_as("jar"@) == "application/java-archive"@,
        shown_as("zip"@) == "application/zip"@,
        shown_as("gz"@) == "application/gzip"@,
        shown_as("tar"@) == "application/x-tar"@,
        shown_as("png"@) == "image/png"@,
        shown_as("jpg"@) == "image/jpeg"@ && shown_as("jpeg"@) == "image/jpeg"@,
        shown_as("gif"@) == "image/gif"@,
        shown_as("svg"@) == "image/svg+xml"@,
        shown_as("pdf"@) == "application/pdf"@,
        shown_as(""@) == "application/octet-stream"@,
{
    lemma_extensions_differ();
}

proof fn lemma_extensions_differ()
    ensures
        "json"@ =~= seq!['j', 's', 'o', 'n'],
        "txt"@ =~= seq!['t', 'x', 't'],
        "log"@ =~= seq!['l', 'o', 'g'],
        "properties"@.len() == 10,
        "yml"@ =~= seq!['y', 'm', 'l'],
        "yaml"@ =~= seq!['y', 'a', 'm', 'l'],
        "xml"@ =~= seq!['x', 'm', 'l'],
        "html"@ =~= seq!['h', 't', 'm', 'l'],
        "sh"@ =~= seq!['s', 'h'],
        "md"@ =~= seq!['m', 'd'],
        "jar"@ =~= seq!['j', 'a', 'r'],
        "zip"@ =~= seq!['z', 'i', 'p'],
        "gz"@ =~= seq!['g', 'z'],
        "tar"@ =~= seq!['t', 'a', 'r'],
        "png"@ =~= seq!['p', 'n', 'g'],
        "jpg"@ =~= seq!['j', 'p', 'g'],
        "jpeg"@ =~= seq!['j', 'p', 'e', 'g'],
        "gif"@ =~= seq!['g', 'i', 'f'],
        "svg"@ =~= seq!['s', 'v', 'g'],
        "pdf"@ =~= seq!['p', 'd', 'f'],
        ""@.len() == 0,
{
    reveal_strlit("json");
    reveal_strlit("txt");
    reveal_strlit("log");
    reveal_strlit("properties");
    reveal_strlit("yml");
    reveal_strlit("yaml");
    reveal_strlit("xml");
    reveal_strlit("html");
    reveal_strlit("sh");
    reveal_strlit("md");
    reveal_strlit("jar");
    reveal_strlit("zip");
    reveal_strlit("gz");
    reveal_strlit("tar");
    reveal_strlit("png");
    reveal_strlit("jpg");
    reveal_strlit("jpeg");
    reveal_strlit("gif");
    reveal_strlit("svg");
    reveal_strlit("pdf");
    reveal_strlit("");
}

/// A mode is read as octal digits; what is none is refused.
pub proof fn law_modes(a: char, b: char, c: char, mode: Seq<char>, i: int)
    requires
        '1' <= a <= '7' && '0' <= b <= '7' && '0' <= c <= '7',
    ensures
        mode_of(seq![a, b, c]) == Some(
            (a as int - 48) * 64 + (b as int - 48) * 8 + (c as int - 48),
        ),
        mode_of(seq!['0', a, b, c]) == mode_of(seq![a, b, c]),
        mode.len() == 0 ==> mode_of(mode) is None,
        0 <= i < mode.len() && !('0' <= mode[i] <= '7') && mode[i] != '+' ==> mode_of(mode) is None,
{
    let s = seq![a, b, c];
    assert(s.drop_last() =~= seq![a, b]);
    assert(seq![a, b].drop_last() =~= seq![a]);
    assert(seq![a].drop_last() =~= Seq::empty());
    assert(octal_value(Seq::empty()) == 0);
    assert(octal_value(seq![a]) == a as int - 48);
    assert(octal_value(seq![a, b]) == (a as int - 48) * 8 + (b as int - 48));
    assert(octal_value(s) == ((a as int - 48) * 8 + (b as int - 48)) * 8 + (c as int - 48));
    assert(text::trim_start_of(s, '0') == s);
    let t = seq!['0', a, b, c];
    assert(t.skip(1) =~= s);
    assert(text::trim_start_of(t, '0') == text::trim_start_of(s, '0'));
    if 0 <= i < mode.len() && !('0' <= mode[i] <= '7') && mode[i] != '+' {
        let u = if mode.len() > 1 {
            text::trim_start_of(mode, '0')
        } else {
            mode
        };
        lemma_trimmed_keeps(mode, i);
        let k = choose|k: int| 0 <= k < u.len() && u[k] == mode[i];
        assert(u[k] == mode[i]);
        if u[0] == '+' {
            assert(u.skip(1)[k - 1] == mode[i]);
        }
    }
}

proof fn lemma_trimmed_keeps(mode: Seq<char>, i: int)
    requires
        0 <= i < mode.len(),
        mode[i] != '0',
    ensures
        exists|k: int|
            0 <= k < text::trim_start_of(mode, '0').len() && #[trigger] text::trim_start_of(
                mode,
                '0',
            )[k] == mode[i],
    decreases mode.len(),
{
    let t = text::trim_start_of(mode, '0');
    if mode[0] == '0' {
        let rest = mode.skip(1);
        assert(rest[i - 1] == mode[i]);
        lemma_trimmed_keeps(rest, i - 1);
        let k = choose|k: int|
            0 <= k < text::trim_start_of(rest, '0').len() && #[trigger] text::trim_start_of(
                rest,
                '0',
            )[k] == rest[i - 1];
        assert(t[k] == mode[i]);
    } else {
        assert(t[i] == mode[i]);
    }
}

/// A URL is good if it has a host and is for HTTP or HTTPS.
pub proof fn law_good_urls(scheme: Seq<char>, host: Seq<char>, port: Option<u16>)
    ensures
        url_fault(None) is Some,
        host.len() > 0 ==> url_fault(Some(("http"@, host, port))) is None && url_fault(
            Some(("https"@, host, port)),
        ) is None,
        host.len() == 0 ==> url_fault(Some((scheme, host, port))) is Some,
        scheme != "http"@ && scheme != "https"@ ==> url_fault(Some((scheme, host, port))) is Some,
{
}

/// A host is private only if one of its addresses is.
pub proof fn law_public_hosts_are_not_refused(ips: Seq<Ip>)
    requires
        forall|i: int| 0 <= i < ips.len() ==> !net::private(#[trigger] ips[i]),
    ensures
        !any_private(ips),
{
}

/// A single digit is a mode, zero as well; zeros alone are none if there are several.
pub proof fn law_short_modes(c: char)
    requires
        '0' <= c <= '7',
    ensures
        mode_of(seq![c]) == Some(c as int - 48),
        mode_of(seq!['0', '0']) is None,
{
    let s = seq![c];
    assert(s.drop_last() =~= Seq::<char>::empty());
    assert(octal_value(s.drop_last()) == 0);
    assert(octal_value(s) == c as int - 48);
    let z = seq!['0', '0'];
    let o = seq!['0'];
    assert(z.skip(1) =~= o);
    assert(o.skip(1) =~= Seq::<char>::empty());
    assert(text::trim_start_of(o.skip(1), '0') =~= Seq::<char>::empty());
    assert(text::trim_start_of(o, '0') == text::trim_start_of(o.skip(1), '0'));
    assert(text::trim_start_of(z, '0') == text::trim_start_of(z.skip(1), '0'));
}

} // verus!
