//! Network addresses: which ones are private.
use vstd::prelude::*;
use crate::numbers;
use crate::text;

verus! {

/// An address, as its octets or its segments.
#[derive(Debug, Clone, Copy, PartialEq, Eq, Structural)]
pub enum Ip {
    V4(u8, u8, u8, u8),
    V6(u16, u16, u16, u16, u16, u16, u16, u16),
}

/// Private, shared, loopback, link-local, benchmarking, unspecified and
/// broadcast addresses.
pub open spec fn private_v4(a: u8, b: u8, c: u8, d: u8) -> bool {
    ||| a == 127
    ||| a == 10
    ||| (a == 172 && 16 <= b <= 31)
    ||| (a == 192 && b == 168)
    ||| (a == 169 && b == 254)
    ||| (a == 0 && b == 0 && c == 0 && d == 0)
    ||| (a == 255 && b == 255 && c == 255 && d == 255)
    ||| (a == 100 && 64 <= b <= 127)
    ||| (a == 198 && 18 <= b <= 19)
}

/// The IPv4 address inside an IPv4-mapped one.
pub open spec fn mapped_v4(ip: Ip) -> Option<(u8, u8, u8, u8)> {
    match ip {
        Ip::V6(0, 0, 0, 0, 0, 0xffff, g, h) => Some(
            ((g / 256) as u8, (g % 256) as u8, (h / 256) as u8, (h % 256) as u8),
        ),
        _ => None,
    }
}

/// Whether an address is private: an IPv4-mapped one counts as what it maps,
/// other IPv6 ones are private when they are loopback, unspecified, unique
/// local or link-local.
pub open spec fn private(ip: Ip) -> bool {
    match ip {
        Ip::V4(a, b, c, d) => private_v4(a, b, c, d),
        Ip::V6(s, t, u, v, w, x, y, z) => match mapped_v4(ip) {
            Some((a, b, c, d)) => private_v4(a, b, c, d),
            None => {
                ||| (s == 0 && t == 0 && u == 0 && v == 0 && w == 0 && x == 0 && y == 0 && z <= 1)
                ||| 0xfc00 <= s <= 0xfdff
                ||| 0xfe80 <= s <= 0xfebf
            },
        },
    }
}

pub fn is_private_ipv4(a: u8, b: u8, c: u8, d: u8) -> (r: bool)
    ensures
        r == private_v4(a, b, c, d),
{
    a == 127 || a == 10 || (a == 172 && 16 <= b && b <= 31) || (a == 192 && b == 168) || (a == 169 && b
        == 254) || (a == 0 && b == 0 && c == 0 && d == 0) || (a == 255 && b == 255 && c == 255 && d
        == 255) || (a == 100 && 64 <= b && b <= 127) || (a == 198 && 18 <= b && b <= 19)
}

/// The IPv4 address inside an IPv4-mapped one.
pub fn to_ipv4_mapped(ip: Ip) -> (r: Option<(u8, u8, u8, u8)>)
    ensures
        r == mapped_v4(ip),
{
    match ip {
        Ip::V6(0, 0, 0, 0, 0, 0xffff, g, h) => Some(
            ((g / 256) as u8, (g % 256) as u8, (h / 256) as u8, (h % 256) as u8),
        ),
        _ => None,
    }
}

/// Whether an address is private.
pub fn is_private_ip(ip: Ip) -> (r: bool)
    ensures
        r == private(ip),
{
    match ip {
        Ip::V4(a, b, c, d) => is_private_ipv4(a, b, c, d),
        Ip::V6(s, t, u, v, w, x, y, z) => match to_ipv4_mapped(ip) {
            Some((a, b, c, d)) => is_private_ipv4(a, b, c, d),
            None => (s == 0 && t == 0 && u == 0 && v == 0 && w == 0 && x == 0 && y == 0 && z <= 1)
                || (0xfc00 <= s && s <= 0xfdff) || (0xfe80 <= s && s <= 0xfebf),
        },
    }
}

// ---------------------------------------------------------------------------
// Origins
// ---------------------------------------------------------------------------
/// What precedes the first occurrence of `p`, or all of `s`.
pub open spec fn until(s: Seq<char>, p: Seq<char>) -> Seq<char> {
    let at = text::find(s, p);
    if at < 0 {
        s
    } else {
        s.take(at)
    }
}

/// How often `c` occurs in `s`.
pub open spec fn count(s: Seq<char>, c: char) -> nat
    decreases s.len(),
{
    if s.len() == 0 {
        0
    } else {
        count(s.drop_last(), c) + (if s.last() == c {
            1nat
        } else {
            0
        })
    }
}

/// A host without its port: inside brackets, or before a single colon.
pub open spec fn without_port(host: Seq<char>) -> Seq<char> {
    if host.len() > 0 && host[0] == '[' {
        let rest = host.skip(1);
        rest.take(text::first(rest, ']'))
    } else if count(host, ':') == 1 {
        host.take(text::first(host, ':'))
    } else {
        host
    }
}

/// The host of an origin: between `://` and the next slash, without its port.
pub open spec fn host_of(origin: Seq<char>) -> Option<Seq<char>> {
    let sep = "://"@;
    let at = text::find(origin, sep);
    if at < 0 {
        None
    } else {
        let host = until(origin.skip(at + sep.len()), sep);
        Some(without_port(host.take(text::first(host, '/'))))
    }
}

/// Whether a host is a name of this machine.
pub open spec fn is_local_name(host: Seq<char>) -> bool {
    host == "localhost"@ || ".localhost"@.is_suffix_of(host)
}

/// Whether a request comes from a private network. `ip` is the address that its
/// host spells, if it is one.
pub open spec fn private_origin(origin: Seq<char>, ip: Option<Ip>) -> bool {
    match host_of(origin) {
        Some(host) => is_local_name(host) || (ip matches Some(a) && private(a)),
        None => false,
    }
}

/// What precedes the first occurrence of `p`, or all of `s`.
fn take_until(s: &Vec<char>, p: &str) -> (r: Vec<char>)
    ensures
        r@ == until(s@, p@),
{
    let pat = text::chars_of(p);
    match text::position_of(s.as_slice(), pat.as_slice()) {
        Some(at) => {
            let out = text::slice_of(s.as_slice(), 0, at);
            assert(out@ =~= s@.take(at as int));
            out
        },
        None => {
            let out = text::slice_of(s.as_slice(), 0, s.len());
            assert(out@ =~= s@);
            out
        },
    }
}

/// How often `c` occurs, counted up to two.
fn occurs_once(s: &[char], c: char) -> (r: bool)
    ensures
        r == (count(s@, c) == 1),
{
    let mut n: usize = 0;
    let mut i: usize = 0;
    while i < s.len()
        invariant
            i <= s.len(),
            n == count(s@.take(i as int), c),
            n <= i,
        decreases s.len() - i,
    {
        assert(s@.take(i + 1).drop_last() =~= s@.take(i as int));
        if s[i] == c {
            n = n + 1;
        }
        i = i + 1;
    }
    assert(s@.take(i as int) =~= s@);
    n == 1
}

/// A host without its port.
fn strip_port(host: &Vec<char>) -> (r: Vec<char>)
    ensures
        r@ == without_port(host@),
{
    let s = host.as_slice();
    if s.len() > 0 && s[0] == '[' {
        let end: usize = text::find_from(s, 1, ']');
        let out = text::slice_of(s, 1, end);
        assert(out@ =~= host@.skip(1).take(end - 1));
        return out;
    }
    let end: usize = if occurs_once(s, ':') {
        assert(host@.skip(0) =~= host@);
        text::find_from(s, 0, ':')
    } else {
        s.len()
    };
    let out = text::slice_of(s, 0, end);
    assert(out@ =~= host@.take(end as int));
    assert(host@.take(host@.len() as int) =~= host@);
    out
}

/// The host of an origin.
pub fn origin_host(origin: &str) -> (r: Option<String>)
    ensures
        match r {
            Some(h) => host_of(origin@) == Some(h@),
            None => host_of(origin@) is None,
        },
{
    let a = text::chars_of(origin);
    let sep = text::chars_of("://");
    match text::position_of(a.as_slice(), sep.as_slice()) {
        Some(at) => {
            let rest = text::slice_of(a.as_slice(), at + sep.len(), a.len());
            assert(rest@ =~= origin@.skip(at + "://"@.len()));
            let host = take_until(&rest, "://");
            assert(host@.skip(0) =~= host@);
            let end: usize = text::find_from(host.as_slice(), 0, '/');
            let name = text::slice_of(host.as_slice(), 0, end);
            assert(name@ =~= host@.take(end as int));
            let name = strip_port(&name);
            Some(text::string_of(name.as_slice()))
        },
        None => None,
    }
}

/// Whether a request comes from a private network (RFC 1918, loopback,
/// link-local, shared, unique local, or an IPv4-mapped one of these).
pub fn is_private_origin(origin: &str, ip: Option<Ip>) -> (r: bool)
    ensures
        r == private_origin(origin@, ip),
{
    match origin_host(origin) {
        Some(host) => {
            if text::same(host.as_str(), "localhost") || text::ends_with(
                host.as_str(),
                ".localhost",
            ) {
                return true;
            }
            match ip {
                Some(a) => is_private_ip(a),
                None => false,
            }
        },
        None => false,
    }
}

/// An IPv4 address and its IPv4-mapped form are private together.
pub proof fn law_mapped_address_is_private_with_its_own(a: u8, b: u8, c: u8, d: u8)
    ensures
        private(
            Ip::V6(
                0,
                0,
                0,
                0,
                0,
                0xffff,
                (a as int * 256 + b as int) as u16,
                (c as int * 256 + d as int) as u16,
            ),
        ) == private(Ip::V4(a, b, c, d)),
{
}

// ---------------------------------------------------------------------------
// Networks
// ---------------------------------------------------------------------------
/// A number in hexadecimal, in four digits.
pub open spec fn group(n: u16) -> Seq<char> {
    numbers::hex(n as int, 4)
}

/// An address as the network that holds nothing else.
pub open spec fn alone(ip: Ip) -> Seq<char> {
    match ip {
        Ip::V4(a, b, c, d) => numbers::decimal(a as nat) + "."@ + numbers::decimal(b as nat) + "."@
            + numbers::decimal(c as nat) + "."@ + numbers::decimal(d as nat) + "/32"@,
        Ip::V6(s, t, u, v, w, x, y, z) => group(s) + ":"@ + group(t) + ":"@ + group(u) + ":"@
            + group(v) + ":"@ + group(w) + ":"@ + group(x) + ":"@ + group(y) + ":"@ + group(z)
            + "/128"@,
    }
}

/// An address as the network that holds nothing else.
pub fn network_of(ip: Ip) -> (r: String)
    ensures
        r@ == alone(ip),
{
    match ip {
        Ip::V4(a, b, c, d) => {
            let mut r = numbers::decimal_u64(a as u64);
            r.append(".");
            r.append(numbers::decimal_u64(b as u64).as_str());
            r.append(".");
            r.append(numbers::decimal_u64(c as u64).as_str());
            r.append(".");
            r.append(numbers::decimal_u64(d as u64).as_str());
            r.append("/32");
            r
        },
        Ip::V6(s, t, u, v, w, x, y, z) => {
            let mut r = numbers::hex_u32(s as u32, 4);
            r.append(":");
            r.append(numbers::hex_u32(t as u32, 4).as_str());
            r.append(":");
            r.append(numbers::hex_u32(u as u32, 4).as_str());
            r.append(":");
            r.append(numbers::hex_u32(v as u32, 4).as_str());
            r.append(":");
            r.append(numbers::hex_u32(w as u32, 4).as_str());
            r.append(":");
            r.append(numbers::hex_u32(x as u32, 4).as_str());
            r.append(":");
            r.append(numbers::hex_u32(y as u32, 4).as_str());
            r.append(":");
            r.append(numbers::hex_u32(z as u32, 4).as_str());
            r.append("/128");
            r
        },
    }
}

/// Whether two texts are networks, the first of which holds the second
/// (`ipnet::IpNet`, parsed and compared with `contains`).
pub uninterp spec fn network_holds(outer: Seq<char>, inner: Seq<char>) -> bool;

/// Whether two texts are networks, the first of which holds the second
/// (`ipnet::IpNet`: `from_str` and `contains`). That depends on the texts alone.
#[verifier::external_body]
pub(crate) fn holds(outer: &str, inner: &str) -> (r: bool)
    ensures
        r == network_holds(outer@, inner@),
{
    match (outer.parse::<ipnet::IpNet>(), inner.parse::<ipnet::IpNet>()) {
        (Ok(a), Ok(b)) => a.contains(&b),
        _ => false,
    }
}

/// The IPv4 networks that are private, and no others.
pub proof fn law_private_networks(a: u8, b: u8, c: u8, d: u8)
    ensures
        private(Ip::V4(a, b, c, d)) <==> {
            ||| a == 10
            ||| a == 127
            ||| a == 172 && 16 <= b < 32
            ||| a == 192 && b == 168
            ||| a == 169 && b == 254
            ||| a == 100 && 64 <= b < 128
            ||| a == 198 && (b == 18 || b == 19)
            ||| a == 0 && b == 0 && c == 0 && d == 0
            ||| a == 255 && b == 255 && c == 255 && d == 255
        },
{
}

/// The IPv6 networks that are private, but for mapped addresses, and no others.
pub proof fn law_private_networks_v6(s: u16, t: u16, u: u16, v: u16, w: u16, x: u16, y: u16, z: u16)
    requires
        !(s == 0 && t == 0 && u == 0 && v == 0 && w == 0 && x == 0xffff),
    ensures
        private(Ip::V6(s, t, u, v, w, x, y, z)) <==> {
            ||| 0xfc00 <= s < 0xfe00
            ||| 0xfe80 <= s < 0xfec0
            ||| s == 0 && t == 0 && u == 0 && v == 0 && w == 0 && x == 0 && y == 0 && z < 2
        },
{
}

proof fn lemma_count_absent(s: Seq<char>, c: char)
    requires
        forall|i: int| 0 <= i < s.len() ==> #[trigger] s[i] != c,
    ensures
        count(s, c) == 0,
    decreases s.len(),
{
    if s.len() > 0 {
        let h = s.drop_last();
        assert forall|i: int| 0 <= i < h.len() implies #[trigger] h[i] != c by {
            assert(h[i] == s[i]);
        }
        assert(s.last() == s[s.len() - 1]);
        lemma_count_absent(h, c);
    }
}

proof fn lemma_count_cat(a: Seq<char>, b: Seq<char>, c: char)
    ensures
        count(a + b, c) == count(a, c) + count(b, c),
    decreases b.len(),
{
    if b.len() == 0 {
        assert(a + b =~= a);
    } else {
        assert((a + b).drop_last() =~= a + b.drop_last());
        lemma_count_cat(a, b.drop_last(), c);
    }
}

/// A port is cut off a name and off an address in brackets; an address with several
/// colons has none.
pub proof fn law_ports_are_cut_off(name: Seq<char>, port: Seq<char>, address: Seq<char>)
    requires
        forall|i: int| 0 <= i < name.len() ==> #[trigger] name[i] != ':' && name[i] != '[',
        forall|i: int| 0 <= i < port.len() ==> #[trigger] port[i] != ':',
        forall|i: int| 0 <= i < address.len() ==> #[trigger] address[i] != ']',
    ensures
        without_port(name) == name,
        without_port(name + seq![':'] + port) == name,
        without_port(seq!['['] + address + seq![']'] + port) == address,
        count(address, ':') > 1 && address[0] != '[' ==> without_port(address) == address,
{
    lemma_count_absent(name, ':');
    if name.len() > 0 {
        assert(name[0] != '[');
    }
    let s = name + seq![':'] + port;
    lemma_count_absent(port, ':');
    lemma_count_cat(name + seq![':'], port, ':');
    lemma_count_cat(name, seq![':'], ':');
    assert(seq![':'].drop_last() =~= Seq::<char>::empty());
    assert(count(Seq::<char>::empty(), ':') == 0);
    assert(count(seq![':'], ':') == 1);
    text::law_first(name, ':', port);
    assert(s.take(name.len() as int) =~= name);
    assert(s[0] == (if name.len() > 0 {
        name[0]
    } else {
        ':'
    }));
    let b = seq!['['] + address + seq![']'] + port;
    assert(b.skip(1) =~= address + seq![']'] + port);
    text::law_first(address, ']', port);
    assert(b.skip(1).take(address.len() as int) =~= address);
}

/// The host of an origin is what stands behind `://`, up to a slash, without its port.
pub proof fn law_hosts_of_origins(scheme: Seq<char>, host: Seq<char>, rest: Seq<char>)
    requires
        forall|i: int| 0 <= i < scheme.len() ==> #[trigger] scheme[i] != ':',
        forall|i: int| 0 <= i < host.len() ==> #[trigger] host[i] != '/',
        text::find(host + rest, "://"@) < 0,
        rest.len() == 0 || rest[0] == '/',
    ensures
        host_of(scheme + "://"@ + (host + rest)) == Some(without_port(host)),
        host_of(scheme) is None,
{
    let sep = "://"@;
    reveal_strlit("://");
    let tail = host + rest;
    let o = scheme + sep + tail;
    assert forall|i: int| 0 <= i < scheme.len() implies !sep.is_prefix_of(#[trigger] o.skip(i)) by {
        if sep.is_prefix_of(o.skip(i)) {
            assert(sep[0] == o.skip(i).subrange(0, 3)[0]);
            assert(o[i] == scheme[i]);
        }
    }
    assert(o.skip(scheme.len() as int) =~= sep + tail);
    assert(sep =~= (sep + tail).subrange(0, 3));
    text::law_find_first(o, sep, scheme.len() as int);
    assert(o.skip(scheme.len() as int + sep.len()) =~= tail);
    assert(until(tail, sep) == tail);
    if rest.len() == 0 {
        assert(tail =~= host);
        text::law_first(host, '/', Seq::empty());
    } else {
        text::law_first(host, '/', rest.skip(1));
        assert(host + seq!['/'] + rest.skip(1) =~= tail);
    }
    assert(tail.take(host.len() as int) =~= host);
    assert forall|i: int| 0 <= i <= scheme.len() implies !sep.is_prefix_of(
        #[trigger] scheme.skip(i),
    ) by {
        if sep.is_prefix_of(scheme.skip(i)) {
            assert(sep[0] == scheme.skip(i).subrange(0, 3)[0]);
            assert(scheme[i] == ':');
        }
    }
    text::law_find_absent(scheme, sep);
}

/// A request is from a private network if its host is a name of this machine or a
/// private address.
pub proof fn law_private_origins(origin: Seq<char>, host: Seq<char>, name: Seq<char>, ip: Ip)
    requires
        host_of(origin) == Some(host),
    ensures
        private_origin(origin, Some(ip)) <==> private(ip) || is_local_name(host),
        private_origin(origin, None) <==> is_local_name(host),
        is_local_name("localhost"@),
        is_local_name(name + ".localhost"@),
        is_local_name(host) ==> host == "localhost"@ || exists|n: Seq<char>|
            host == #[trigger] (n + ".localhost"@),
{
    let l = ".localhost"@;
    let s = name + l;
    assert(l =~= s.subrange((s.len() - l.len()) as int, s.len() as int));
    if is_local_name(host) && host != "localhost"@ {
        let n = host.take(host.len() - l.len());
        assert(host =~= n + l);
    }
}

/// An address as a network of its own.
pub proof fn law_addresses_alone(a: u8, b: u8, c: u8, d: u8)
    ensures
        alone(Ip::V4(a, b, c, d)) == numbers::decimal(a as nat) + "."@ + numbers::decimal(b as nat)
            + "."@ + numbers::decimal(c as nat) + "."@ + numbers::decimal(d as nat) + "/32"@,
{
}

} // verus!
