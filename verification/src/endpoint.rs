use vstd::prelude::*;

use vstd::string::*;

use crate::buffer::{new_string_128, push_str_128, text_of_128};
use crate::decimal::{
    decimal_bytes, lemma_decimal_bytes, lemma_decimal_value, parse_u16, parse_u8, parse_unsigned,
};
use crate::text::{
    has_prefix, lemma_split_all_step, lemma_split_first_concat, lemma_split_first_none, split_all,
    split_first, split_once, strip_ascii_prefix,
};

verus! {

/// Port used when the port of the backend address does not parse.
pub const DEFAULT_BACKEND_PORT: u16 = 4000;

/// Port used for an `https://` address without a usable port.
pub const DEFAULT_HTTPS_PORT: u16 = 443;

/// Where the device sends its events: the host as written (a dotted IPv4
/// address or a host name to resolve), its four octets when it is an IPv4
/// address, and the TCP port.
#[derive(Clone, Copy, Debug)]
pub struct BackendTarget<'a> {
    pub host: &'a str,
    pub ipv4: Option<[u8; 4]>,
    pub port: u16,
}

/// The port of the address; text that is not a number up to 65535 gives the default.
pub open spec fn port_value(s: Seq<u8>, default: u16) -> u16 {
    match parse_unsigned(s, 65535) {
        Some(v) => v as u16,
        None => default,
    }
}

/// The octets of a dotted IPv4 address: exactly four `.`-separated pieces,
/// each a number up to 255. Any other host is a name.
pub open spec fn ipv4_octets(host: Seq<u8>) -> Option<Seq<u8>> {
    let pieces = split_all(host, 46);
    if pieces.len() == 4 && parse_unsigned(pieces[0], 255) is Some && parse_unsigned(pieces[1], 255) is Some
        && parse_unsigned(pieces[2], 255) is Some && parse_unsigned(pieces[3], 255) is Some {
        Some(
            seq![
                parse_unsigned(pieces[0], 255)->0 as u8,
                parse_unsigned(pieces[1], 255)->0 as u8,
                parse_unsigned(pieces[2], 255)->0 as u8,
                parse_unsigned(pieces[3], 255)->0 as u8,
            ],
        )
    } else {
        None
    }
}

/// Backend addresses that can be read without running out of room: at most one `:`.
pub open spec fn backend_url_readable(url: Seq<u8>) -> bool {
    split_all(url, 58).len() <= 2
}

/// The target described by `IP:PORT` or `HOSTNAME:PORT`: `None` without a `:`
/// or with nothing before it.
pub open spec fn backend_target_spec(url: Seq<u8>) -> Option<(Seq<u8>, Option<Seq<u8>>, u16)> {
    let parts = split_all(url, 58);
    if parts.len() < 2 || parts[0].len() == 0 {
        None
    } else {
        Some((parts[0], ipv4_octets(parts[0]), port_value(parts[1], DEFAULT_BACKEND_PORT)))
    }
}

/// The octets of `host` when it is a dotted IPv4 address.
pub fn parse_ipv4(host: &str) -> (r: Option<[u8; 4]>)
    ensures
        match ipv4_octets(host.spec_bytes()) {
            None => r is None,
            Some(o) => r matches Some(a) && a@ == o,
        },
{
    proof {
        lemma_split_all_step(host.spec_bytes(), 46);
    }
    let (a, rest1) = match split_once(host, 46u8) {
        None => return None,
        Some(p) => p,
    };
    proof {
        lemma_split_all_step(rest1.spec_bytes(), 46);
    }
    let (b, rest2) = match split_once(rest1, 46u8) {
        None => return None,
        Some(p) => p,
    };
    proof {
        lemma_split_all_step(rest2.spec_bytes(), 46);
    }
    let (c, d) = match split_once(rest2, 46u8) {
        None => return None,
        Some(p) => p,
    };
    proof {
        lemma_split_all_step(d.spec_bytes(), 46);
        if let Some((e, f)) = split_first(d.spec_bytes(), 46) {
            lemma_split_all_step(f, 46);
        }
    }
    if split_once(d, 46u8).is_some() {
        return None;
    }
    let o0 = match parse_u8(a) {
        Some(v) => v,
        None => return None,
    };
    let o1 = match parse_u8(b) {
        Some(v) => v,
        None => return None,
    };
    let o2 = match parse_u8(c) {
        Some(v) => v,
        None => return None,
    };
    let o3 = match parse_u8(d) {
        Some(v) => v,
        None => return None,
    };
    let octets = [o0, o1, o2, o3];
    assert(octets@ == ipv4_octets(host.spec_bytes())->0);
    Some(octets)
}

/// Reads the backend address `IP:PORT` or `HOSTNAME:PORT` that the device was
/// configured with; a host name is left for the device to resolve.
pub fn parse_backend_url(url: &str) -> (r: Option<BackendTarget<'_>>)
    requires
        backend_url_readable(url.spec_bytes()),
    ensures
        match backend_target_spec(url.spec_bytes()) {
            None => r is None,
            Some((host, octets, port)) => r matches Some(t) && t.host.spec_bytes() == host
                && t.port == port && match octets {
                None => t.ipv4 is None,
                Some(o) => t.ipv4 matches Some(a) && a@ == o,
            },
        },
{
    proof {
        lemma_split_all_step(url.spec_bytes(), 58);
    }
    let (host, port_str) = match split_once(url, 58u8) {
        None => return None,
        Some(p) => p,
    };
    proof {
        lemma_split_all_step(port_str.spec_bytes(), 58);
    }
    if host.as_bytes().len() == 0 {
        assert(host.spec_bytes().len() == 0);
        return None;
    }
    let ipv4 = parse_ipv4(host);
    let port = match parse_u16(port_str) {
        Some(v) => v,
        None => DEFAULT_BACKEND_PORT,
    };
    Some(BackendTarget { host, ipv4, port })
}

/// The bytes of `https://`.
pub open spec fn https_scheme() -> Seq<u8> {
    seq![104u8, 116u8, 116u8, 112u8, 115u8, 58u8, 47u8, 47u8]
}

/// Host and port of an address `https://HOST[:PORT][/PATH]`: the host is what
/// precedes the first `:` of the part before the first `/`; a missing or
/// unreadable port gives 443. Addresses of another scheme give `None`.
pub open spec fn https_target_spec(url: Seq<u8>) -> Option<(Seq<u8>, u16)> {
    if !has_prefix(url, https_scheme()) {
        None
    } else {
        let rest = url.skip(8);
        let host_port = match split_first(rest, 47) {
            Some((a, _)) => a,
            None => rest,
        };
        match split_first(host_port, 58) {
            Some((h, p)) => Some((h, port_value(p, DEFAULT_HTTPS_PORT))),
            None => Some((host_port, DEFAULT_HTTPS_PORT)),
        }
    }
}

/// Reads host and port from an `https://` address.
pub fn parse_https_url(url: &str) -> (r: Option<(&str, u16)>)
    ensures
        match https_target_spec(url.spec_bytes()) {
            None => r is None,
            Some((host, port)) => r matches Some((h, p)) && h.spec_bytes() == host && p == port,
        },
{
    let scheme: [u8; 8] = [104u8, 116u8, 116u8, 112u8, 115u8, 58u8, 47u8, 47u8];
    assert(scheme@ == https_scheme());
    let rest = match strip_ascii_prefix(url, &scheme) {
        None => return None,
        Some(r) => r,
    };
    let host_port = match split_once(rest, 47u8) {
        Some((a, _path)) => a,
        None => rest,
    };
    match split_once(host_port, 58u8) {
        Some((h, p)) => {
            let port = match parse_u16(p) {
                Some(v) => v,
                None => DEFAULT_HTTPS_PORT,
            };
            Some((h, port))
        },
        None => Some((host_port, DEFAULT_HTTPS_PORT)),
    }
}

/// The resolved host name as kept by the device: the name itself when it fits
/// in 128 bytes, otherwise nothing at all.
pub fn hostname_record(hostname: &str) -> (s: heapless::String<128>)
    ensures
        text_of_128(s) == if hostname.spec_bytes().len() <= 128 {
            hostname.spec_bytes()
        } else {
            Seq::<u8>::empty()
        },
{
    let mut s = new_string_128();
    let _fits = push_str_128(&mut s, hostname);
    s
}


/// The address `A.B.C.D:PORT` written with plain decimal numbers.
pub open spec fn written_backend_url(octets: Seq<u8>, port: u16) -> Seq<u8> {
    decimal_bytes(octets[0] as nat) + seq![46u8] + decimal_bytes(octets[1] as nat) + seq![46u8]
        + decimal_bytes(octets[2] as nat) + seq![46u8] + decimal_bytes(octets[3] as nat) + seq![58u8]
        + decimal_bytes(port as nat)
}

proof fn lemma_decimal_free_of(n: nat, d: u8)
    requires
        d == 46 || d == 58 || d == 47,
    ensures
        forall|j: int| 0 <= j < decimal_bytes(n).len() ==> decimal_bytes(n)[j] != d,
        parse_unsigned(decimal_bytes(n), n) == Some(n),
        split_first(decimal_bytes(n), d) is None,
        split_all(decimal_bytes(n), d) == seq![decimal_bytes(n)],
{
    lemma_decimal_bytes(n);
    lemma_decimal_value(n);
    let b = decimal_bytes(n);
    assert forall|j: int| 0 <= j < b.len() implies b[j] != d by {
        assert(crate::decimal::is_digit(b[j]));
    }
    lemma_split_first_none(b, d);
    lemma_split_all_step(b, d);
}

#[verifier::rlimit(40)]
/// A backend address written as four decimal octets and a decimal port is
/// accepted and read back as exactly those octets and that port.
pub proof fn written_backend_url_reads_back(octets: Seq<u8>, port: u16)
    requires
        octets.len() == 4,
    ensures
        backend_url_readable(written_backend_url(octets, port)),
        backend_target_spec(written_backend_url(octets, port)) matches Some((_, o, p)) && o
            == Some(octets) && p == port,
{
    let d0 = decimal_bytes(octets[0] as nat);
    let d1 = decimal_bytes(octets[1] as nat);
    let d2 = decimal_bytes(octets[2] as nat);
    let d3 = decimal_bytes(octets[3] as nat);
    let dp = decimal_bytes(port as nat);
    lemma_decimal_free_of(octets[0] as nat, 46);
    lemma_decimal_free_of(octets[1] as nat, 46);
    lemma_decimal_free_of(octets[2] as nat, 46);
    lemma_decimal_free_of(octets[3] as nat, 46);
    lemma_decimal_free_of(octets[0] as nat, 58);
    lemma_decimal_free_of(octets[1] as nat, 58);
    lemma_decimal_free_of(octets[2] as nat, 58);
    lemma_decimal_free_of(octets[3] as nat, 58);
    lemma_decimal_free_of(port as nat, 58);
    crate::decimal::decimal_round_trip(octets[0] as nat, 255);
    crate::decimal::decimal_round_trip(octets[1] as nat, 255);
    crate::decimal::decimal_round_trip(octets[2] as nat, 255);
    crate::decimal::decimal_round_trip(octets[3] as nat, 255);
    crate::decimal::decimal_round_trip(port as nat, 65535);
    let r3 = d3;
    let r2 = d2 + seq![46u8] + r3;
    let r1 = d1 + seq![46u8] + r2;
    let ip = d0 + seq![46u8] + r1;
    let url = ip + seq![58u8] + dp;
    assert(url == written_backend_url(octets, port));
    // The address part holds no ':'.
    assert forall|j: int| 0 <= j < ip.len() implies ip[j] != 58u8 by {
        if j < d0.len() {
            assert(ip[j] == d0[j]);
        } else if j == d0.len() {
        } else if j < d0.len() + 1 + d1.len() {
            assert(ip[j] == d1[j - d0.len() - 1]);
        } else if j == d0.len() + 1 + d1.len() {
        } else if j < d0.len() + 2 + d1.len() + d2.len() {
            assert(ip[j] == d2[j - d0.len() - 2 - d1.len()]);
        } else if j == d0.len() + 2 + d1.len() + d2.len() {
        } else {
            assert(ip[j] == d3[j - d0.len() - 3 - d1.len() - d2.len()]);
        }
    }
    lemma_split_first_concat(ip, 58, dp);
    lemma_split_all_step(url, 58);
    assert(split_all(url, 58) == seq![ip, dp]);
    lemma_split_first_concat(d0, 46, r1);
    lemma_split_first_concat(d1, 46, r2);
    lemma_split_first_concat(d2, 46, r3);
    lemma_split_all_step(ip, 46);
    lemma_split_all_step(r1, 46);
    lemma_split_all_step(r2, 46);
    let pieces = split_all(ip, 46);
    assert(pieces == seq![d0, d1, d2, d3]);
    assert(parse_unsigned(pieces[0], 255) == Some(octets[0] as nat));
    assert(parse_unsigned(pieces[1], 255) == Some(octets[1] as nat));
    assert(parse_unsigned(pieces[2], 255) == Some(octets[2] as nat));
    assert(parse_unsigned(pieces[3], 255) == Some(octets[3] as nat));
    assert(port_value(dp, DEFAULT_BACKEND_PORT) == port);
    assert(ip.len() > 0);
    assert(ipv4_octets(ip)->0 =~= octets);
}

/// A host name (not a dotted IPv4 address) with a decimal port is accepted as
/// is and left for the device to resolve, with the port read back.
pub proof fn written_hostname_url_reads_back(host: Seq<u8>, port: u16)
    requires
        host.len() > 0,
        forall|j: int| 0 <= j < host.len() ==> host[j] != 58u8,
        ipv4_octets(host) is None,
    ensures
        backend_url_readable(host + seq![58u8] + decimal_bytes(port as nat)),
        backend_target_spec(host + seq![58u8] + decimal_bytes(port as nat)) == Some(
            (host, None::<Seq<u8>>, port),
        ),
{
    let dp = decimal_bytes(port as nat);
    let url = host + seq![58u8] + dp;
    lemma_decimal_free_of(port as nat, 58);
    crate::decimal::decimal_round_trip(port as nat, 65535);
    lemma_split_first_concat(host, 58, dp);
    lemma_split_all_step(url, 58);
    assert(split_all(url, 58) == seq![host, dp]);
}


/// The result of resolving an `https://` backend: the host name as kept by the
/// device, the port, and the first address the lookup returned; an error when
/// it returned none.
pub fn resolved_target<A: Copy>(hostname: &str, port: u16, addresses: &[A]) -> (r: Result<
    (heapless::String<128>, u16, A),
    (),
>)
    ensures
        addresses@.len() == 0 ==> r is Err,
        addresses@.len() > 0 ==> (r matches Ok((name, p, a)) && text_of_128(name) == (
        if hostname.spec_bytes().len() <= 128 {
            hostname.spec_bytes()
        } else {
            Seq::<u8>::empty()
        }) && p == port && a == addresses@[0]),
{
    if addresses.len() == 0 {
        return Err(());
    }
    let first = addresses[0];
    Ok((hostname_record(hostname), port, first))
}

/// An address without a `:`, or with nothing before its first `:`, names no
/// backend.
pub proof fn backend_url_needs_host_and_colon(url: Seq<u8>)
    requires
        (forall|j: int| 0 <= j < url.len() ==> url[j] != 58u8) || (url.len() > 0 && url[0] == 58u8),
    ensures
        backend_target_spec(url) is None,
{
    lemma_split_all_step(url, 58);
    if forall|j: int| 0 <= j < url.len() ==> url[j] != 58u8 {
        lemma_split_first_none(url, 58);
    } else {
        crate::text::lemma_split_first_at(url, 58, 0);
        assert(url.take(0).len() == 0);
    }
}

/// The part of an address after the host and port: nothing, or `/` and a path.
pub open spec fn path_suffix(path: Option<Seq<u8>>) -> Seq<u8> {
    match path {
        None => Seq::empty(),
        Some(p) => seq![47u8] + p,
    }
}

/// A host that holds neither `:` nor `/`.
pub open spec fn plain_host(host: Seq<u8>) -> bool {
    forall|j: int| 0 <= j < host.len() ==> host[j] != 58u8 && host[j] != 47u8
}

proof fn lemma_scheme_prefix(rest: Seq<u8>)
    ensures
        has_prefix(https_scheme() + rest, https_scheme()),
        (https_scheme() + rest).skip(8) == rest,
{
    assert((https_scheme() + rest).take(8) =~= https_scheme());
    assert((https_scheme() + rest).skip(8) =~= rest);
}

/// `https://HOST:PORT`, with or without a `/PATH` after it, reads back as that
/// host and that port, for every host free of `:` and `/` and every port
/// written in decimal.
pub proof fn https_url_with_port_reads_back(host: Seq<u8>, port: u16, path: Option<Seq<u8>>)
    requires
        plain_host(host),
    ensures
        https_target_spec(
            https_scheme() + (host + seq![58u8] + decimal_bytes(port as nat) + path_suffix(path)),
        ) == Some((host, port)),
{
    let dp = decimal_bytes(port as nat);
    let host_port = host + seq![58u8] + dp;
    let rest = host_port + path_suffix(path);
    lemma_scheme_prefix(rest);
    lemma_decimal_free_of(port as nat, 47);
    lemma_decimal_free_of(port as nat, 58);
    crate::decimal::decimal_round_trip(port as nat, 65535);
    assert forall|j: int| 0 <= j < host_port.len() implies host_port[j] != 47u8 by {
        if j < host.len() {
            assert(host_port[j] == host[j]);
        } else if j > host.len() {
            assert(host_port[j] == dp[j - host.len() - 1]);
        }
    }
    assert forall|j: int| 0 <= j < host.len() implies host[j] != 58u8 by {}
    match path {
        None => {
            assert(rest =~= host_port);
            lemma_split_first_none(host_port, 47);
        },
        Some(p) => {
            assert(rest =~= host_port + seq![47u8] + p);
            lemma_split_first_concat(host_port, 47, p);
        },
    }
    lemma_split_first_concat(host, 58, dp);
}

/// An `https://` address whose host part has no `:` reads back as that host
/// and port 443, with or without a `/PATH` after it.
pub proof fn https_url_without_port_reads_back(host: Seq<u8>, path: Option<Seq<u8>>)
    requires
        plain_host(host),
    ensures
        https_target_spec(https_scheme() + (host + path_suffix(path))) == Some(
            (host, DEFAULT_HTTPS_PORT),
        ),
{
    let rest = host + path_suffix(path);
    lemma_scheme_prefix(rest);
    assert forall|j: int| 0 <= j < host.len() implies host[j] != 47u8 by {}
    assert forall|j: int| 0 <= j < host.len() implies host[j] != 58u8 by {}
    match path {
        None => {
            assert(rest =~= host);
            lemma_split_first_none(host, 47);
        },
        Some(p) => {
            assert(rest =~= host + seq![47u8] + p);
            lemma_split_first_concat(host, 47, p);
        },
    }
    lemma_split_first_none(host, 58);
}

} // verus!
