//! Addresses as the configuration format carries them: an IPv4 address as
//! four octets, and a socket address as an address plus a port, each with a
//! verified parser for its dotted-decimal text form.

use vstd::prelude::*;
use vstd::string::StrSliceExecFns;

use crate::text::{
    dec_val, find_char, lemma_dec_val_nonneg, parse_field, scan_to_char, valid_field,
};

verus! {

/// An IPv4 address, as four octets.
#[derive(Debug, Clone, Copy, PartialEq, Eq, Structural)]
pub struct IpAddr {
    pub a: u8,
    pub b: u8,
    pub c: u8,
    pub d: u8,
}

/// A socket address: an IPv4 address and a port.
#[derive(Debug, Clone, Copy, PartialEq, Eq, Structural)]
pub struct SocketAddr {
    pub ip: IpAddr,
    pub port: u16,
}

/// An address octet: a bounded decimal field of value at most 255.
pub open spec fn valid_octet(s: Seq<char>) -> bool {
    valid_field(s, 255)
}

/// A port: a bounded decimal field of value at most 65535.
pub open spec fn valid_port(s: Seq<char>) -> bool {
    valid_field(s, 65535)
}

/// Position of the first dot of an address text.
pub open spec fn dot1(s: Seq<char>) -> int {
    scan_to_char(s, 0, '.')
}

/// Position of the second dot of an address text.
pub open spec fn dot2(s: Seq<char>) -> int {
    scan_to_char(s, dot1(s) + 1, '.')
}

/// Position of the third dot of an address text.
pub open spec fn dot3(s: Seq<char>) -> int {
    scan_to_char(s, dot2(s) + 1, '.')
}

/// A dotted-quad address text: exactly four octet fields separated by
/// exactly three dots.
pub open spec fn valid_ipv4(s: Seq<char>) -> bool {
    &&& dot1(s) < s.len()
    &&& dot2(s) < s.len()
    &&& dot3(s) < s.len()
    &&& scan_to_char(s, dot3(s) + 1, '.') == s.len()
    &&& valid_octet(s.subrange(0, dot1(s)))
    &&& valid_octet(s.subrange(dot1(s) + 1, dot2(s)))
    &&& valid_octet(s.subrange(dot2(s) + 1, dot3(s)))
    &&& valid_octet(s.subrange(dot3(s) + 1, s.len() as int))
}

/// The address a valid dotted-quad text denotes.
pub open spec fn ipv4_of(s: Seq<char>) -> IpAddr {
    IpAddr {
        a: dec_val(s.subrange(0, dot1(s))) as u8,
        b: dec_val(s.subrange(dot1(s) + 1, dot2(s))) as u8,
        c: dec_val(s.subrange(dot2(s) + 1, dot3(s))) as u8,
        d: dec_val(s.subrange(dot3(s) + 1, s.len() as int)) as u8,
    }
}

pub open spec fn spec_parse_ipv4(s: Seq<char>) -> Option<IpAddr> {
    if valid_ipv4(s) {
        Some(ipv4_of(s))
    } else {
        None
    }
}

/// Position of the colon separating the address from the port.
pub open spec fn colon_at(s: Seq<char>) -> int {
    scan_to_char(s, 0, ':')
}

/// A socket address text: a dotted-quad address, a colon, and a port field.
pub open spec fn valid_socket(s: Seq<char>) -> bool {
    &&& colon_at(s) < s.len()
    &&& valid_ipv4(s.subrange(0, colon_at(s)))
    &&& valid_port(s.subrange(colon_at(s) + 1, s.len() as int))
}

/// The socket address a valid text denotes.
pub open spec fn socket_of(s: Seq<char>) -> SocketAddr {
    SocketAddr {
        ip: ipv4_of(s.subrange(0, colon_at(s))),
        port: dec_val(s.subrange(colon_at(s) + 1, s.len() as int)) as u16,
    }
}

pub open spec fn spec_parse_socket(s: Seq<char>) -> Option<SocketAddr> {
    if valid_socket(s) {
        Some(socket_of(s))
    } else {
        None
    }
}

/// Parses a dotted-quad IPv4 address.
pub fn parse_ipv4(s: &str) -> (r: Option<IpAddr>)
    ensures
        r == spec_parse_ipv4(s@),
{
    let n = s.unicode_len();
    let i = find_char(s, 0, '.');
    if i == n {
        return None;
    }
    let j = find_char(s, i + 1, '.');
    if j == n {
        return None;
    }
    let k = find_char(s, j + 1, '.');
    if k == n {
        return None;
    }
    let after = find_char(s, k + 1, '.');
    if after != n {
        return None;
    }
    let fa = match parse_field(s.substring_char(0, i), 255) {
        Some(v) => v,
        None => {
            return None;
        },
    };
    let fb = match parse_field(s.substring_char(i + 1, j), 255) {
        Some(v) => v,
        None => {
            return None;
        },
    };
    let fc = match parse_field(s.substring_char(j + 1, k), 255) {
        Some(v) => v,
        None => {
            return None;
        },
    };
    let fd = match parse_field(s.substring_char(k + 1, n), 255) {
        Some(v) => v,
        None => {
            return None;
        },
    };
    proof {
        lemma_dec_val_nonneg(s@.subrange(0, i as int));
        lemma_dec_val_nonneg(s@.subrange(i + 1, j as int));
        lemma_dec_val_nonneg(s@.subrange(j + 1, k as int));
        lemma_dec_val_nonneg(s@.subrange(k + 1, n as int));
    }
    Some(IpAddr { a: fa as u8, b: fb as u8, c: fc as u8, d: fd as u8 })
}

/// Parses a socket address written as `address:port`.
pub fn parse_socket_addr(s: &str) -> (r: Option<SocketAddr>)
    ensures
        r == spec_parse_socket(s@),
{
    let n = s.unicode_len();
    let m = find_char(s, 0, ':');
    if m == n {
        return None;
    }
    let ip = match parse_ipv4(s.substring_char(0, m)) {
        Some(v) => v,
        None => {
            return None;
        },
    };
    let port = match parse_field(s.substring_char(m + 1, n), 65535) {
        Some(v) => v,
        None => {
            return None;
        },
    };
    proof {
        lemma_dec_val_nonneg(s@.subrange(m + 1, n as int));
    }
    Some(SocketAddr { ip, port: port as u16 })
}

} // verus!
