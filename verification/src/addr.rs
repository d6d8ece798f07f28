//! Socket addresses held as plain values, and the parsing of their textual
//! form as it appears in configuration snapshots.

use vstd::prelude::*;
use vstd::slice::slice_index_get;

verus! {

/// An IP address as a plain value: the four octets of an IPv4 address
/// packed big-endian into a `u32`, or the sixteen octets of an IPv6 address
/// packed big-endian into a `u128`.
#[derive(Clone, Copy, Debug, PartialEq, Eq, Structural)]
pub enum Ip {
    V4(u32),
    V6(u128),
}

/// A socket address: an IP address and a port.
#[derive(Clone, Copy, Debug, PartialEq, Eq, Structural)]
pub struct Addr {
    pub ip: Ip,
    pub port: u16,
}

/// The numeric form of the dotted quad `a.b.c.d`.
pub open spec fn spec_ip_of_octets(a: u8, b: u8, c: u8, d: u8) -> u32 {
    ((a as int) * 0x1000000 + (b as int) * 0x10000 + (c as int) * 0x100 + (d as int)) as u32
}

impl Addr {
    /// The IPv4 address `a.b.c.d:port`.
    pub fn from_octets(a: u8, b: u8, c: u8, d: u8, port: u16) -> (r: Addr)
        ensures
            r.ip == Ip::V4(spec_ip_of_octets(a, b, c, d)),
            r.port == port,
    {
        Addr {
            ip: Ip::V4(
                (a as u32) * 0x1000000 + (b as u32) * 0x10000 + (c as u32) * 0x100 + (d as u32),
            ),
            port,
        }
    }

    /// The IPv6 address whose sixteen octets are packed big-endian into
    /// `ip`, with the port.
    pub fn from_v6(ip: u128, port: u16) -> (r: Addr)
        ensures
            r.ip == Ip::V6(ip),
            r.port == port,
    {
        Addr { ip: Ip::V6(ip), port }
    }
}

pub open spec fn spec_is_digit(b: u8) -> bool {
    0x30 <= b && b <= 0x39
}

/// The decimal value of the digits `s[i..j)`.
pub open spec fn spec_dec_value(s: Seq<u8>, i: int, j: int) -> int
    decreases j - i,
{
    if j <= i {
        0
    } else {
        spec_dec_value(s, i, j - 1) * 10 + (s[j - 1] - 0x30)
    }
}

/// The first index at or after `i` that does not hold a decimal digit.
pub open spec fn spec_digit_end(s: Seq<u8>, i: int) -> int
    decreases s.len() - i,
{
    if i < s.len() && spec_is_digit(s[i]) {
        spec_digit_end(s, i + 1)
    } else {
        i
    }
}

/// `s[i..j)` is a valid dotted-quad octet: one to three digits, no leading
/// zero, value at most 255.
pub open spec fn spec_valid_octet(s: Seq<u8>, i: int, j: int) -> bool {
    &&& i < j <= s.len()
    &&& j - i <= 3
    &&& forall|k: int| i <= k < j ==> spec_is_digit(s[k])
    &&& (j - i > 1 ==> s[i] != 0x30)
    &&& 0 <= spec_dec_value(s, i, j) <= 255
}

/// A dotted-quad IPv4 literal `a.b.c.d` and its numeric value; `None` for
/// any other text.
pub open spec fn spec_parse_ipv4(s: Seq<u8>) -> Option<u32> {
    let j1 = spec_digit_end(s, 0);
    let j2 = spec_digit_end(s, j1 + 1);
    let j3 = spec_digit_end(s, j2 + 1);
    let j4 = spec_digit_end(s, j3 + 1);
    if spec_valid_octet(s, 0, j1) && j1 < s.len() && s[j1] == 0x2e && spec_valid_octet(
        s,
        j1 + 1,
        j2,
    ) && j2 < s.len() && s[j2] == 0x2e && spec_valid_octet(s, j2 + 1, j3) && j3 < s.len() && s[j3]
        == 0x2e && spec_valid_octet(s, j3 + 1, j4) && j4 == s.len() {
        Some(
            spec_ip_of_octets(
                spec_dec_value(s, 0, j1) as u8,
                spec_dec_value(s, j1 + 1, j2) as u8,
                spec_dec_value(s, j2 + 1, j3) as u8,
                spec_dec_value(s, j3 + 1, j4) as u8,
            ),
        )
    } else {
        None
    }
}

pub proof fn lemma_digit_end_unique(s: Seq<u8>, i: int, j: int)
    requires
        0 <= i <= j <= s.len(),
        forall|k: int| i <= k < j ==> spec_is_digit(s[k]),
        j < s.len() ==> !spec_is_digit(s[j]),
    ensures
        spec_digit_end(s, i) == j,
    decreases j - i,
{
    if i < j {
        lemma_digit_end_unique(s, i + 1, j);
    }
}

fn is_digit_byte(b: u8) -> (r: bool)
    ensures
        r == spec_is_digit(b),
{
    0x30 <= b && b <= 0x39
}

/// Reads one octet starting at `start`: its value and the index just past
/// its digits, or `None` when the digit run there is not a valid octet.
fn scan_octet(s: &[u8], start: usize) -> (r: Option<(u8, usize)>)
    requires
        start <= s@.len(),
    ensures
        match r {
            Some(v) => {
                &&& v.1 == spec_digit_end(s@, start as int)
                &&& spec_valid_octet(s@, start as int, v.1 as int)
                &&& v.0 == spec_dec_value(s@, start as int, v.1 as int)
            },
            None => !spec_valid_octet(s@, start as int, spec_digit_end(s@, start as int)),
        },
{
    let n = s.len();
    let mut j = start;
    while j < n && is_digit_byte(*slice_index_get(s, j))
        invariant
            start <= j <= n,
            n == s@.len(),
            forall|k: int| start <= k < j ==> spec_is_digit(s@[k]),
        decreases n - j,
    {
        j = j + 1;
    }
    proof {
        lemma_digit_end_unique(s@, start as int, j as int);
    }
    let run = j - start;
    if run == 0 || run > 3 {
        return None;
    }
    if run > 1 && *slice_index_get(s, start) == 0x30 {
        return None;
    }
    let d0 = (*slice_index_get(s, start) - 0x30) as u32;
    proof {
        assert(spec_dec_value(s@, start as int, start as int) == 0);
        assert(spec_dec_value(s@, start as int, start as int + 1) == (s@[start as int] - 0x30));
    }
    let mut v: u32 = d0;
    if run >= 2 {
        let d1 = (*slice_index_get(s, start + 1) - 0x30) as u32;
        proof {
            assert(spec_dec_value(s@, start as int, start as int + 2) == spec_dec_value(
                s@,
                start as int,
                start as int + 1,
            ) * 10 + (s@[start as int + 1] - 0x30));
        }
        v = v * 10 + d1;
    }
    if run == 3 {
        let d2 = (*slice_index_get(s, start + 2) - 0x30) as u32;
        proof {
            assert(spec_dec_value(s@, start as int, start as int + 3) == spec_dec_value(
                s@,
                start as int,
                start as int + 2,
            ) * 10 + (s@[start as int + 2] - 0x30));
        }
        v = v * 10 + d2;
    }
    if v > 255 {
        return None;
    }
    Some((v as u8, j))
}

/// Parses a dotted-quad IPv4 literal.
pub fn parse_ipv4(s: &[u8]) -> (r: Option<u32>)
    ensures
        r == spec_parse_ipv4(s@),
{
    let o1 = match scan_octet(s, 0) {
        None => {
            return None;
        },
        Some(o) => o,
    };
    if o1.1 >= s.len() || *slice_index_get(s, o1.1) != 0x2e {
        return None;
    }
    let o2 = match scan_octet(s, o1.1 + 1) {
        None => {
            return None;
        },
        Some(o) => o,
    };
    if o2.1 >= s.len() || *slice_index_get(s, o2.1) != 0x2e {
        return None;
    }
    let o3 = match scan_octet(s, o2.1 + 1) {
        None => {
            return None;
        },
        Some(o) => o,
    };
    if o3.1 >= s.len() || *slice_index_get(s, o3.1) != 0x2e {
        return None;
    }
    let o4 = match scan_octet(s, o3.1 + 1) {
        None => {
            return None;
        },
        Some(o) => o,
    };
    if o4.1 != s.len() {
        return None;
    }
    Some(
        (o1.0 as u32) * 0x1000000 + (o2.0 as u32) * 0x10000 + (o3.0 as u32) * 0x100 + (
        o4.0 as u32),
    )
}

} // verus!
