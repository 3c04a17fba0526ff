//! IP addresses as plain values, and the address checks built on them.
use crate::codec::hex_digit;
use crate::text::{decimal, decimal_string, push_char, push_str};
use vstd::prelude::*;

verus! {

/// An IPv4 address (octets) or an IPv6 address (segments).
#[derive(Debug, Clone, Copy, PartialEq, Eq)]
pub enum IpAddress {
    V4([u8; 4]),
    V6([u16; 8]),
}

/// An IP address and a port.
#[derive(Debug, Clone, Copy, PartialEq, Eq)]
pub struct SocketAddress {
    pub ip: IpAddress,
    pub port: u16,
}

/// 127.0.0.0/8 or ::1 (`IpAddr::is_loopback`).
pub open spec fn is_loopback_spec(ip: IpAddress) -> bool {
    match ip {
        IpAddress::V4(o) => o[0] == 127,
        IpAddress::V6(s) => s[0] == 0 && s[1] == 0 && s[2] == 0 && s[3] == 0 && s[4] == 0 && s[5]
            == 0 && s[6] == 0 && s[7] == 1,
    }
}

pub fn is_loopback(ip: &IpAddress) -> (b: bool)
    ensures
        b == is_loopback_spec(*ip),
{
    match ip {
        IpAddress::V4(o) => o[0] == 127,
        IpAddress::V6(s) => s[0] == 0 && s[1] == 0 && s[2] == 0 && s[3] == 0 && s[4] == 0 && s[5]
            == 0 && s[6] == 0 && s[7] == 1,
    }
}

/// RFC 1918 (10/8, 172.16/12, 192.168/16), RFC 6598
/// (100.64/10) and loopback for IPv4; loopback and RFC 4193 (fc00::/7) for
/// IPv6.
pub open spec fn is_private_ip_spec(ip: IpAddress) -> bool {
    match ip {
        IpAddress::V4(o) => {
            ||| o[0] == 127
            ||| o[0] == 10
            ||| (o[0] == 172 && 16 <= o[1] && o[1] <= 31)
            ||| (o[0] == 192 && o[1] == 168)
            ||| (o[0] == 100 && 64 <= o[1] && o[1] <= 127)
        },
        IpAddress::V6(s) => is_loopback_spec(ip) || (0xfc00 <= s[0] && s[0] <= 0xfdff),
    }
}

/// Whether `ip` is in a private range or loopback; public addresses are refused.
pub fn is_private_ip(ip: &IpAddress) -> (b: bool)
    ensures
        b == is_private_ip_spec(*ip),
{
    match ip {
        IpAddress::V4(o) => o[0] == 127 || o[0] == 10 || (o[0] == 172 && 16 <= o[1] && o[1] <= 31)
            || (o[0] == 192 && o[1] == 168) || (o[0] == 100 && 64
            <= o[1] && o[1] <= 127),
        IpAddress::V6(s) => is_loopback(ip) || (0xfc00 <= s[0] && s[0] <= 0xfdff),
    }
}

/// Every loopback address counts as private.
pub proof fn lemma_loopback_is_private(ip: IpAddress)
    ensures
        is_loopback_spec(ip) ==> is_private_ip_spec(ip),
{
}

/// `n` in lower-case hex without leading zeros (`{:x}`).
pub open spec fn hex_text(n: nat) -> Seq<char>
    decreases n,
{
    if n < 16 {
        seq![hex_digit(n as int)]
    } else {
        hex_text(n / 16).push(hex_digit((n % 16) as int))
    }
}

/// Segments in hex, separated by `:`.
pub open spec fn segments_text(s: Seq<u16>) -> Seq<char>
    decreases s.len(),
{
    if s.len() == 0 {
        seq![]
    } else if s.len() == 1 {
        hex_text(s[0] as nat)
    } else {
        segments_text(s.drop_last()) + ":"@ + hex_text(s.last() as nat)
    }
}

/// The first longest run of zero segments at or after `i`, given the run
/// `cur` that ends just before `i` and the longest run `best` before it,
/// as (start, length).
pub open spec fn zero_run_from(s: Seq<u16>, i: int, cur: (int, int), best: (int, int)) -> (
    int,
    int,
)
    decreases s.len() - i,
{
    if i >= s.len() {
        best
    } else if s[i] == 0 {
        let c = if cur.1 == 0 {
            (i, 1int)
        } else {
            (cur.0, cur.1 + 1)
        };
        zero_run_from(
            s,
            i + 1,
            c,
            if c.1 > best.1 {
                c
            } else {
                best
            },
        )
    } else {
        zero_run_from(s, i + 1, (0, 0), best)
    }
}

/// Dotted decimal.
pub open spec fn ipv4_text(a: int, b: int, c: int, d: int) -> Seq<char> {
    decimal(a as nat) + "."@ + decimal(b as nat) + "."@ + decimal(c as nat) + "."@ + decimal(
        d as nat,
    )
}

/// An address as `IpAddr`'s `Display` writes it: IPv4 in dotted decimal;
/// IPv6 mapped from IPv4 as `::ffff:` and dotted decimal; other IPv6 in hex
/// segments with the first longest run of two or more zero segments written
/// `::`.
pub open spec fn ip_text_spec(ip: IpAddress) -> Seq<char> {
    match ip {
        IpAddress::V4(o) => ipv4_text(o[0] as int, o[1] as int, o[2] as int, o[3] as int),
        IpAddress::V6(s) => if s[0] == 0 && s[1] == 0 && s[2] == 0 && s[3] == 0 && s[4] == 0 && s[5]
            == 0xffff {
            "::ffff:"@ + ipv4_text(s[6] as int / 256, s[6] as int % 256, s[7] as int / 256, s[7] as int % 256)
        } else {
            let run = zero_run_from(s@, 0, (0, 0), (0, 0));
            if run.1 > 1 {
                segments_text(s@.take(run.0)) + "::"@ + segments_text(s@.skip(run.0 + run.1))
            } else {
                segments_text(s@)
            }
        },
    }
}

fn hex_string(n: u16) -> (t: String)
    ensures
        t@ == hex_text(n as nat),
    decreases n,
{
    let d = n % 16;
    let c = if d < 10 {
        ((48 + d) as u8) as char
    } else {
        ((87 + d) as u8) as char
    };
    if n < 16 {
        let mut t = String::new();
        push_char(&mut t, c);
        t
    } else {
        let mut t = hex_string(n / 16);
        push_char(&mut t, c);
        t
    }
}

fn push_segments(out: &mut String, s: &[u16; 8], from: usize, to: usize)
    requires
        from <= to <= 8,
    ensures
        final(out)@ == old(out)@ + segments_text(s@.subrange(from as int, to as int)),
{
    let mut i = from;
    assert(s@.subrange(from as int, from as int) =~= Seq::<u16>::empty());
    let ghost start = out@;
    while i < to
        invariant
            from <= i <= to <= 8,
            s@.len() == 8,
            out@ == start + segments_text(s@.subrange(from as int, i as int)),
        decreases to - i,
    {
        let h = hex_string(s[i]);
        assert(s@.subrange(from as int, i + 1).drop_last() =~= s@.subrange(from as int, i as int));
        if i > from {
            push_str(out, ":");
        } else {
            assert(s@.subrange(from as int, i + 1) =~= seq![s@[i as int]]);
        }
        push_str(out, h.as_str());
        i = i + 1;
        assert(out@ =~= start + segments_text(s@.subrange(from as int, i as int)));
    }
}

fn push_ipv4(out: &mut String, a: u8, b: u8, c: u8, d: u8)
    ensures
        final(out)@ == old(out)@ + ipv4_text(a as int, b as int, c as int, d as int),
{
    let ta = decimal_string(a as u64);
    let tb = decimal_string(b as u64);
    let tc = decimal_string(c as u64);
    let td = decimal_string(d as u64);
    push_str(out, ta.as_str());
    push_str(out, ".");
    push_str(out, tb.as_str());
    push_str(out, ".");
    push_str(out, tc.as_str());
    push_str(out, ".");
    push_str(out, td.as_str());
}

/// The text of an address, as `IpAddr`'s `Display` writes it.
pub fn ip_text(ip: &IpAddress) -> (t: String)
    ensures
        t@ == ip_text_spec(*ip),
{
    let mut out = String::new();
    match ip {
        IpAddress::V4(o) => {
            push_ipv4(&mut out, o[0], o[1], o[2], o[3]);
        },
        IpAddress::V6(s) => {
            if s[0] == 0 && s[1] == 0 && s[2] == 0 && s[3] == 0 && s[4] == 0 && s[5] == 0xffff {
                push_str(&mut out, "::ffff:");
                push_ipv4(
                    &mut out,
                    (s[6] / 256) as u8,
                    (s[6] % 256) as u8,
                    (s[7] / 256) as u8,
                    (s[7] % 256) as u8,
                );
            } else {
                let mut cur_start: usize = 0;
                let mut cur_len: usize = 0;
                let mut best_start: usize = 0;
                let mut best_len: usize = 0;
                let mut i: usize = 0;
                while i < 8
                    invariant
                        i <= 8,
                        s@.len() == 8,
                        cur_start + cur_len <= i,
                        best_start + best_len <= 8,
                        zero_run_from(s@, 0, (0, 0), (0, 0)) == zero_run_from(
                            s@,
                            i as int,
                            (cur_start as int, cur_len as int),
                            (best_start as int, best_len as int),
                        ),
                    decreases 8 - i,
                {
                    if s[i] == 0 {
                        if cur_len == 0 {
                            cur_start = i;
                            cur_len = 1;
                        } else {
                            cur_len = cur_len + 1;
                        }
                        if cur_len > best_len {
                            best_start = cur_start;
                            best_len = cur_len;
                        }
                    } else {
                        cur_start = 0;
                        cur_len = 0;
                    }
                    i = i + 1;
                }
                if best_len > 1 {
                    push_segments(&mut out, s, 0, best_start);
                    push_str(&mut out, "::");
                    push_segments(&mut out, s, best_start + best_len, 8);
                    assert(s@.subrange(0, best_start as int) =~= s@.take(best_start as int));
                    assert(s@.subrange((best_start + best_len) as int, 8) =~= s@.skip(
                        (best_start + best_len) as int,
                    ));
                } else {
                    push_segments(&mut out, s, 0, 8);
                    assert(s@.subrange(0, 8) =~= s@);
                }
            }
        },
    }
    out
}

} // verus!
