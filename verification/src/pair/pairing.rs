//! The pairing bundle: the desktop's public key, the PSK, the LAN-only
//! endpoint and the fingerprint the user confirms on both devices.
//! Resolving the LAN address from the environment stands outside this crate.
use crate::codec::{hex_encode, hex_lower, sha3_256, sha3_256_of};
use crate::net::{IpAddress, ip_text, ip_text_spec, is_private_ip, is_private_ip_spec};
use crate::pair::PairError;
use crate::pair::wg::WgEndpoint;
use crate::sandbox::append_bytes;
use crate::text::{decimal, decimal_string, join, join_strings, push_str, strings_view, utf8_string};
use vstd::prelude::*;
use vstd::slice::{slice_subrange, slice_to_vec};
use vstd::string::StringSliceAdditionalSpecFns;
use vstd::utf8::*;

verus! {

pub struct PairingBundle {
    pub host_public_hex: String,
    pub psk_hex: String,
    /// `ip:port`, where `ip` is private or loopback.
    pub host_endpoint: String,
    /// SHA3-256 of `host_public ‖ psk`, which the mobile recomputes.
    pub fingerprint_sha3_256: String,
}

/// The fingerprint of an endpoint: SHA3-256 of the host public key followed
/// by the PSK, in hex.
pub open spec fn fingerprint(ep: WgEndpoint) -> Seq<char> {
    hex_lower(sha3_256(ep.host_public@ + ep.psk@))
}

/// Builds the bundle for `ep` published at `ip`; an address in no private
/// range is refused. The endpoint is the address's text, `:`, and the port.
pub fn build_bundle_with_ip(ep: &WgEndpoint, ip: IpAddress) -> (r: Result<PairingBundle, PairError>)
    ensures
        !is_private_ip_spec(ip) ==> (r matches Err(PairError::NotPrivate(t)) && t@ == ip_text_spec(
            ip,
        )),
        is_private_ip_spec(ip) ==> (r matches Ok(b) && {
            &&& b.host_public_hex@ == hex_lower(ep.host_public@)
            &&& b.psk_hex@ == hex_lower(ep.psk@)
            &&& b.host_endpoint@ == ip_text_spec(ip) + ":"@ + decimal(ep.bind_addr.port as nat)
            &&& b.fingerprint_sha3_256@ == fingerprint(*ep)
        }),
{
    let text = ip_text(&ip);
    if !is_private_ip(&ip) {
        return Err(PairError::NotPrivate(text));
    }
    let mut endpoint = text;
    push_str(&mut endpoint, ":");
    let port = decimal_string(ep.bind_addr.port as u64);
    push_str(&mut endpoint, port.as_str());
    let mut material: Vec<u8> = Vec::new();
    append_bytes(&mut material, &ep.host_public);
    append_bytes(&mut material, &ep.psk);
    let digest = sha3_256_of(material.as_slice());
    Ok(PairingBundle {
        host_public_hex: hex_encode(&ep.host_public),
        psk_hex: hex_encode(&ep.psk),
        host_endpoint: endpoint,
        fingerprint_sha3_256: hex_encode(&digest),
    })
}

/// The bytes in groups of eight (the last group may be shorter).
pub open spec fn chunks8(b: Seq<u8>) -> Seq<Seq<u8>>
    decreases b.len(),
{
    if b.len() == 0 {
        seq![]
    } else if b.len() <= 8 {
        seq![b]
    } else {
        seq![b.take(8)] + chunks8(b.skip(8))
    }
}

/// A group as text: its UTF-8 decoding, or nothing if it is not valid UTF-8.
pub open spec fn chunk_text(c: Seq<u8>) -> Seq<char> {
    if valid_utf8(c) {
        decode_utf8(c)
    } else {
        seq![]
    }
}

/// The fingerprint as the user sees it: groups of eight, space-separated.
pub open spec fn format_fingerprint_spec(hex: Seq<u8>) -> Seq<char> {
    join(chunks8(hex).map_values(|c: Seq<u8>| chunk_text(c)), " "@)
}

/// The `k`-th group of eight.
pub proof fn lemma_chunks8_index(b: Seq<u8>, k: int)
    requires
        0 <= k,
        8 * k < b.len(),
    ensures
        chunks8(b).len() > k,
        chunks8(b)[k] == b.subrange(8 * k, if 8 * k + 8 <= b.len() {
            8 * k + 8
        } else {
            b.len() as int
        }),
    decreases b.len(),
{
    if b.len() <= 8 {
        assert(b.subrange(0, b.len() as int) =~= b);
    } else if k == 0 {
        assert(b.take(8) =~= b.subrange(0, 8));
    } else {
        lemma_chunks8_index(b.skip(8), k - 1);
        assert(b.skip(8).subrange(8 * (k - 1), if 8 * (k - 1) + 8 <= b.skip(8).len() {
            8 * (k - 1) + 8
        } else {
            b.skip(8).len() as int
        }) =~= b.subrange(8 * k, if 8 * k + 8 <= b.len() {
            8 * k + 8
        } else {
            b.len() as int
        }));
    }
}

/// How many groups of eight there are.
pub proof fn lemma_chunks8_len(b: Seq<u8>)
    ensures
        chunks8(b).len() == (b.len() + 7) / 8,
    decreases b.len(),
{
    if b.len() > 8 {
        lemma_chunks8_len(b.skip(8));
    }
}

/// The fingerprint in groups of eight characters for the user to compare.
pub fn format_fingerprint(hex: &str) -> (s: String)
    ensures
        s@ == format_fingerprint_spec(hex.spec_bytes()),
{
    let b = hex.as_bytes();
    let n = b.len();
    let ghost cs = chunks8(b@);
    let ghost texts = cs.map_values(|c: Seq<u8>| chunk_text(c));
    proof {
        lemma_chunks8_len(b@);
    }
    let count = n / 8 + if n % 8 != 0 {
        1
    } else {
        0
    };
    assert(count == (n + 7) / 8);
    let mut parts: Vec<String> = Vec::new();
    let mut c: usize = 0;
    while c < count
        invariant
            n == b@.len(),
            cs == chunks8(b@),
            texts == cs.map_values(|c: Seq<u8>| chunk_text(c)),
            cs.len() == count,
            count == (n + 7) / 8,
            c <= count,
            parts@.len() == c,
            strings_view(parts@) == texts.take(c as int),
        decreases count - c,
    {
        let k = 8 * c;
        let end = if n - k >= 8 {
            k + 8
        } else {
            n
        };
        proof {
            lemma_chunks8_index(b@, c as int);
        }
        let chunk = slice_to_vec(slice_subrange(b, k, end));
        let piece = match utf8_string(chunk) {
            Some(t) => t,
            None => String::new(),
        };
        let ghost before = strings_view(parts@);
        parts.push(piece);
        assert(strings_view(parts@) =~= before.push(piece@));
        assert(texts.take(c as int).push(texts[c as int]) =~= texts.take(c as int + 1));
        c = c + 1;
    }
    assert(texts.take(c as int) =~= texts);
    join_strings(&parts, " ")
}

} // verus!
