use seck::net::{ip_text, IpAddress, SocketAddress};
use seck::pair::pairing::{build_bundle_with_ip, format_fingerprint};
use seck::pair::qr::{render, try_render};
use seck::pair::wg::WgEndpoint;
use seck::pair::PairError;
use sha3::{Digest, Sha3_256};

fn ep() -> WgEndpoint {
    WgEndpoint::new_random(SocketAddress { ip: IpAddress::V4([127, 0, 0, 1]), port: 51820 })
}

/// The addresses these tests use, as the library's plain values with their
/// display text.
fn ip(s: &str) -> (IpAddress, String) {
    let m = match s {
        "127.0.0.1" => IpAddress::V4([127, 0, 0, 1]),
        "8.8.8.8" => IpAddress::V4([8, 8, 8, 8]),
        "1.1.1.1" => IpAddress::V4([1, 1, 1, 1]),
        "192.168.1.5" => IpAddress::V4([192, 168, 1, 5]),
        "10.0.0.5" => IpAddress::V4([10, 0, 0, 5]),
        "172.16.0.1" => IpAddress::V4([172, 16, 0, 1]),
        "100.64.0.1" => IpAddress::V4([100, 64, 0, 1]),
        "100.127.255.255" => IpAddress::V4([100, 127, 255, 255]),
        "169.254.1.1" => IpAddress::V4([169, 254, 1, 1]),
        "172.31.255.255" => IpAddress::V4([172, 31, 255, 255]),
        "127.8.8.8" => IpAddress::V4([127, 8, 8, 8]),
        "100.128.0.1" => IpAddress::V4([100, 128, 0, 1]),
        "172.32.0.1" => IpAddress::V4([172, 32, 0, 1]),
        "172.15.0.1" => IpAddress::V4([172, 15, 0, 1]),
        "11.0.0.1" => IpAddress::V4([11, 0, 0, 1]),
        "2606:4700:4700::1111" => IpAddress::V6([0x2606, 0x4700, 0x4700, 0, 0, 0, 0, 0x1111]),
        "fd00::1" => IpAddress::V6([0xfd00, 0, 0, 0, 0, 0, 0, 1]),
        "::1" => IpAddress::V6([0, 0, 0, 0, 0, 0, 0, 1]),
        "fc00::1" => IpAddress::V6([0xfc00, 0, 0, 0, 0, 0, 0, 1]),
        "fe80::1" => IpAddress::V6([0xfe80, 0, 0, 0, 0, 0, 0, 1]),
        "::" => IpAddress::V6([0; 8]),
        _ => panic!("address not in the table: {s}"),
    };
    (m, s.to_string())
}

fn bundle(e: &WgEndpoint, s: &str) -> Result<seck::pair::pairing::PairingBundle, PairError> {
    let (m, _) = ip(s);
    build_bundle_with_ip(e, m)
}

#[test]
fn builds_bundle_on_loopback() {
    let b = bundle(&ep(), "127.0.0.1").unwrap();
    assert!(b.host_endpoint.starts_with("127.0.0.1:"));
    assert_eq!(b.fingerprint_sha3_256.len(), 64);
}

#[test]
fn refuses_public_ip() {
    assert!(bundle(&ep(), "8.8.8.8").is_err());
    assert!(bundle(&ep(), "1.1.1.1").is_err());
    assert!(bundle(&ep(), "2606:4700:4700::1111").is_err());
}

#[test]
fn accepts_rfc1918() {
    assert!(bundle(&ep(), "192.168.1.5").is_ok());
    assert!(bundle(&ep(), "10.0.0.5").is_ok());
    assert!(bundle(&ep(), "172.16.0.1").is_ok());
}

#[test]
fn accepts_unique_local_ipv6() {
    assert!(bundle(&ep(), "fd00::1").is_ok());
}

#[test]
fn fingerprint_is_deterministic_per_endpoint() {
    let e = ep();
    let a = bundle(&e, "10.0.0.5").unwrap().fingerprint_sha3_256;
    let b = bundle(&e, "10.0.0.5").unwrap().fingerprint_sha3_256;
    assert_eq!(a, b);
}

#[test]
fn fingerprint_changes_per_endpoint() {
    let a = bundle(&ep(), "10.0.0.5").unwrap().fingerprint_sha3_256;
    let b = bundle(&ep(), "10.0.0.5").unwrap().fingerprint_sha3_256;
    assert_ne!(a, b);
}

#[test]
fn fingerprint_groups_to_8x8() {
    let f = format_fingerprint(&"a".repeat(64));
    assert_eq!(f.split(' ').count(), 8);
}

#[test]
fn renders_non_empty() {
    let q = render("test");
    assert!(!q.is_empty());
}

#[test]
fn renders_json_bundle() {
    let q = render(
        r#"{"host_public_hex":"aa..","psk_hex":"bb..","host_endpoint":"127.0.0.1:51820"}"#,
    );
    assert!(q.lines().count() > 4);
}

#[test]
fn distinct_keypairs() {
    let a = ep();
    let b = ep();
    assert_ne!(a.host_public, b.host_public);
    assert_ne!(a.psk, b.psk);
}

#[test]
fn refuses_zero_peer() {
    let mut e = ep();
    assert!(e.set_peer([0u8; 32]).is_err());
    assert!(!e.is_paired());
}

#[test]
fn refuses_repair_without_recreate() {
    let mut e = ep();
    e.set_peer([1u8; 32]).unwrap();
    assert!(e.set_peer([2u8; 32]).is_err());
}

// ---- further cases ----

#[test]
fn bundle_fields_are_exact() {
    let e = ep();
    let b = bundle(&e, "fd00::1").unwrap();
    assert_eq!(b.host_endpoint, "fd00::1:51820");
    assert_eq!(b.host_public_hex, hex::encode(e.host_public));
    assert_eq!(b.psk_hex, hex::encode(e.psk));
    let mut h = Sha3_256::new();
    h.update(e.host_public);
    h.update(e.psk);
    assert_eq!(b.fingerprint_sha3_256, hex::encode(h.finalize()));
    let pk = x25519_dalek::PublicKey::from(&x25519_dalek::StaticSecret::from(e.host_private));
    assert_eq!(pk.to_bytes(), e.host_public);
}

#[test]
fn private_ranges_edges() {
    for ok in ["100.64.0.1", "100.127.255.255", "172.31.255.255", "127.8.8.8", "::1", "fc00::1"] {
        assert!(bundle(&ep(), ok).is_ok(), "{ok}");
    }
    for no in ["169.254.1.1", "100.128.0.1", "172.32.0.1", "172.15.0.1", "11.0.0.1", "fe80::1", "::"] {
        assert!(matches!(bundle(&ep(), no), Err(PairError::NotPrivate(t)) if t == no), "{no}");
    }
}

#[test]
fn set_peer_then_paired() {
    let mut e = ep();
    let before = e.host_public;
    assert!(!e.is_paired());
    assert!(e.set_peer([7u8; 32]).is_ok());
    assert!(e.is_paired());
    assert_eq!(e.peer_public, [7u8; 32]);
    assert!(matches!(e.set_peer([9u8; 32]), Err(PairError::AlreadyPaired)));
    assert_eq!(e.peer_public, [7u8; 32]);
    assert_eq!(e.host_public, before);
}

#[test]
fn fingerprint_formatting_exact() {
    assert_eq!(format_fingerprint("0123456789abcdefXY"), "01234567 89abcdef XY");
    assert_eq!(format_fingerprint(""), "");
    // A group that splits a multi-byte character is shown empty.
    assert_eq!(format_fingerprint("aaaaaaa\u{e9}b"), " ");
}

#[test]
fn qr_refuses_oversized_text() {
    assert!(try_render(&"x".repeat(5000)).is_none());
    assert_eq!(try_render("test").unwrap(), render("test"));
}

#[test]
fn address_text_as_displayed() {
    for t in [
        "127.0.0.1", "8.8.8.8", "192.168.1.5", "172.31.255.255", "2606:4700:4700::1111", "fd00::1", "::1",
        "fe80::1", "::",
    ] {
        let (m, shown) = ip(t);
        assert_eq!(ip_text(&m), shown);
    }
    assert_eq!(ip_text(&IpAddress::V6([0x2001, 0xdb8, 0, 0, 1, 0, 0, 1])), "2001:db8::1:0:0:1");
    assert_eq!(ip_text(&IpAddress::V6([1, 0, 1, 0, 1, 0, 1, 0])), "1:0:1:0:1:0:1:0");
    assert_eq!(ip_text(&IpAddress::V6([0, 0, 0, 0, 0, 0xffff, 0x0102, 0x0304])), "::ffff:1.2.3.4");
    assert_eq!(ip_text(&IpAddress::V6([0xabcd, 0, 0, 0, 0, 0, 0, 0])), "abcd::");
}
