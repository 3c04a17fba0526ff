use seck::net::{IpAddress, SocketAddress};
use seck::report::schema::{Attestation, Finding, Input, Invocation, Report};
use seck::web::bind::{check_bind, BindError};
use seck::web::render::render;
use seck::web::page::{report_page, security_header_list};
use seck::web::token::TokenStore;

/// The library's bind check on the addresses these tests use, given as the
/// plain values that a parse of the text yields.
fn resolve_bind(s: &str) -> Result<SocketAddress, BindError> {
    let (ip, port) = match s {
        "0.0.0.0:0" => (IpAddress::V4([0, 0, 0, 0]), 0),
        "192.168.1.1:0" => (IpAddress::V4([192, 168, 1, 1]), 0),
        "8.8.8.8:0" => (IpAddress::V4([8, 8, 8, 8]), 0),
        "127.0.0.1:0" => (IpAddress::V4([127, 0, 0, 1]), 0),
        "[::1]:0" => (IpAddress::V6([0, 0, 0, 0, 0, 0, 0, 1]), 0),
        "[::]:0" => (IpAddress::V6([0; 8]), 0),
        "10.0.0.1:0" => (IpAddress::V4([10, 0, 0, 1]), 0),
        "10.0.0.1:8080" => (IpAddress::V4([10, 0, 0, 1]), 8080),
        "127.255.0.9:1" => (IpAddress::V4([127, 255, 0, 9]), 1),
        _ => return Err(BindError::Parse("invalid socket address syntax".to_string())),
    };
    check_bind(SocketAddress { ip, port }, s.to_string())
}

fn report(summary: &str, with_input: bool) -> Report {
    Report {
        version: "0.1.0".into(),
        invocation: Invocation {
            nonce_sha3_256: "0".repeat(64),
            started_at: "".into(),
            finished_at: "".into(),
            sandbox_mode: "A".into(),
            backend: "stub".into(),
            model: "(none)".into(),
            model_sha3_256: "".into(),
            temperature_bits: 0.0f32.to_bits(),
            seed: 1,
            deterministic: true,
        },
        inputs: if with_input {
            vec![Input { path: "x".into(), sha3_256: "0".repeat(64), size: 0, kind: "text".into() }]
        } else {
            vec![]
        },
        findings: vec![Finding {
            id: "F1".into(),
            summary: summary.into(),
            files: if with_input { vec!["x".into()] } else { vec![] },
            category: "note".into(),
            confidence: "low".into(),
            evidence_quote: "".into(),
        }],
        sandbox_attestation: Attestation {
            platform: "x".into(),
            sandbox_mode: "A".into(),
            profile_sha3_256: "0".repeat(64),
            binary_sha3_256: "".into(),
        },
    }
}

#[test]
fn bind_refuses_non_loopback() {
    assert!(resolve_bind("0.0.0.0:0").is_err());
    assert!(resolve_bind("192.168.1.1:0").is_err());
    assert!(resolve_bind("8.8.8.8:0").is_err());
}

#[test]
fn token_rotates_after_use() {
    let mut s = TokenStore::new();
    let t = s.current_token();
    assert!(s.check_and_rotate(&t));
    assert!(!s.check_and_rotate(&t));
}

#[test]
fn rendered_html_contains_no_js() {
    let html = render(&report("test", true));
    assert!(!html.contains("<script"), "no JS in output");
    assert!(!html.contains("javascript:"), "no javascript: URLs");
    assert!(!html.contains("on") || !html.contains("onclick"), "no inline event handlers");
}

#[test]
fn html_escapes_injection_attempt() {
    let html = render(&report("<script>alert(1)</script>", false));
    assert!(!html.contains("<script>alert"), "raw injection NOT rendered");
    assert!(html.contains("&lt;script&gt;"), "injection HTML-escaped");
}

#[test]
fn explicit_loopback_ok() {
    let r = resolve_bind("127.0.0.1:0").unwrap();
    assert_eq!(r.ip, IpAddress::V4([127, 0, 0, 1]));
}

#[test]
fn ipv6_localhost_ok() {
    let r = resolve_bind("[::1]:0").unwrap();
    assert!(seck::net::is_loopback(&r.ip));
}

#[test]
fn refuses_0_0_0_0() {
    assert!(matches!(resolve_bind("0.0.0.0:0"), Err(BindError::NotLoopback(_))));
}

#[test]
fn refuses_ipv6_unspecified() {
    assert!(matches!(resolve_bind("[::]:0"), Err(BindError::NotLoopback(_))));
}

#[test]
fn refuses_lan() {
    assert!(matches!(resolve_bind("192.168.1.1:0"), Err(BindError::NotLoopback(_))));
    assert!(matches!(resolve_bind("10.0.0.1:0"), Err(BindError::NotLoopback(_))));
}

#[test]
fn refuses_public() {
    assert!(matches!(resolve_bind("8.8.8.8:0"), Err(BindError::NotLoopback(_))));
}

#[test]
fn first_use_succeeds_then_rotates() {
    let mut s = TokenStore::new();
    let t = s.current_token();
    assert!(s.check_and_rotate(&t));
    assert!(!s.check_and_rotate(&t));
}

#[test]
fn wrong_token_refused_and_does_not_rotate() {
    let mut s = TokenStore::new();
    let t = s.current_token();
    assert!(!s.check_and_rotate("not-the-token"));
    assert!(s.check_and_rotate(&t));
}

// ---- further cases ----

#[test]
fn token_is_64_lowercase_hex() {
    let mut s = TokenStore::default();
    for _ in 0..3 {
        let t = s.current_token();
        assert_eq!(t.len(), 64);
        assert!(t.chars().all(|c| c.is_ascii_digit() || ('a'..='f').contains(&c)));
        assert!(s.check_and_rotate(&t));
    }
}

#[test]
fn not_loopback_error_carries_display_text() {
    match resolve_bind("10.0.0.1:8080") {
        Err(BindError::NotLoopback(t)) => assert_eq!(t, "10.0.0.1:8080"),
        _ => panic!("expected NotLoopback"),
    }
    assert!(matches!(resolve_bind("not an address"), Err(BindError::Parse(_))));
    assert!(resolve_bind("127.255.0.9:1").is_ok());
}

#[test]
fn html_has_exact_input_and_finding_markup() {
    let html = render(&report("a & b > c", true));
    assert!(html.starts_with("<!doctype html>\n"));
    assert!(html.contains("<h1>seck report — (none)</h1>\n"));
    assert!(html.contains("<p>sandbox: <code>A</code> · backend: <code>stub</code> · deterministic</p>\n"));
    assert!(html.contains(&format!("<h2>Inputs (1)</h2>\n<ul><li>x <code>{}</code> (0 bytes)</li></ul>\n", "0".repeat(64))));
    assert!(html.contains("<div class=\"finding\"><strong>[F1]</strong> a &amp; b &gt; c<p><span class=\"badge\">note</span> <span class=\"badge\">low</span></p><pre></pre></div>"));
    assert!(html.ends_with("</body></html>\n"));
}

#[test]
fn html_strips_terminal_escapes_too() {
    let html = render(&report("\x1b[31mred\u{202e}", false));
    assert!(html.contains("</strong> red<p>"));
}

#[test]
fn report_page_serves_once_per_token() {
    let r = report("x", false);
    let mut s = TokenStore::new();
    let t = s.current_token();
    assert!(report_page(&mut s, &r, "wrong").is_none());
    assert_eq!(s.current_token(), t);
    assert_eq!(report_page(&mut s, &r, &t), Some(render(&r)));
    assert_ne!(s.current_token(), t);
    assert!(report_page(&mut s, &r, &t).is_none());
}

#[test]
fn security_headers_are_strict() {
    let h = security_header_list();
    assert_eq!(h.len(), 7);
    assert_eq!(
        h[0],
        (
            "content-security-policy",
            "default-src 'none'; style-src 'self' 'unsafe-inline'; img-src 'self' data:; script-src 'none'; frame-ancestors 'none';"
        )
    );
    assert!(h.contains(&("x-frame-options", "DENY")));
    assert!(h.contains(&("cache-control", "no-store, max-age=0")));
    assert!(h.contains(&("referrer-policy", "no-referrer")));
    assert!(h.contains(&("x-content-type-options", "nosniff")));
}
