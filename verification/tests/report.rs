use seck::report::renderer::render_terminal;
use seck::report::sanitize::sanitize;
use seck::report::schema::{Attestation, Finding, Invocation, Report};

#[test]
fn strips_ansi_csi() {
    let input = "hello\x1b[31mworld\x1b[0m";
    assert_eq!(sanitize(input), "helloworld");
}

#[test]
fn strips_osc_8_hyperlinks() {
    let input = "\x1b]8;;http://evil/\x07click here\x1b]8;;\x07";
    assert_eq!(sanitize(input), "click here");
}

#[test]
fn strips_bidi_overrides() {
    let input = "good\u{202e}drowssap\u{202c}";
    let out = sanitize(input);
    assert!(!out.contains('\u{202e}'));
    assert!(!out.contains('\u{202c}'));
    assert_eq!(out, "gooddrowssap");
}

#[test]
fn strips_zero_width() {
    let input = "ab\u{200b}c\u{200d}d";
    let out = sanitize(input);
    assert!(!out.contains('\u{200b}'));
    assert!(!out.contains('\u{200d}'));
    assert_eq!(out, "abcd");
}

#[test]
fn preserves_newline_and_tab() {
    let input = "line1\nline2\tcol2";
    assert_eq!(sanitize(input), "line1\nline2\tcol2");
}

#[test]
fn strips_other_controls() {
    let input = "a\x07b\x08c";
    assert_eq!(sanitize(input), "abc");
}

#[test]
fn strips_st_terminated_osc() {
    let input = "\x1b]0;title\x1b\\after";
    assert_eq!(sanitize(input), "after");
}

// ---- further cases ----

#[test]
fn sanitize_is_idempotent_on_examples() {
    for s in ["a\x1b[1mb", "\u{202e}x\u{feff}", "plain text \u{00e9}", "\x1b]0;t\x07z", "\x1b"] {
        let once = sanitize(s);
        assert_eq!(sanitize(&once), once);
    }
}

#[test]
fn output_has_no_forbidden_chars() {
    let s = "\u{0}\u{1f}\u{7f}\u{85}\u{9f}\u{2066}\u{2069}\u{200c}ok\t\n";
    let out = sanitize(s);
    assert_eq!(out, "ok\t\n");
    for c in out.chars() {
        assert!(c == '\n' || c == '\t' || !c.is_control());
    }
}

#[test]
fn unterminated_sequences_swallow_the_rest() {
    assert_eq!(sanitize("a\x1b[123"), "a");
    assert_eq!(sanitize("a\x1b]title"), "a");
    assert_eq!(sanitize("a\x1b]x\x1b"), "a");
    assert_eq!(sanitize("a\x1bb"), "ab");
    assert_eq!(sanitize("\x1b[~x"), "x");
}

#[test]
fn terminal_rendering_sanitizes_every_field() {
    let r = Report {
        version: "0.1\x1b[31m".into(),
        invocation: Invocation {
            nonce_sha3_256: "".into(),
            started_at: "".into(),
            finished_at: "".into(),
            sandbox_mode: "A\u{202e}".into(),
            backend: "st\x07ub".into(),
            model: "m".into(),
            model_sha3_256: "".into(),
            temperature_bits: 0,
            seed: 1,
            deterministic: true,
        },
        inputs: vec![],
        findings: vec![Finding {
            id: "F\u{200b}1".into(),
            summary: "s".into(),
            files: vec!["a\x1b]0;t\x07".into(), "b".into()],
            category: "no\x08te".into(),
            confidence: "lo\u{2066}w".into(),
            evidence_quote: "q".into(),
        }],
        sandbox_attestation: Attestation {
            platform: "".into(),
            sandbox_mode: "".into(),
            profile_sha3_256: "".into(),
            binary_sha3_256: "".into(),
        },
    };
    let out = render_terminal(&r);
    assert_eq!(
        out,
        "seck v0.1 \u{2014} sandbox A \u{2014} backend stub \u{2014} model m\ninputs: 0 files\n\nfindings:\n  [F1] s (note/low)\n    files: a, b\n    quote: q\n"
    );
}
