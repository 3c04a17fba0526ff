use seck::report::schema::{Attestation, Finding, Input, Invocation, Report};
use seck::tui::{file_lines, finding_lines, meta_lines, safe_line, AppState, Key};

fn report(n: usize) -> Report {
    Report {
        version: "0.1.0".into(),
        invocation: Invocation {
            nonce_sha3_256: "0".repeat(64),
            started_at: "".into(),
            finished_at: "".into(),
            sandbox_mode: "A".into(),
            backend: "stub".into(),
            model: "".into(),
            model_sha3_256: "".into(),
            temperature_bits: 0.0f32.to_bits(),
            seed: 1,
            deterministic: true,
        },
        inputs: vec![Input { path: "x\u{202e}y".into(), sha3_256: "".into(), size: 0, kind: "text".into() }],
        findings: (0..n)
            .map(|i| Finding {
                id: format!("F{i}"),
                summary: format!("s{i}"),
                files: vec![],
                category: "note".into(),
                confidence: "low".into(),
                evidence_quote: "q\x1b[1m".into(),
            })
            .collect(),
        sandbox_attestation: Attestation {
            platform: "x".into(),
            sandbox_mode: "A".into(),
            profile_sha3_256: "0".repeat(64),
            binary_sha3_256: "".into(),
        },
    }
}

#[test]
fn state_constructs_and_navigates() {
    let mut s = AppState::new(report(0));
    assert_eq!(s.selected, 0);
    s.selected = s.selected.saturating_sub(1);
    assert_eq!(s.selected, 0);
}

#[test]
fn safe_line_strips_ansi() {
    let l = safe_line("\x1b[31mred\x1b[0m");
    let s = format!("{:?}", l);
    assert!(!s.contains("\x1b"), "ANSI escape NOT in line: {s}");
}

// ---- further cases ----

#[test]
fn keys_move_within_findings() {
    let mut s = AppState::new(report(3));
    assert!(!s.handle_key(Key::Down));
    assert!(!s.handle_key(Key::Down));
    assert!(!s.handle_key(Key::Down));
    assert_eq!(s.selected, 2);
    s.handle_key(Key::Top);
    assert_eq!(s.selected, 0);
    s.handle_key(Key::Up);
    assert_eq!(s.selected, 0);
    s.handle_key(Key::Bottom);
    assert_eq!(s.selected, 2);
    s.handle_key(Key::Up);
    assert_eq!(s.selected, 1);
    s.handle_key(Key::Other);
    assert_eq!(s.selected, 1);
    assert!(s.handle_key(Key::Quit));
}

#[test]
fn bottom_of_empty_report_is_top() {
    let mut s = AppState::new(report(0));
    s.handle_key(Key::Bottom);
    assert_eq!(s.selected, 0);
    s.handle_key(Key::Enter);
    assert!(s.expanded.is_empty());
    let mut d = AppState::default();
    d.handle_key(Key::Down);
    assert_eq!(d.selected, 0);
}

#[test]
fn enter_toggles_expansion() {
    let mut s = AppState::new(report(2));
    s.handle_key(Key::Down);
    s.handle_key(Key::Enter);
    assert_eq!(s.expanded, vec!["F1".to_string()]);
    assert!(s.is_expanded("F1"));
    let lines = finding_lines(s.report.as_ref().unwrap(), &s);
    assert_eq!(lines, vec!["  [F0] s0", "\u{25b6} [F1] s1", "    note/low \u{2014} q"]);
    s.handle_key(Key::Enter);
    assert!(s.expanded.is_empty());
    assert_eq!(finding_lines(s.report.as_ref().unwrap(), &s).len(), 2);
}

#[test]
fn panes_are_sanitized() {
    let r = report(1);
    assert_eq!(file_lines(&r), vec!["xy"]);
    assert_eq!(meta_lines(&r, "0"), vec!["sandbox: A", "backend: stub", "temp: 0", "deterministic: true"]);
}
