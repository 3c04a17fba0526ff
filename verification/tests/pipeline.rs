use seck::pipeline::auditor::{AuditorOutput, auditor_prompt, verdict_flags, verdict_passed, AUDITOR_PROMPT};
use seck::pipeline::judge::{judge_prompt, read_verdict};
use seck::pipeline::{combine_paranoid, derive_pass_seed, raw_sha3, run, PassRole, PipelineConfig};
use seck::plugin::{BackendError, InferenceConfig, LlmBackend, Recorded};
use sha3::{Digest, Sha3_256};

#[test]
fn deterministic_distinct_per_role() {
    let nonce = [42u8; 32];
    let a = derive_pass_seed(&nonce, PassRole::Analyst);
    let b = derive_pass_seed(&nonce, PassRole::Analyst);
    assert_eq!(a, b);
    let c = derive_pass_seed(&nonce, PassRole::Auditor);
    assert_ne!(a, c);
    let d = derive_pass_seed(&nonce, PassRole::AuditorParanoid);
    assert_ne!(c, d);
    let e = derive_pass_seed(&nonce, PassRole::Judge);
    assert_ne!(a, e);
    assert_ne!(c, e);
    assert_ne!(d, e);
}

// ---- further cases ----

fn expected_seed(nonce: &[u8; 32], tag: &[u8]) -> u64 {
    let mut h = Sha3_256::new();
    h.update(nonce);
    h.update(tag);
    let out = h.finalize();
    u64::from_le_bytes(out[..8].try_into().unwrap())
}

#[test]
fn seed_is_le_prefix_of_sha3_of_nonce_and_tag() {
    let nonce = [7u8; 32];
    assert_eq!(derive_pass_seed(&nonce, PassRole::Analyst), expected_seed(&nonce, b"analyst"));
    assert_eq!(derive_pass_seed(&nonce, PassRole::Auditor), expected_seed(&nonce, b"auditor"));
    assert_eq!(
        derive_pass_seed(&nonce, PassRole::AuditorParanoid),
        expected_seed(&nonce, b"auditor-paranoid")
    );
    assert_eq!(derive_pass_seed(&nonce, PassRole::Judge), expected_seed(&nonce, b"judge"));
}

#[test]
fn raw_sha3_is_hex_of_digest() {
    let mut h = Sha3_256::new();
    h.update(b"abc");
    assert_eq!(raw_sha3("abc"), hex::encode(h.finalize()));
    assert_eq!(
        raw_sha3(""),
        "a7ffc6f8bf1ed76651c14756a061d662f580ff4de43b49fa82d80a4b80f8434a"
    );
}

#[test]
fn auditor_verdict_reads_first_line() {
    assert!(verdict_passed("NO\n{\"flags\":[]}"));
    assert!(verdict_passed("  no, nothing suspicious"));
    assert!(verdict_passed("Nope"));
    assert!(!verdict_passed("YES\nNO"));
    assert!(!verdict_passed(""));
    assert!(!verdict_passed("\nNO"));
    assert!(!verdict_passed("N"));
}

#[test]
fn auditor_flags_from_first_json_line() {
    let raw = "YES\nnot json\n{\"other\":1}\n{\"flags\":[\"url\", 3, \"imperative\"]}\n{\"flags\":[\"later\"]}";
    assert_eq!(verdict_flags(raw), vec!["url".to_string(), "imperative".to_string()]);
    assert!(verdict_flags("NO").is_empty());
    assert!(verdict_flags("{\"flags\": \"x\"}").is_empty());
}

#[test]
fn auditor_prompt_wraps_report() {
    let p = auditor_prompt("{}");
    assert_eq!(p, format!("{AUDITOR_PROMPT}\n\n--- BEGIN REPORT ---\n{{}}\n--- END REPORT ---"));
}

#[test]
fn judge_reads_verdict_and_justification() {
    let (v, j) = read_verdict("Agreement\n  both say the same  \nmore");
    assert_eq!(v, "agreement");
    assert_eq!(j, "both say the same");
    assert_eq!(read_verdict("DISAGREEMENT").0, "disagreement");
    assert_eq!(read_verdict("disagree").0, "disagreement");
    assert_eq!(read_verdict("escalate").0, "escalate");
    assert_eq!(read_verdict("").0, "escalate");
    assert_eq!(read_verdict("").1, "");
    assert_eq!(read_verdict("dis agree").0, "escalate");
}

#[test]
fn judge_prompt_replaces_placeholders_in_order() {
    let p = judge_prompt("A says {AUDITOR}", "B");
    assert!(p.contains("ANALYST OUTPUT:\n---\nA says B\n---"));
    assert!(p.contains("AUDITOR OUTPUT:\n---\nB\n---"));
    assert!(!p.contains("{ANALYST}"));
}

struct Scripted {
    answers: Vec<String>,
    loaded: Vec<(u64, u32)>,
    prompts: Vec<String>,
}

impl LlmBackend for Scripted {
    fn name(&self) -> &'static str {
        "scripted"
    }
    fn load(&mut self, cfg: &InferenceConfig) -> Result<(), BackendError> {
        self.loaded.push((cfg.seed, cfg.temperature_bits));
        Ok(())
    }
    fn generate(&mut self, prompt: &str) -> Result<String, BackendError> {
        self.prompts.push(prompt.to_string());
        if self.answers.is_empty() {
            return Err(BackendError::Generation("no more answers".into()));
        }
        Ok(self.answers.remove(0))
    }
}

fn scripted(answers: &[&str]) -> Scripted {
    Scripted { answers: answers.iter().map(|s| s.to_string()).collect(), loaded: vec![], prompts: vec![] }
}

fn cfg() -> InferenceConfig {
    InferenceConfig {
        model_path: "m".into(),
        temperature_bits: 0.7f32.to_bits(),
        seed: 1,
        max_tokens: 16,
        context_window: 64,
    }
}

#[test]
fn pipeline_full_run() {
    let nonce = [3u8; 32];
    let mut b = Recorded::new(scripted(&["{\"findings\":[]}", "NO\n{\"flags\":[\"a\"]}", "agreement\nfine"]));
    let r = run(&mut b, &cfg(), &nonce, "P", PipelineConfig { paranoid: false, lenient: false }).unwrap();
    assert!(!r.analyst_surfaced_raw);
    assert!(r.auditor_passed);
    assert_eq!(r.auditor_flags, vec!["a".to_string()]);
    assert_eq!(r.judge_verdict, "agreement");
    assert_eq!(r.findings_json["findings"], serde_json::Value::Array(vec![]));
    assert_eq!(
        b.backend().loaded,
        vec![
            (derive_pass_seed(&nonce, PassRole::Analyst), 0),
            (derive_pass_seed(&nonce, PassRole::Auditor), 0),
            (derive_pass_seed(&nonce, PassRole::Judge), 0)
        ]
    );
    assert_eq!(b.backend().prompts[0], "P");
}

#[test]
fn pipeline_retries_then_surfaces_raw() {
    let mut b = Recorded::new(scripted(&["not json", "still not", "NO", "agreement"]));
    let r = run(&mut b, &cfg(), &[0u8; 32], "P", PipelineConfig { paranoid: false, lenient: false }).unwrap();
    assert!(r.analyst_surfaced_raw);
    assert_eq!(r.analyst_raw, "not json");
    let expected: serde_json::Value = serde_json::from_str("{\"raw\":\"still not\"}").unwrap();
    assert_eq!(r.findings_json, expected);
    assert!(b.backend().prompts[1].starts_with("P\n\nIMPORTANT: Your previous response was not valid JSON"));
}

#[test]
fn pipeline_lenient_skips_audit() {
    let mut b = Recorded::new(scripted(&["{\"findings\":[1]}"]));
    let r = run(&mut b, &cfg(), &[0u8; 32], "P", PipelineConfig { paranoid: true, lenient: true }).unwrap();
    assert!(r.auditor_passed);
    assert!(r.auditor_flags.is_empty());
    assert_eq!(r.auditor_raw, "(skipped: lenient mode)");
    assert_eq!(r.judge_verdict, "skipped");
    assert_eq!(r.judge_raw, "(skipped: lenient mode)");
    assert_eq!(b.backend().prompts.len(), 1);
}

#[test]
fn pipeline_paranoid_needs_both_auditors() {
    let mut b = Recorded::new(scripted(&["{\"findings\":[]}", "NO\n{\"flags\":[\"x\"]}", "YES\n{\"flags\":[\"y\"]}", "disagreement"]));
    let r = run(&mut b, &cfg(), &[1u8; 32], "P", PipelineConfig { paranoid: true, lenient: false }).unwrap();
    assert!(!r.auditor_passed);
    assert_eq!(r.auditor_flags, vec!["x".to_string(), "y".to_string()]);
    assert_eq!(r.auditor_raw, "--- pass1 ---\nNO\n{\"flags\":[\"x\"]}\n--- pass2 ---\nYES\n{\"flags\":[\"y\"]}");
    assert_eq!(r.judge_verdict, "disagreement");
    assert_eq!(b.backend().loaded[2].0, derive_pass_seed(&[1u8; 32], PassRole::AuditorParanoid));
}

#[test]
fn pipeline_backend_error_propagates() {
    let mut b = Recorded::new(scripted(&["{\"findings\":[]}"]));
    assert!(run(&mut b, &cfg(), &[0u8; 32], "P", PipelineConfig { paranoid: false, lenient: false }).is_err());
}

#[test]
fn combine_paranoid_passes_when_both_pass() {
    let a = AuditorOutput { passed: true, flags: vec![], raw: "a".into() };
    let b = AuditorOutput { passed: true, flags: vec!["f".into()], raw: "b".into() };
    let c = combine_paranoid(a, b);
    assert!(c.passed);
    assert_eq!(c.flags, vec!["f".to_string()]);
    assert_eq!(c.raw, "--- pass1 ---\na\n--- pass2 ---\nb");
}


#[test]
fn judge_sees_report_then_audit() {
    let mut b = Recorded::new(scripted(&["{\"findings\":[]}", "NO", "agreement"]));
    run(&mut b, &cfg(), &[2u8; 32], "P", PipelineConfig { paranoid: false, lenient: false }).unwrap();
    assert_eq!(b.backend().prompts[1], auditor_prompt("{\"findings\":[]}"));
    assert_eq!(b.backend().prompts[2], judge_prompt("{\"findings\":[]}", "NO"));
}

#[test]
fn pipeline_retry_that_parses_is_kept() {
    let mut b = Recorded::new(scripted(&["prose", "{\"findings\":[2]}"]));
    let r = run(&mut b, &cfg(), &[4u8; 32], "P", PipelineConfig { paranoid: false, lenient: true }).unwrap();
    assert!(!r.analyst_surfaced_raw);
    assert_eq!(r.analyst_raw, "prose");
    let expected: serde_json::Value = serde_json::from_str("{\"findings\":[2]}").unwrap();
    assert_eq!(r.findings_json, expected);
    assert_eq!(b.backend().prompts.len(), 2);
}
