//! Three-pass pipeline: analyst, auditor (twice in paranoid mode), judge.
//! Each pass runs with its own seed, derived from SHA3-256(invocation
//! nonce || role tag).
pub mod analyst;
pub mod auditor;
pub mod judge;
pub mod seed;

use crate::json::{array_member, json_array_member, json_object, json_value, object_with, parse_value};
use crate::codec::{hex_encode, hex_lower, sha3_256, sha3_256_of};
use crate::plugin::{BackendAnswer, BackendError, BackendRequest, InferenceConfig, LlmBackend, Recorded};
use crate::text::{push_str, strings_view};
use analyst::pass_requests;
use auditor::{AuditorOutput, auditor_flags, auditor_passed, auditor_prompt_spec};
use judge::{judge_prompt_spec, judge_verdict};
use vstd::prelude::*;
use vstd::utf8::encode_utf8;

pub use seed::{PassRole, derive_pass_seed};

verus! {

#[derive(Debug, Clone, Copy)]
pub struct PipelineConfig {
    pub paranoid: bool,
    pub lenient: bool,
}

pub struct PipelineResult {
    pub analyst_raw: String,
    pub auditor_passed: bool,
    pub auditor_flags: Vec<String>,
    pub auditor_raw: String,
    pub judge_verdict: String,
    pub judge_raw: String,
    pub findings_json: serde_json::Value,
    pub analyst_surfaced_raw: bool,
}

/// The analyst's output is usable: JSON with an array under `findings`.
pub open spec fn findings_ok(s: Seq<char>) -> bool {
    json_array_member(s, "findings"@) is Some
}

/// The parsed analyst output when it is JSON with a `findings` array.
pub fn parse_findings(s: &str) -> (r: Option<serde_json::Value>)
    ensures
        r is Some == findings_ok(s@),
        r matches Some(v) ==> v == json_value(s@),
{
    match array_member(s, "findings") {
        Some(_) => parse_value(s),
        None => None,
    }
}

/// The two auditor answers of paranoid mode, one after the other.
pub open spec fn paranoid_raw(first: Seq<char>, second: Seq<char>) -> Seq<char> {
    "--- pass1 ---\n"@ + first + "\n--- pass2 ---\n"@ + second
}

/// Paranoid mode's audit: it passes only when both auditors pass (they
/// agree, and the first passed); the flags of both, in order; both answers.
pub fn combine_paranoid(first: AuditorOutput, second: AuditorOutput) -> (c: AuditorOutput)
    ensures
        c.passed == (first.passed && second.passed),
        strings_view(c.flags@) == strings_view(first.flags@) + strings_view(second.flags@),
        c.raw@ == paranoid_raw(first.raw@, second.raw@),
{
    let agreement = first.passed == second.passed;
    let mut flags = first.flags;
    let mut rest = second.flags;
    let ghost f1 = flags@;
    let ghost f2 = rest@;
    flags.append(&mut rest);
    assert(strings_view(flags@) =~= strings_view(f1) + strings_view(f2));
    let mut raw = String::new();
    push_str(&mut raw, "--- pass1 ---\n");
    push_str(&mut raw, first.raw.as_str());
    push_str(&mut raw, "\n--- pass2 ---\n");
    push_str(&mut raw, second.raw.as_str());
    AuditorOutput { passed: agreement && first.passed, flags, raw }
}

/// The analyst prompt, tightened for a second attempt.
pub open spec fn tighter_prompt_spec(prompt: Seq<char>) -> Seq<char> {
    prompt
        + "\n\nIMPORTANT: Your previous response was not valid JSON matching the required schema. Output ONLY valid JSON, nothing else, with a 'findings' array."@
}

fn tighter_prompt(prompt: &str) -> (p: String)
    ensures
        p@ == tighter_prompt_spec(prompt@),
{
    let mut p = String::new();
    push_str(&mut p, prompt);
    push_str(
        &mut p,
        "\n\nIMPORTANT: Your previous response was not valid JSON matching the required schema. Output ONLY valid JSON, nothing else, with a 'findings' array.",
    );
    p
}

/// The requests that a successful run makes, in order: the analyst pass;
/// a second analyst pass with the tighter prompt when the first output is
/// not JSON with a `findings` array; then, unless lenient, the auditor pass
/// over the analyst's output (a second one with its own seed in paranoid
/// mode) and the judge pass over the analyst's output and the audit.
pub open spec fn pipeline_requests(
    cfg: InferenceConfig,
    nonce: Seq<u8>,
    prompt: Seq<char>,
    pcfg: PipelineConfig,
    analyst_raw: Seq<char>,
    auditor_raw: Seq<char>,
) -> Seq<BackendRequest> {
    pass_requests(cfg, nonce, PassRole::Analyst, prompt) + (if findings_ok(analyst_raw) {
        seq![]
    } else {
        pass_requests(cfg, nonce, PassRole::Analyst, tighter_prompt_spec(prompt))
    }) + (if pcfg.lenient {
        seq![]
    } else {
        pass_requests(cfg, nonce, PassRole::Auditor, auditor_prompt_spec(analyst_raw)) + (
        if pcfg.paranoid {
            pass_requests(cfg, nonce, PassRole::AuditorParanoid, auditor_prompt_spec(analyst_raw))
        } else {
            seq![]
        }) + pass_requests(cfg, nonce, PassRole::Judge, judge_prompt_spec(analyst_raw, auditor_raw))
    })
}

/// The text of the `i`-th answer when it is generated text; else empty.
pub open spec fn answer_text(d: Seq<BackendAnswer>, i: int) -> Seq<char> {
    if 0 <= i < d.len() {
        match d[i] {
            BackendAnswer::Generated(t) => t,
            _ => seq![],
        }
    } else {
        seq![]
    }
}

/// In the answers of a run: the analyst's first output.
pub open spec fn analyst_text(d: Seq<BackendAnswer>) -> Seq<char> {
    answer_text(d, 1)
}

/// In the answers of a run: the analyst's output on the retry.
pub open spec fn retry_text(d: Seq<BackendAnswer>) -> Seq<char> {
    answer_text(d, 3)
}

/// In the answers of a run: where the audit begins (after the retry, if
/// there is one).
pub open spec fn audit_start(d: Seq<BackendAnswer>) -> int {
    if findings_ok(analyst_text(d)) {
        2
    } else {
        4
    }
}

/// In the answers of a run: the first auditor's output.
pub open spec fn first_audit_text(d: Seq<BackendAnswer>) -> Seq<char> {
    answer_text(d, audit_start(d) + 1)
}

/// In the answers of a run: the paranoid auditor's output.
pub open spec fn second_audit_text(d: Seq<BackendAnswer>) -> Seq<char> {
    answer_text(d, audit_start(d) + 3)
}

/// In the answers of a run: the audit the judge sees.
pub open spec fn audit_text(d: Seq<BackendAnswer>, pcfg: PipelineConfig) -> Seq<char> {
    if pcfg.paranoid {
        paranoid_raw(first_audit_text(d), second_audit_text(d))
    } else {
        first_audit_text(d)
    }
}

/// In the answers of a run: the judge's output.
pub open spec fn judge_text(d: Seq<BackendAnswer>, pcfg: PipelineConfig) -> Seq<char> {
    answer_text(
        d,
        audit_start(d) + if pcfg.paranoid {
            5int
        } else {
            3int
        },
    )
}

/// The findings of a run: the analyst's output parsed when it is JSON with
/// a `findings` array, else the retry's output parsed when it is, else the
/// object `{"raw": retry output}`.
pub open spec fn findings_value(d: Seq<BackendAnswer>) -> serde_json::Value {
    if findings_ok(analyst_text(d)) {
        json_value(analyst_text(d))
    } else if findings_ok(retry_text(d)) {
        json_value(retry_text(d))
    } else {
        json_object("raw"@, retry_text(d))
    }
}

/// The requests of a run whose backend answered `d`.
pub open spec fn run_requests(
    cfg: InferenceConfig,
    nonce: Seq<u8>,
    prompt: Seq<char>,
    pcfg: PipelineConfig,
    d: Seq<BackendAnswer>,
) -> Seq<BackendRequest> {
    pipeline_requests(cfg, nonce, prompt, pcfg, analyst_text(d), audit_text(d, pcfg))
}

/// The logs of a run whose backend answered `d`: the answers grew by `d`,
/// the requests by as many of the run's requests, and at least one request
/// was made.
pub open spec fn pipeline_log(
    cfg: InferenceConfig,
    nonce: Seq<u8>,
    prompt: Seq<char>,
    pcfg: PipelineConfig,
    req_before: Seq<BackendRequest>,
    req_after: Seq<BackendRequest>,
    ans_before: Seq<BackendAnswer>,
    ans_after: Seq<BackendAnswer>,
    d: Seq<BackendAnswer>,
) -> bool {
    &&& ans_after == ans_before + d
    &&& 0 < d.len() <= run_requests(cfg, nonce, prompt, pcfg, d).len()
    &&& req_after == req_before + run_requests(cfg, nonce, prompt, pcfg, d).take(d.len() as int)
}

/// How a run whose backend answered `d` ends: a result made from those
/// answers once every request was served, or the refusal of the last
/// request it made.
pub open spec fn pipeline_outcome(
    cfg: InferenceConfig,
    nonce: Seq<u8>,
    prompt: Seq<char>,
    pcfg: PipelineConfig,
    d: Seq<BackendAnswer>,
    r: Result<PipelineResult, BackendError>,
) -> bool {
    match r {
        Ok(res) => {
            &&& d.len() == run_requests(cfg, nonce, prompt, pcfg, d).len()
            &&& forall|i: int| 0 <= i < d.len() ==> !(#[trigger] d[i] is Refused)
            &&& res.analyst_raw@ == analyst_text(d)
            &&& res.analyst_surfaced_raw == (!findings_ok(analyst_text(d)) && !findings_ok(
                retry_text(d),
            ))
            &&& res.findings_json == findings_value(d)
            &&& !pcfg.lenient ==> {
                &&& res.auditor_raw@ == audit_text(d, pcfg)
                &&& res.judge_raw@ == judge_text(d, pcfg)
            }
            &&& !pcfg.lenient && pcfg.paranoid ==> {
                &&& res.auditor_passed == (auditor_passed(first_audit_text(d)) && auditor_passed(
                    second_audit_text(d),
                ))
                &&& strings_view(res.auditor_flags@) == auditor_flags(first_audit_text(d))
                    + auditor_flags(second_audit_text(d))
            }
        },
        Err(_) => {
            &&& d.last() is Refused
            &&& forall|i: int| 0 <= i < d.len() - 1 ==> !(#[trigger] d[i] is Refused)
        },
    }
}

/// The findings once the analyst ran a second time and answered `retry`:
/// its parse when it is JSON with a `findings` array, else the object
/// `{"raw": retry}`, which is then surfaced.
pub fn findings_from_retry(retry: String) -> (r: (serde_json::Value, bool))
    ensures
        findings_ok(retry@) ==> r == (json_value(retry@), false),
        !findings_ok(retry@) ==> r == (json_object("raw"@, retry@), true),
{
    match parse_findings(retry.as_str()) {
        Some(v) => (v, false),
        None => (object_with("raw", retry), true),
    }
}

/// Runs the passes in order. The analyst's output must be JSON with a
/// `findings` array; if not, the analyst runs once more with a tighter
/// prompt, and if that fails too the raw text is surfaced. Lenient mode
/// stops there; otherwise the auditor (twice in paranoid mode) and then the
/// judge run over the analyst's output. A refusal of the backend ends the
/// run with that error.
#[verifier::rlimit(60)]
pub fn run<B: LlmBackend>(
    backend: &mut Recorded<B>,
    cfg: &InferenceConfig,
    nonce: &[u8; 32],
    prompt_for_analyst: &str,
    pcfg: PipelineConfig,
) -> (r: Result<PipelineResult, BackendError>)
    ensures
        exists|d: Seq<BackendAnswer>|
            #[trigger] pipeline_log(
                *cfg,
                nonce@,
                prompt_for_analyst@,
                pcfg,
                old(backend).requests(),
                final(backend).requests(),
                old(backend).answers(),
                final(backend).answers(),
                d,
            ) && pipeline_outcome(*cfg, nonce@, prompt_for_analyst@, pcfg, d, r),
        r matches Ok(res) ==> {
            &&& pcfg.lenient ==> {
                &&& res.auditor_passed
                &&& res.auditor_flags@.len() == 0
                &&& res.auditor_raw@ == "(skipped: lenient mode)"@
                &&& res.judge_verdict@ == "skipped"@
                &&& res.judge_raw@ == "(skipped: lenient mode)"@
            }
            &&& !pcfg.lenient ==> res.judge_verdict@ == judge_verdict(res.judge_raw@)
            &&& !pcfg.lenient && !pcfg.paranoid ==> {
                &&& res.auditor_passed == auditor_passed(res.auditor_raw@)
                &&& strings_view(res.auditor_flags@) == auditor_flags(res.auditor_raw@)
            }
        },
{
    let ghost req0 = backend.requests();
    let ghost ans0 = backend.answers();
    let ghost prompt = prompt_for_analyst@;
    let ghost c = *cfg;
    let ghost n = nonce@;
    let ghost pa = pass_requests(c, n, PassRole::Analyst, prompt);
    let analyst = match analyst::run(backend, cfg, nonce, prompt_for_analyst) {
        Ok(a) => a,
        Err(e) => {
            proof {
                let d = backend.answers().skip(ans0.len() as int);
                if backend.answers() == ans0 + seq![BackendAnswer::Refused] {
                    assert(d =~= seq![BackendAnswer::Refused]);
                } else {
                    assert(d =~= seq![BackendAnswer::Loaded, BackendAnswer::Refused]);
                    assert(pa.take(2) =~= pa);
                }
                assert(backend.answers() =~= ans0 + d);
                let full = run_requests(c, n, prompt, pcfg, d);
                assert(full =~= pa + full.skip(2));
                lemma_take_prefix(pa, full.skip(2), d.len() as int);
                assert(backend.requests() =~= req0 + run_requests(c, n, prompt, pcfg, d).take(
                    d.len() as int,
                ));
                assert(pipeline_log(
                    c,
                    n,
                    prompt,
                    pcfg,
                    req0,
                    backend.requests(),
                    ans0,
                    backend.answers(),
                    d,
                ));
            }
            return Err(e);
        },
    };
    let ghost araw = analyst.raw@;
    let ghost d1 = seq![BackendAnswer::Loaded, BackendAnswer::Generated(araw)];
    let ghost pr = pass_requests(c, n, PassRole::Analyst, tighter_prompt_spec(prompt));
    let ghost retry_part = if findings_ok(araw) {
        Seq::<BackendRequest>::empty()
    } else {
        pr
    };
    let ghost mut d2 = d1;
    let (findings_json, surfaced_raw) = match parse_findings(analyst.raw.as_str()) {
        Some(v) => (v, false),
        None => {
            let tighter = tighter_prompt(prompt_for_analyst);
            let retry = match analyst::run(backend, cfg, nonce, tighter.as_str()) {
                Ok(rt) => rt,
                Err(e) => {
                    proof {
                        let d = backend.answers().skip(ans0.len() as int);
                        if backend.answers() == ans0 + d1 + seq![BackendAnswer::Refused] {
                            assert(d =~= d1 + seq![BackendAnswer::Refused]);
                        } else {
                            assert(d =~= d1 + seq![BackendAnswer::Loaded, BackendAnswer::Refused]);
                            assert(pr.take(2) =~= pr);
                        }
                        assert(backend.answers() =~= ans0 + d);
                        assert(d.subrange(0, 2) =~= d1);
                        assert(analyst_text(d) == araw);
                        let rest = run_requests(c, n, prompt, pcfg, d).skip(4);
                        assert(run_requests(c, n, prompt, pcfg, d) =~= pa + pr + rest);
                        lemma_take_prefix(pa + pr, rest, d.len() as int);
                        assert((pa + pr).take(d.len() as int) =~= pa + pr.take(
                            d.len() - 2,
                        ));
                        assert(backend.requests() =~= req0 + run_requests(c, n, prompt, pcfg, d).take(
                            d.len() as int,
                        ));
                        assert(pipeline_log(
                            c,
                            n,
                            prompt,
                            pcfg,
                            req0,
                            backend.requests(),
                            ans0,
                            backend.answers(),
                            d,
                        ));
                    }
                    return Err(e);
                },
            };
            proof {
                d2 = d1 + seq![BackendAnswer::Loaded, BackendAnswer::Generated(retry.raw@)];
            }
            findings_from_retry(retry.raw)
        },
    };
    assert(backend.answers() =~= ans0 + d2);
    assert(analyst_text(d2) == araw);
    assert(backend.requests() =~= req0 + pa + retry_part);
    assert(d2.len() == (pa + retry_part).len());
    assert(surfaced_raw == (!findings_ok(araw) && !findings_ok(retry_text(d2))));
    assert(findings_json == findings_value(d2));
    if pcfg.lenient {
        let res = PipelineResult {
            analyst_raw: analyst.raw,
            auditor_passed: true,
            auditor_flags: Vec::new(),
            auditor_raw: "(skipped: lenient mode)".to_owned(),
            judge_verdict: "skipped".to_owned(),
            judge_raw: "(skipped: lenient mode)".to_owned(),
            findings_json,
            analyst_surfaced_raw: surfaced_raw,
        };
        proof {
            assert(run_requests(c, n, prompt, pcfg, d2) =~= pa + retry_part);
            assert(run_requests(c, n, prompt, pcfg, d2).take(d2.len() as int) =~= pa + retry_part);
            assert(backend.requests() =~= req0 + run_requests(c, n, prompt, pcfg, d2).take(
                d2.len() as int,
            ));
            assert(pipeline_log(
                c,
                n,
                prompt,
                pcfg,
                req0,
                backend.requests(),
                ans0,
                backend.answers(),
                d2,
            ));
            assert(pipeline_outcome(c, n, prompt, pcfg, d2, Ok(res)));
        }
        return Ok(res);
    }
    let ghost ap = auditor_prompt_spec(araw);
    let ghost pu = pass_requests(c, n, PassRole::Auditor, ap);
    let ghost base = d2.len() as int;
    let aud1 = match auditor::run(backend, cfg, nonce, PassRole::Auditor, analyst.raw.as_str()) {
        Ok(a) => a,
        Err(e) => {
            proof {
                let d = backend.answers().skip(ans0.len() as int);
                assert(backend.answers() =~= ans0 + d);
                assert(d.subrange(0, base) =~= d2);
                assert(analyst_text(d) == araw);
                assert(audit_start(d) == base);
                let rest = run_requests(c, n, prompt, pcfg, d).skip(base + 2);
                assert(run_requests(c, n, prompt, pcfg, d) =~= pa + retry_part + pu + rest);
                lemma_take_prefix(pa + retry_part + pu, rest, d.len() as int);
                assert((pa + retry_part + pu).take(d.len() as int) =~= pa + retry_part + pu.take(
                    d.len() - base,
                ));
                assert(backend.requests() =~= req0 + run_requests(c, n, prompt, pcfg, d).take(
                    d.len() as int,
                ));
                assert(pipeline_log(
                    c,
                    n,
                    prompt,
                    pcfg,
                    req0,
                    backend.requests(),
                    ans0,
                    backend.answers(),
                    d,
                ));
            }
            return Err(e);
        },
    };
    let ghost a1 = aud1.raw@;
    let ghost d3 = d2 + seq![BackendAnswer::Loaded, BackendAnswer::Generated(a1)];
    let ghost pp = pass_requests(c, n, PassRole::AuditorParanoid, ap);
    let ghost para_part = if pcfg.paranoid {
        pp
    } else {
        Seq::<BackendRequest>::empty()
    };
    let ghost mut d4 = d3;
    let combined = if pcfg.paranoid {
        let aud2 = match auditor::run(
            backend,
            cfg,
            nonce,
            PassRole::AuditorParanoid,
            analyst.raw.as_str(),
        ) {
            Ok(a) => a,
            Err(e) => {
                proof {
                    let d = backend.answers().skip(ans0.len() as int);
                    assert(backend.answers() =~= ans0 + d);
                    assert(d.subrange(0, base + 2) =~= d3);
                    assert(d.subrange(0, base) =~= d2);
                    assert(analyst_text(d) == araw);
                    assert(audit_start(d) == base);
                    let rest = run_requests(c, n, prompt, pcfg, d).skip(base + 4);
                    assert(run_requests(c, n, prompt, pcfg, d) =~= pa + retry_part + pu + pp
                        + rest);
                    lemma_take_prefix(pa + retry_part + pu + pp, rest, d.len() as int);
                    assert((pa + retry_part + pu + pp).take(d.len() as int) =~= pa + retry_part
                        + pu + pp.take(d.len() - base - 2));
                    assert(backend.requests() =~= req0 + run_requests(c, n, prompt, pcfg, d).take(
                        d.len() as int,
                    ));
                    assert(pipeline_log(
                        c,
                        n,
                        prompt,
                        pcfg,
                        req0,
                        backend.requests(),
                        ans0,
                        backend.answers(),
                        d,
                    ));
                }
                return Err(e);
            },
        };
        let ghost r1 = aud1.raw@;
        let ghost r2 = aud2.raw@;
        proof {
            d4 = d3 + seq![BackendAnswer::Loaded, BackendAnswer::Generated(r2)];
        }
        let c2 = combine_paranoid(aud1, aud2);
        assert(paranoid_raw(r1, r2) == c2.raw@);
        c2
    } else {
        aud1
    };
    assert(backend.answers() =~= ans0 + d4);
    assert(d4.subrange(0, base) =~= d2);
    assert(analyst_text(d4) == araw);
    assert(audit_start(d4) == base);
    assert(first_audit_text(d4) == a1);
    assert(combined.raw@ == audit_text(d4, pcfg));
    assert(backend.requests() =~= req0 + pa + retry_part + pu + para_part);
    let ghost pj = pass_requests(c, n, PassRole::Judge, judge_prompt_spec(araw, audit_text(d4, pcfg)));
    let ghost before_judge = d4.len() as int;
    let judge_out = match judge::run(backend, cfg, nonce, analyst.raw.as_str(), combined.raw.as_str()) {
        Ok(j) => j,
        Err(e) => {
            proof {
                let d = backend.answers().skip(ans0.len() as int);
                assert(backend.answers() =~= ans0 + d);
                assert(d.subrange(0, before_judge) =~= d4);
                assert(d.subrange(0, base) =~= d2);
                assert(analyst_text(d) == araw);
                assert(audit_start(d) == base);
                assert(first_audit_text(d) == first_audit_text(d4));
                assert(pcfg.paranoid ==> second_audit_text(d) == second_audit_text(d4));
                assert(audit_text(d, pcfg) == audit_text(d4, pcfg));
                assert(run_requests(c, n, prompt, pcfg, d) =~= pa + retry_part + pu + para_part
                    + pj);
                assert(run_requests(c, n, prompt, pcfg, d).take(d.len() as int) =~= pa
                    + retry_part + pu + para_part + pj.take(d.len() - before_judge));
                assert(backend.requests() =~= req0 + run_requests(c, n, prompt, pcfg, d).take(
                    d.len() as int,
                ));
                assert(pipeline_log(
                    c,
                    n,
                    prompt,
                    pcfg,
                    req0,
                    backend.requests(),
                    ans0,
                    backend.answers(),
                    d,
                ));
            }
            return Err(e);
        },
    };
    let ghost d5 = d4 + seq![BackendAnswer::Loaded, BackendAnswer::Generated(judge_out.raw@)];
    let res = PipelineResult {
        analyst_raw: analyst.raw,
        auditor_passed: combined.passed,
        auditor_flags: combined.flags,
        auditor_raw: combined.raw,
        judge_verdict: judge_out.verdict,
        judge_raw: judge_out.raw,
        findings_json,
        analyst_surfaced_raw: surfaced_raw,
    };
    proof {
        assert(backend.answers() =~= ans0 + d5);
        assert(d5.subrange(0, before_judge) =~= d4);
        assert(d5.subrange(0, base) =~= d2);
        assert(analyst_text(d5) == araw);
        assert(!findings_ok(araw) ==> retry_text(d5) == retry_text(d2));
        assert(audit_start(d5) == base);
        assert(first_audit_text(d5) == first_audit_text(d4));
        assert(pcfg.paranoid ==> second_audit_text(d5) == second_audit_text(d4));
        assert(audit_text(d5, pcfg) == audit_text(d4, pcfg));
        assert(run_requests(c, n, prompt, pcfg, d5) =~= pa + retry_part + pu + para_part + pj);
        assert(run_requests(c, n, prompt, pcfg, d5).take(d5.len() as int) =~= pa + retry_part + pu
            + para_part + pj);
        assert(backend.requests() =~= req0 + run_requests(c, n, prompt, pcfg, d5).take(
            d5.len() as int,
        ));
        assert(pipeline_log(
            c,
            n,
            prompt,
            pcfg,
            req0,
            backend.requests(),
            ans0,
            backend.answers(),
            d5,
        ));
        assert(pipeline_outcome(c, n, prompt, pcfg, d5, Ok(res)));
    }
    Ok(res)
}

/// The first `k` of `a + b` are the first `k` of `a`, for `k` up to `a`'s
/// length.
proof fn lemma_take_prefix(a: Seq<BackendRequest>, b: Seq<BackendRequest>, k: int)
    requires
        0 <= k <= a.len(),
    ensures
        (a + b).take(k) == a.take(k),
{
    assert((a + b).take(k) =~= a.take(k));
}

/// Lower-case hex of the SHA3-256 of `s`'s UTF-8 bytes.
pub fn raw_sha3(s: &str) -> (h: String)
    ensures
        h@ == hex_lower(sha3_256(encode_utf8(s@))),
{
    let d = sha3_256_of(s.as_bytes());
    hex_encode(&d)
}

} // verus!
