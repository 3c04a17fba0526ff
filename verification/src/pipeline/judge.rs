//! The judge pass: whether the analyst's and the auditor's outputs agree.
use super::analyst::{pass_config, pass_done, pass_requests};
use super::auditor::first_line;
use super::seed::PassRole;
use crate::plugin::{BackendAnswer, BackendError, InferenceConfig, LlmBackend, Recorded};
use crate::text::{
    contains_str, lines, lower, replace_all, replace_str, split_lines, str_contains, strings_view,
    to_lowercase, trim, trim_string,
};
use vstd::prelude::*;

verus! {

pub const JUDGE_PROMPT: &'static str = "You will see two outputs:\n\nANALYST OUTPUT:\n---\n{ANALYST}\n\
---\n\nAUDITOR OUTPUT:\n---\n{AUDITOR}\n---\n\nDecide: do the two outputs agree on the \
behavior of the analyzed files? Answer the first line with exactly one word from \
{agreement, disagreement, escalate}. On the second line, give a one-sentence justification.";

pub struct JudgeOutput {
    pub verdict: String,
    pub justification: String,
    pub raw: String,
}

/// The judge's prompt: the template with `{ANALYST}` replaced by the
/// analyst's output, then `{AUDITOR}` by the auditor's.
pub open spec fn judge_prompt_spec(analyst: Seq<char>, auditor: Seq<char>) -> Seq<char> {
    replace_all(replace_all(JUDGE_PROMPT@, "{ANALYST}"@, analyst), "{AUDITOR}"@, auditor)
}

/// The verdict for a first line already lower-cased: `agreement` when it
/// says "agree" without "dis", else `disagreement` when it says "disag",
/// else `escalate`.
pub open spec fn verdict_of(first: Seq<char>) -> Seq<char> {
    if contains_str(first, "agree"@) && !contains_str(first, "dis"@) {
        "agreement"@
    } else if contains_str(first, "disag"@) {
        "disagreement"@
    } else {
        "escalate"@
    }
}

/// The verdict in the judge's answer.
pub open spec fn judge_verdict(raw: Seq<char>) -> Seq<char> {
    verdict_of(lower(trim(first_line(raw))))
}

/// The second line of the judge's answer, trimmed, or the empty text.
pub open spec fn judge_justification(raw: Seq<char>) -> Seq<char> {
    if lines(raw).len() > 1 {
        trim(lines(raw)[1])
    } else {
        seq![]
    }
}

/// The prompt for the judge over the two outputs.
pub fn judge_prompt(analyst: &str, auditor: &str) -> (p: String)
    ensures
        p@ == judge_prompt_spec(analyst@, auditor@),
{
    let once = replace_str(JUDGE_PROMPT, "{ANALYST}", analyst);
    replace_str(once.as_str(), "{AUDITOR}", auditor)
}

/// The verdict and the justification in the judge's answer.
pub fn read_verdict(raw: &str) -> (r: (String, String))
    ensures
        r.0@ == judge_verdict(raw@),
        r.1@ == judge_justification(raw@),
{
    let ls = split_lines(raw);
    proof {
        reveal_strlit("");
        if ls@.len() > 0 {
            assert(strings_view(ls@)[0] == ls@[0]@);
        }
        if ls@.len() > 1 {
            assert(strings_view(ls@)[1] == ls@[1]@);
        }
    }
    let first = if ls.len() > 0 {
        trim_string(ls[0].as_str())
    } else {
        trim_string("")
    };
    assert(first@ == trim(first_line(raw@)));
    let low = to_lowercase(first.as_str());
    let verdict = if str_contains(low.as_str(), "agree") && !str_contains(low.as_str(), "dis") {
        "agreement".to_owned()
    } else if str_contains(low.as_str(), "disag") {
        "disagreement".to_owned()
    } else {
        "escalate".to_owned()
    };
    let justification = if ls.len() > 1 {
        trim_string(ls[1].as_str())
    } else {
        "".to_owned()
    };
    (verdict, justification)
}

/// Loads the judge configuration and asks whether `analyst` and `auditor`
/// agree. The verdict and justification are read from whatever the backend
/// answers.
pub fn run<B: LlmBackend>(
    backend: &mut Recorded<B>,
    cfg: &InferenceConfig,
    nonce: &[u8; 32],
    analyst: &str,
    auditor: &str,
) -> (r: Result<JudgeOutput, BackendError>)
    ensures
        r matches Ok(out) ==> {
            &&& out.verdict@ == judge_verdict(out.raw@)
            &&& out.justification@ == judge_justification(out.raw@)
        },
        pass_done(
            old(backend).requests(),
            final(backend).requests(),
            old(backend).answers(),
            final(backend).answers(),
            pass_requests(*cfg, nonce@, PassRole::Judge, judge_prompt_spec(analyst@, auditor@)),
            match r {
                Ok(out) => Some(out.raw@),
                Err(_) => None,
            },
        ),
{
    let local = pass_config(cfg, nonce, PassRole::Judge);
    let prompt = judge_prompt(analyst, auditor);
    let ghost p = pass_requests(*cfg, nonce@, PassRole::Judge, prompt@);
    let ghost start = backend.requests();
    let ghost start_ans = backend.answers();
    let loaded = backend.load(&local);
    assert(backend.requests() =~= start + p.take(1));
    if let Err(e) = loaded {
        assert(backend.answers() =~= start_ans + seq![BackendAnswer::Refused]);
        return Err(e);
    }
    let generated = backend.generate(prompt.as_str());
    assert(backend.requests() =~= start + p);
    let raw = match generated {
        Ok(raw) => {
            assert(backend.answers() =~= start_ans + seq![
                BackendAnswer::Loaded,
                BackendAnswer::Generated(raw@),
            ]);
            raw
        },
        Err(e) => {
            assert(backend.answers() =~= start_ans + seq![
                BackendAnswer::Loaded,
                BackendAnswer::Refused,
            ]);
            return Err(e);
        },
    };
    let (verdict, justification) = read_verdict(raw.as_str());
    Ok(JudgeOutput { verdict, justification, raw })
}

} // verus!
