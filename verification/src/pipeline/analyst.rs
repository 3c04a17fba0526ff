//! The analyst pass: the assembled prompt, run once with the analyst seed.
use super::seed::{PassRole, derive_pass_seed, pass_seed};
use crate::plugin::{BackendAnswer, BackendError, BackendRequest, InferenceConfig, LlmBackend, Recorded};
use vstd::prelude::*;

verus! {

pub struct AnalystOutput {
    pub raw: String,
    pub seed_used: u64,
}

/// The configuration that one pass loads: `cfg` with the pass's seed and a
/// temperature of zero.
pub fn pass_config(cfg: &InferenceConfig, nonce: &[u8; 32], role: PassRole) -> (c: InferenceConfig)
    ensures
        c.model_path@ == cfg.model_path@,
        c.temperature_bits == 0,
        c.seed == pass_seed(nonce@, role),
        c.max_tokens == cfg.max_tokens,
        c.context_window == cfg.context_window,
{
    InferenceConfig {
        model_path: cfg.model_path.clone(),
        temperature_bits: 0,
        seed: derive_pass_seed(nonce, role),
        max_tokens: cfg.max_tokens,
        context_window: cfg.context_window,
    }
}

/// The requests of one pass: the configuration of `role` (`cfg` with the
/// pass's seed and a temperature of zero), then `prompt`.
pub open spec fn pass_requests(
    cfg: InferenceConfig,
    nonce: Seq<u8>,
    role: PassRole,
    prompt: Seq<char>,
) -> Seq<BackendRequest> {
    seq![
        BackendRequest::Load(
            (cfg.model_path@, 0u32, pass_seed(nonce, role), cfg.max_tokens, cfg.context_window),
        ),
        BackendRequest::Generate(prompt),
    ]
}

/// What one pass leaves in the logs of a recorded backend, given what it
/// returned (`Some` of the generated text, or `None` for a refusal): both
/// requests and both answers when it succeeds; when the backend refuses,
/// the requests up to the refused one, answered by `Refused`.
pub open spec fn pass_done(
    req_before: Seq<BackendRequest>,
    req_after: Seq<BackendRequest>,
    ans_before: Seq<BackendAnswer>,
    ans_after: Seq<BackendAnswer>,
    pass: Seq<BackendRequest>,
    out: Option<Seq<char>>,
) -> bool {
    match out {
        Some(t) => req_after == req_before + pass && ans_after == ans_before + seq![
            BackendAnswer::Loaded,
            BackendAnswer::Generated(t),
        ],
        None => (req_after == req_before + pass.take(1) && ans_after == ans_before + seq![
            BackendAnswer::Refused,
        ]) || (req_after == req_before + pass && ans_after == ans_before + seq![
            BackendAnswer::Loaded,
            BackendAnswer::Refused,
        ]),
    }
}

/// Loads the analyst configuration and runs `prompt` once. Whatever the
/// backend answers is returned untouched, with the seed it ran under.
pub fn run<B: LlmBackend>(
    backend: &mut Recorded<B>,
    cfg: &InferenceConfig,
    nonce: &[u8; 32],
    prompt: &str,
) -> (r: Result<AnalystOutput, BackendError>)
    ensures
        r matches Ok(out) ==> out.seed_used == pass_seed(nonce@, PassRole::Analyst),
        pass_done(
            old(backend).requests(),
            final(backend).requests(),
            old(backend).answers(),
            final(backend).answers(),
            pass_requests(*cfg, nonce@, PassRole::Analyst, prompt@),
            match r {
                Ok(out) => Some(out.raw@),
                Err(_) => None,
            },
        ),
{
    let local = pass_config(cfg, nonce, PassRole::Analyst);
    let seed = local.seed;
    let ghost p = pass_requests(*cfg, nonce@, PassRole::Analyst, prompt@);
    let ghost start = backend.requests();
    let ghost start_ans = backend.answers();
    let loaded = backend.load(&local);
    assert(backend.requests() =~= start + p.take(1));
    if let Err(e) = loaded {
        assert(backend.answers() =~= start_ans + seq![BackendAnswer::Refused]);
        return Err(e);
    }
    let generated = backend.generate(prompt);
    assert(backend.requests() =~= start + p);
    let raw = match generated {
        Ok(raw) => {
            assert(backend.answers() =~= start_ans + seq![
                BackendAnswer::Loaded,
                BackendAnswer::Generated(raw@),
            ]);
            raw
        },
        Err(e) => {
            assert(backend.answers() =~= start_ans + seq![
                BackendAnswer::Loaded,
                BackendAnswer::Refused,
            ]);
            return Err(e);
        },
    };
    Ok(AnalystOutput { raw, seed_used: seed })
}

} // verus!
