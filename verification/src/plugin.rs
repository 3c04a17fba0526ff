//! Backend traits, the model configuration, and the trusted-plugin marker.
use crate::taint::Untainted;
use vstd::prelude::*;

verus! {

/// Why a model backend failed.
#[derive(Debug)]
pub enum BackendError {
    ModelLoad(String),
    Generation(String),
    Io(std::io::Error),
}

/// How a model is run. `temperature_bits` holds the `f32` sampling
/// temperature by its bits (`f32::to_bits`); `0` is `0.0`.
pub struct InferenceConfig {
    pub model_path: String,
    pub temperature_bits: u32,
    pub seed: u64,
    pub max_tokens: u32,
    pub context_window: u32,
}

/// The fields of a configuration, by view.
pub open spec fn config_view(cfg: InferenceConfig) -> (Seq<char>, u32, u64, u32, u32) {
    (cfg.model_path@, cfg.temperature_bits, cfg.seed, cfg.max_tokens, cfg.context_window)
}

/// One request made of a model backend: a configuration to load (by its
/// fields), or a prompt to run.
pub enum BackendRequest {
    Load((Seq<char>, u32, u64, u32, u32)),
    Generate(Seq<char>),
}

/// What a model backend answered one request: a configuration loaded, the
/// text a prompt yielded, or a refusal.
pub enum BackendAnswer {
    Loaded,
    Generated(Seq<char>),
    Refused,
}

/// A model backend. Implementations run inside the sandbox; the caller has
/// already nonce-delimited any untrusted payload inside `prompt` and treats
/// the returned text as untrusted output. Whether a request succeeds, and
/// what a prompt yields, is the backend's own.
pub trait LlmBackend: Send + Sync {
    fn name(&self) -> &'static str;

    fn load(&mut self, cfg: &InferenceConfig) -> Result<(), BackendError>;

    fn generate(&mut self, prompt: &str) -> Result<String, BackendError>;
}

/// A model backend with the record of every request made through it and
/// of every answer it gave.
pub struct Recorded<B: LlmBackend> {
    backend: B,
    log: Ghost<Seq<BackendRequest>>,
    answered: Ghost<Seq<BackendAnswer>>,
}

impl<B: LlmBackend> Recorded<B> {
    /// The requests made through `self` so far, oldest first.
    pub closed spec fn requests(&self) -> Seq<BackendRequest> {
        self.log@
    }

    /// The answers the backend gave, one per request, oldest first.
    pub closed spec fn answers(&self) -> Seq<BackendAnswer> {
        self.answered@
    }

    /// The backend itself.
    pub closed spec fn inner(&self) -> B {
        self.backend
    }

    /// The backend itself.
    pub fn backend(&self) -> (b: &B)
        ensures
            *b == self.inner(),
    {
        &self.backend
    }

    /// `backend`, with no request made yet.
    pub fn new(backend: B) -> (r: Self)
        ensures
            r.inner() == backend,
            r.requests() == Seq::<BackendRequest>::empty(),
            r.answers() == Seq::<BackendAnswer>::empty(),
    {
        Recorded { backend, log: Ghost(Seq::empty()), answered: Ghost(Seq::empty()) }
    }

    /// Asks the backend to load `cfg`.
    pub fn load(&mut self, cfg: &InferenceConfig) -> (r: Result<(), BackendError>)
        ensures
            final(self).requests() == old(self).requests().push(
                BackendRequest::Load(config_view(*cfg)),
            ),
            final(self).answers() == old(self).answers().push(
                if r is Ok {
                    BackendAnswer::Loaded
                } else {
                    BackendAnswer::Refused
                },
            ),
    {
        let r = self.backend.load(cfg);
        self.log = Ghost(self.log@.push(BackendRequest::Load(config_view(*cfg))));
        self.answered = Ghost(
            self.answered@.push(
                if r is Ok {
                    BackendAnswer::Loaded
                } else {
                    BackendAnswer::Refused
                },
            ),
        );
        r
    }

    /// Asks the backend to run `prompt`.
    pub fn generate(&mut self, prompt: &str) -> (r: Result<String, BackendError>)
        ensures
            final(self).requests() == old(self).requests().push(BackendRequest::Generate(prompt@)),
            final(self).answers() == old(self).answers().push(
                match r {
                    Ok(t) => BackendAnswer::Generated(t@),
                    Err(_) => BackendAnswer::Refused,
                },
            ),
    {
        let r = self.backend.generate(prompt);
        self.log = Ghost(self.log@.push(BackendRequest::Generate(prompt@)));
        self.answered = Ghost(
            self.answered@.push(
                match &r {
                    Ok(t) => BackendAnswer::Generated(t@),
                    Err(_) => BackendAnswer::Refused,
                },
            ),
        );
        r
    }
}

/// A sandbox backend: its name and the SHA3-256 of the audited profile it
/// enforces, which the report's attestation block carries.
pub trait SandboxBackend {
    fn name(&self) -> &'static str;

    fn profile_sha3_256(&self) -> [u8; 32];
}

/// A plugin that the host has confirmed came from the trusted bundle.
pub struct TrustedPlugin<T> {
    pub plugin: T,
    pub manifest_attestation: Untainted<[u8; 32]>,
}

} // verus!
