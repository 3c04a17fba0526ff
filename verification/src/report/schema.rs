//! The report's structure. Serialisation stands outside this crate.
use vstd::prelude::*;

verus! {

pub struct Report {
    pub version: String,
    pub invocation: Invocation,
    pub inputs: Vec<Input>,
    pub findings: Vec<Finding>,
    pub sandbox_attestation: Attestation,
}

pub struct Invocation {
    pub nonce_sha3_256: String,
    pub started_at: String,
    pub finished_at: String,
    pub sandbox_mode: String,
    pub backend: String,
    pub model: String,
    pub model_sha3_256: String,
    /// The sampling temperature, as the bits of an `f32`.
    pub temperature_bits: u32,
    pub seed: u64,
    pub deterministic: bool,
}

pub struct Input {
    pub path: String,
    pub sha3_256: String,
    pub size: u64,
    pub kind: String,
}

pub struct Finding {
    pub id: String,
    pub summary: String,
    pub files: Vec<String>,
    pub category: String,
    pub confidence: String,
    pub evidence_quote: String,
}

pub struct Attestation {
    pub platform: String,
    pub sandbox_mode: String,
    pub profile_sha3_256: String,
    pub binary_sha3_256: String,
}

} // verus!
