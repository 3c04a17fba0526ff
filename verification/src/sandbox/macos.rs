//! macOS Seatbelt backend; `sandbox_init_with_parameters` itself stands
//! outside this crate.
use crate::codec::{sha3_256, sha3_256_of};
use crate::plugin::SandboxBackend;
use vstd::prelude::*;

verus! {

pub struct MacosSandbox {
    pub profile_hash: [u8; 32],
}

impl MacosSandbox {
    /// The backend for the audited Seatbelt profile (`seatbelt.sb`): its
    /// identity is the profile's SHA3-256.
    pub fn new(seatbelt_profile: &[u8]) -> (s: Self)
        ensures
            s.profile_hash@ == sha3_256(seatbelt_profile@),
    {
        Self { profile_hash: sha3_256_of(seatbelt_profile) }
    }
}

impl SandboxBackend for MacosSandbox {
    fn name(&self) -> (n: &'static str)
        ensures
            n@ == "macos-seatbelt"@,
    {
        "macos-seatbelt"
    }

    fn profile_sha3_256(&self) -> (h: [u8; 32])
        ensures
            h == self.profile_hash,
    {
        self.profile_hash
    }
}

} // verus!
