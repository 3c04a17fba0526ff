//! The backend on platforms without a Linux sandbox: applying it is refused.
use crate::codec::sha3_256;
use crate::plugin::SandboxBackend;
use crate::sandbox::bundled_profile_hash;
use vstd::prelude::*;

verus! {

/// Why a sandbox could not be applied.
#[derive(Debug)]
pub struct SandboxError {
    pub message: String,
}

pub struct LinuxSandbox {
    pub profile_hash: [u8; 32],
}

/// The message of the refusal.
pub const UNAVAILABLE: &'static str = "Linux sandbox not available on this platform; see Plan 02 for macOS Seatbelt";

impl LinuxSandbox {
    pub fn new(seccomp_profile: &[u8], landlock_profile: &[u8]) -> (s: Self)
        ensures
            s.profile_hash@ == sha3_256(seccomp_profile@ + landlock_profile@),
    {
        Self { profile_hash: bundled_profile_hash(seccomp_profile, landlock_profile) }
    }

    /// Always refused: there is no Linux sandbox to apply here.
    pub fn apply_self_lockdown() -> (r: Result<(), SandboxError>)
        ensures
            r matches Err(e) && e.message@ == UNAVAILABLE@,
    {
        Err(SandboxError { message: String::from_str(UNAVAILABLE) })
    }
}

impl SandboxBackend for LinuxSandbox {
    fn name(&self) -> (n: &'static str)
        ensures
            n@ == "stub-non-linux"@,
    {
        "stub-non-linux"
    }

    fn profile_sha3_256(&self) -> (h: [u8; 32])
        ensures
            h == self.profile_hash,
    {
        self.profile_hash
    }
}

} // verus!
