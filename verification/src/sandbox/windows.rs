//! Windows AppContainer backend: the profile identity. Creating the
//! profile, the restricted token, the job object and the mitigation
//! policies are Win32 calls that stand outside this crate.
use crate::codec::{sha3_256, sha3_256_of};
use crate::plugin::SandboxBackend;
use crate::sandbox::append_bytes;
use vstd::prelude::*;
use vstd::string::StringSliceAdditionalSpecFns;

verus! {

/// The per-install AppContainer profile name.
pub const SECK_APPCONTAINER_NAME: &'static str = "Seck.Analyzer";

/// The profile tag hashed ahead of the name.
pub const PROFILE_TAG: &'static str = "windows-appcontainer-v1";

/// The mitigation set, part of the profile identity.
pub const MITIGATIONS: &'static str = "acg|cig|dep|aslr|eaf|strict-handle|syscall-disable";

/// The profile identity: SHA3-256 of the tag, the container name and the
/// mitigation set.
pub open spec fn windows_profile_hash() -> Seq<u8> {
    sha3_256(PROFILE_TAG.spec_bytes() + SECK_APPCONTAINER_NAME.spec_bytes() + MITIGATIONS.spec_bytes())
}

#[derive(Debug, Clone)]
pub struct WindowsSandbox {
    pub profile_hash: [u8; 32],
}

impl WindowsSandbox {
    pub fn new() -> (s: Self)
        ensures
            s.profile_hash@ == windows_profile_hash(),
    {
        let mut all: Vec<u8> = Vec::new();
        append_bytes(&mut all, PROFILE_TAG.as_bytes());
        append_bytes(&mut all, SECK_APPCONTAINER_NAME.as_bytes());
        append_bytes(&mut all, MITIGATIONS.as_bytes());
        Self { profile_hash: sha3_256_of(all.as_slice()) }
    }
}

impl SandboxBackend for WindowsSandbox {
    fn name(&self) -> (n: &'static str)
        ensures
            n@ == "windows-appcontainer"@,
    {
        "windows-appcontainer"
    }

    fn profile_sha3_256(&self) -> (h: [u8; 32])
        ensures
            h == self.profile_hash,
    {
        self.profile_hash
    }
}

} // verus!
