//! Linux sandbox backend (Landlock + `PR_SET_NO_NEW_PRIVS` +
//! `PR_SET_TSC`); the system calls that apply it stand outside this crate.
use crate::codec::sha3_256;
use crate::plugin::SandboxBackend;
use crate::sandbox::bundled_profile_hash;
use vstd::prelude::*;

verus! {

pub struct LinuxSandbox {
    pub profile_hash: [u8; 32],
}

impl LinuxSandbox {
    pub fn new(seccomp_profile: &[u8], landlock_profile: &[u8]) -> (s: Self)
        ensures
            s.profile_hash@ == sha3_256(seccomp_profile@ + landlock_profile@),
    {
        Self { profile_hash: bundled_profile_hash(seccomp_profile, landlock_profile) }
    }
}

impl SandboxBackend for LinuxSandbox {
    fn name(&self) -> (n: &'static str)
        ensures
            n@ == "linux-landlock-prctl"@,
    {
        "linux-landlock-prctl"
    }

    fn profile_sha3_256(&self) -> (h: [u8; 32])
        ensures
            h == self.profile_hash,
    {
        self.profile_hash
    }
}

} // verus!
