//! Sandbox backends: their names and the SHA3-256 identity of the
//! profile each enforces, the container argv, and the choice of a
//! container runtime.
pub mod container;
pub mod linux;
pub mod macos;
pub mod stub;
pub mod windows;

use crate::codec::{sha3_256, sha3_256_of};
use crate::plugin::SandboxBackend;
use vstd::prelude::*;

pub use linux::LinuxSandbox;

verus! {

/// `v` extended by the bytes `b`.
pub fn append_bytes(v: &mut Vec<u8>, b: &[u8])
    ensures
        final(v)@ == old(v)@ + b@,
{
    let mut i: usize = 0;
    let ghost start = v@;
    while i < b.len()
        invariant
            i <= b@.len(),
            v@ == start + b@.take(i as int),
        decreases b@.len() - i,
    {
        v.push(b[i]);
        assert(v@ =~= start + b@.take(i + 1));
        i = i + 1;
    }
    assert(b@.take(i as int) =~= b@);
}

/// SHA3-256 of the seccomp profile followed by the Landlock profile.
pub fn bundled_profile_hash(seccomp_profile: &[u8], landlock_profile: &[u8]) -> (h: [u8; 32])
    ensures
        h@ == sha3_256(seccomp_profile@ + landlock_profile@),
{
    let mut all: Vec<u8> = Vec::new();
    append_bytes(&mut all, seccomp_profile);
    append_bytes(&mut all, landlock_profile);
    assert(all@ =~= seccomp_profile@ + landlock_profile@);
    sha3_256_of(all.as_slice())
}

/// The sandbox backend that a build ships: the Linux one on Linux, else
/// the stand-in that refuses to apply.
pub enum PlatformSandbox {
    Linux(LinuxSandbox),
    Unavailable(stub::LinuxSandbox),
}

impl SandboxBackend for PlatformSandbox {
    fn name(&self) -> (n: &'static str)
        ensures
            n@ == match self {
                PlatformSandbox::Linux(_) => "linux-landlock-prctl"@,
                PlatformSandbox::Unavailable(_) => "stub-non-linux"@,
            },
    {
        match self {
            PlatformSandbox::Linux(b) => b.name(),
            PlatformSandbox::Unavailable(b) => b.name(),
        }
    }

    fn profile_sha3_256(&self) -> (h: [u8; 32])
        ensures
            h == match self {
                PlatformSandbox::Linux(b) => b.profile_hash,
                PlatformSandbox::Unavailable(b) => b.profile_hash,
            },
    {
        match self {
            PlatformSandbox::Linux(b) => b.profile_sha3_256(),
            PlatformSandbox::Unavailable(b) => b.profile_sha3_256(),
        }
    }
}

/// The backend for the platform the build targets (`on_linux`), over the
/// given bundled profiles: either way it carries their hash.
pub fn default_backend(on_linux: bool, seccomp_profile: &[u8], landlock_profile: &[u8]) -> (b: PlatformSandbox)
    ensures
        b is Linux <==> on_linux,
        b.carried_hash() == sha3_256(seccomp_profile@ + landlock_profile@),
{
    if on_linux {
        PlatformSandbox::Linux(LinuxSandbox::new(seccomp_profile, landlock_profile))
    } else {
        PlatformSandbox::Unavailable(stub::LinuxSandbox::new(seccomp_profile, landlock_profile))
    }
}

impl PlatformSandbox {
    /// The profile hash that the backend carries.
    pub open spec fn carried_hash(&self) -> Seq<u8> {
        match self {
            PlatformSandbox::Linux(b) => b.profile_hash@,
            PlatformSandbox::Unavailable(b) => b.profile_hash@,
        }
    }
}

} // verus!
