//! Per-pass deterministic seed: SHA3-256(invocation_nonce || role_tag).
use crate::codec::{sha3_256, sha3_256_of};
use crate::sandbox::append_bytes;
use vstd::bytes::{spec_u64_from_le_bytes, u64_from_le_bytes};
use vstd::prelude::*;
use vstd::utf8::encode_utf8;

verus! {

/// The pass that a seed is derived for.
#[derive(Debug, Clone, Copy, PartialEq, Eq, Structural)]
pub enum PassRole {
    Analyst,
    Auditor,
    AuditorParanoid,
    Judge,
}

/// The name of each pass.
pub open spec fn role_name(role: PassRole) -> Seq<char> {
    match role {
        PassRole::Analyst => "analyst"@,
        PassRole::Auditor => "auditor"@,
        PassRole::AuditorParanoid => "auditor-paranoid"@,
        PassRole::Judge => "judge"@,
    }
}

/// The tag that distinguishes each pass in the seed derivation: its name
/// in UTF-8 (ASCII).
pub open spec fn role_tag(role: PassRole) -> Seq<u8> {
    encode_utf8(role_name(role))
}

/// The seed of a pass: the first eight bytes of SHA3-256(nonce || tag),
/// read little-endian.
pub open spec fn pass_seed(nonce: Seq<u8>, role: PassRole) -> u64 {
    spec_u64_from_le_bytes(sha3_256(nonce + role_tag(role)).take(8))
}

impl PassRole {
    /// `b"analyst"`, `b"auditor"`, `b"auditor-paranoid"` or `b"judge"`.
    fn tag(self) -> (t: &'static [u8])
        ensures
            t@ == role_tag(self),
    {
        match self {
            PassRole::Analyst => "analyst".as_bytes(),
            PassRole::Auditor => "auditor".as_bytes(),
            PassRole::AuditorParanoid => "auditor-paranoid".as_bytes(),
            PassRole::Judge => "judge".as_bytes(),
        }
    }
}

/// The seed for `role` in the invocation with `nonce`.
pub fn derive_pass_seed(nonce: &[u8; 32], role: PassRole) -> (s: u64)
    ensures
        s == pass_seed(nonce@, role),
{
    let mut input: Vec<u8> = Vec::new();
    append_bytes(&mut input, nonce);
    append_bytes(&mut input, role.tag());
    let out = sha3_256_of(input.as_slice());
    let first = vstd::slice::slice_subrange(&out, 0, 8);
    assert(first@ == out@.take(8));
    u64_from_le_bytes(first)
}

} // verus!
