//! A WireGuard endpoint bound to a LAN or loopback address: the host
//! keypair, the peer's public key (all zero until paired) and the PSK.
use crate::net::SocketAddress;
use crate::pair::PairError;
use crate::web::token::random_32;
use vstd::prelude::*;

verus! {

/// The X25519 public key of a 32-byte secret.
pub uninterp spec fn x25519_public_key(secret: Seq<u8>) -> Seq<u8>;

/// `x25519_dalek::PublicKey::from(&StaticSecret::from(secret))`.
#[verifier::external_body]
fn x25519_public(secret: [u8; 32]) -> (p: [u8; 32])
    ensures
        p@ == x25519_public_key(secret@),
{
    x25519_dalek::PublicKey::from(&x25519_dalek::StaticSecret::from(secret)).to_bytes()
}

pub open spec fn is_zero_key(k: [u8; 32]) -> bool {
    forall|i: int| 0 <= i < 32 ==> #[trigger] k@[i] == 0
}

/// A LAN-bound WireGuard endpoint; single-peer by design.
pub struct WgEndpoint {
    pub host_private: [u8; 32],
    pub host_public: [u8; 32],
    /// All zero until `set_peer` succeeds.
    pub peer_public: [u8; 32],
    pub psk: [u8; 32],
    pub bind_addr: SocketAddress,
}

fn key_is_zero(k: &[u8; 32]) -> (b: bool)
    ensures
        b == is_zero_key(*k),
{
    let mut i: usize = 0;
    while i < 32
        invariant
            i <= 32,
            forall|j: int| 0 <= j < i ==> k@[j] == 0,
        decreases 32 - i,
    {
        if k[i] != 0 {
            return false;
        }
        i = i + 1;
    }
    true
}

impl WgEndpoint {
    /// A fresh random keypair and PSK, bound to `bind_addr`, with no peer.
    pub fn new_random(bind_addr: SocketAddress) -> (e: Self)
        ensures
            e.host_public@ == x25519_public_key(e.host_private@),
            is_zero_key(e.peer_public),
            e.bind_addr == bind_addr,
    {
        let host_private = random_32();
        let host_public = x25519_public(host_private);
        let psk = random_32();
        Self { host_private, host_public, peer_public: [0u8; 32], psk, bind_addr }
    }

    /// Authorises the paired peer once the user has confirmed the
    /// fingerprint; an endpoint that already has a peer, or an all-zero key,
    /// is refused and the endpoint is left as it was.
    pub fn set_peer(&mut self, peer_public: [u8; 32]) -> (r: Result<(), PairError>)
        ensures
            !is_zero_key(old(self).peer_public) ==> (r matches Err(PairError::AlreadyPaired)),
            is_zero_key(old(self).peer_public) && is_zero_key(peer_public) ==> (r matches Err(
                PairError::ZeroPeer,
            )),
            r is Err ==> *final(self) == *old(self),
            r is Ok <==> is_zero_key(old(self).peer_public) && !is_zero_key(peer_public),
            r is Ok ==> *final(self) == (WgEndpoint { peer_public, ..*old(self) }),
    {
        if !key_is_zero(&self.peer_public) {
            return Err(PairError::AlreadyPaired);
        }
        if key_is_zero(&peer_public) {
            return Err(PairError::ZeroPeer);
        }
        self.peer_public = peer_public;
        Ok(())
    }

    pub fn is_paired(&self) -> (b: bool)
        ensures
            b == !is_zero_key(self.peer_public),
    {
        !key_is_zero(&self.peer_public)
    }
}

} // verus!
