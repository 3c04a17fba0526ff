//! Pairing of a mobile share-target: a single-peer WireGuard endpoint on
//! a LAN or loopback address, the pairing bundle shown as a QR code, and
//! the fingerprint the user compares on both screens.
pub mod pairing;
pub mod qr;
pub mod wg;

use vstd::prelude::*;

verus! {

/// Why pairing refused.
#[derive(Debug)]
pub enum PairError {
    /// The endpoint's IP (as shown) is in no private range.
    NotPrivate(String),
    /// The endpoint already has a peer; recreate it to re-pair.
    AlreadyPaired,
    /// An all-zero public key is not a peer.
    ZeroPeer,
}

} // verus!
