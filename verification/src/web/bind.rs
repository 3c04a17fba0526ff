//! Loopback-only bind check: refuses 0.0.0.0, [::], LAN addresses and
//! anything else outside 127.0.0.0/8 and ::1. Parsing the address text
//! stands outside this crate.
use crate::net::{SocketAddress, is_loopback, is_loopback_spec};
use vstd::prelude::*;

verus! {

#[derive(Debug)]
pub enum BindError {
    NotLoopback(String),
    Parse(String),
}

/// The bind decision for a parsed address `addr` whose display text is
/// `shown`: the address itself if it is loopback, else `NotLoopback(shown)`.
pub fn check_bind(addr: SocketAddress, shown: String) -> (r: Result<SocketAddress, BindError>)
    ensures
        is_loopback_spec(addr.ip) ==> r == Ok::<SocketAddress, BindError>(addr),
        !is_loopback_spec(addr.ip) ==> (r matches Err(BindError::NotLoopback(t)) && t@ == shown@),
{
    if !is_loopback(&addr.ip) {
        return Err(BindError::NotLoopback(shown));
    }
    Ok(addr)
}

} // verus!
