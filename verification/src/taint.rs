//! Values explicitly validated as not user-tainted, and the capability
//! token that only designated sinks can construct.
use vstd::prelude::*;

verus! {

/// A value explicitly validated as not user-tainted.
pub struct Untainted<T> {
    inner: T,
}

impl<T> Untainted<T> {
    /// The wrapped value.
    pub closed spec fn value(&self) -> T {
        self.inner
    }

    #[must_use]
    pub fn new(inner: T) -> (u: Self)
        ensures
            u.value() == inner,
    {
        Self { inner }
    }

    pub fn get(&self) -> (r: &T)
        ensures
            *r == self.value(),
    {
        &self.inner
    }

    pub fn into_inner(self) -> (r: T)
        ensures
            r == self.value(),
    {
        self.inner
    }
}

/// Capability token for the sinks of tainted bytes; it can only be made
/// from a `FriendKey`.
pub struct SinkToken {
    _private: (),
}

impl SinkToken {
    pub fn __new_friend(_key: FriendKey) -> (t: Self) {
        Self { _private: () }
    }
}

/// Only this crate can make a `FriendKey`; it hands out the named ones.
pub struct FriendKey(());

impl FriendKey {
    /// The key handed to the FD sink.
    pub fn for_seck_fd() -> FriendKey {
        FriendKey(())
    }

    /// The key handed to the host.
    pub fn for_seck_host() -> FriendKey {
        FriendKey(())
    }

    /// The key handed to the report writer.
    pub fn for_seck_report() -> FriendKey {
        FriendKey(())
    }
}

} // verus!
