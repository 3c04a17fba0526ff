//! Single-use 256-bit capability token: each successful check replaces
//! the token, so a URL carrying it works once.
use crate::codec::{hex_digit, hex_encode, hex_lower};
use crate::text::str_eq;
use rand::TryRngCore;
use vstd::prelude::*;

verus! {

/// 32 bytes from the thread-local generator that the operating system
/// seeds (`rand::rng`, then `try_fill_bytes`, whose error is never
/// produced by that generator).
#[verifier::external_body]
pub(crate) fn random_32() -> (b: [u8; 32]) {
    let mut t = [0u8; 32];
    rand::rng().try_fill_bytes(&mut t).expect("CSPRNG");
    t
}

/// Whether `t` is the lower-case hex of 32 bytes.
pub open spec fn is_token(t: Seq<char>) -> bool {
    exists|b: Seq<u8>| b.len() == 32 && t == hex_lower(b)
}

/// A lower-case hex digit.
pub open spec fn is_lower_hex_digit(c: char) -> bool {
    ('0' <= c && c <= '9') || ('a' <= c && c <= 'f')
}

/// Lower-case hex of `b` has two digits per byte, each a lower-case hex
/// digit.
proof fn lemma_hex_lower_shape(b: Seq<u8>)
    ensures
        hex_lower(b).len() == 2 * b.len(),
        forall|i: int| 0 <= i < hex_lower(b).len() ==> is_lower_hex_digit(#[trigger] hex_lower(b)[i]),
    decreases b.len(),
{
    if b.len() > 0 {
        lemma_hex_lower_shape(b.drop_first());
        let head = seq![hex_digit((b[0] as int) / 16), hex_digit((b[0] as int) % 16)];
        assert(is_lower_hex_digit(head[0]));
        assert(is_lower_hex_digit(head[1]));
        assert forall|i: int| 0 <= i < hex_lower(b).len() implies is_lower_hex_digit(
            #[trigger] hex_lower(b)[i],
        ) by {
            if i >= 2 {
                assert(hex_lower(b)[i] == hex_lower(b.drop_first())[i - 2]);
            }
        }
    }
}

/// Every token is 64 lower-case hex digits.
pub proof fn lemma_token_shape(t: Seq<char>)
    requires
        is_token(t),
    ensures
        t.len() == 64,
        forall|i: int| 0 <= i < t.len() ==> is_lower_hex_digit(#[trigger] t[i]),
{
    let b = choose|b: Seq<u8>| b.len() == 32 && t == hex_lower(b);
    lemma_hex_lower_shape(b);
}

pub struct TokenStore {
    current: String,
}

impl TokenStore {
    /// The current token is always the lower-case hex of 32 bytes.
    #[verifier::type_invariant]
    spec fn well_formed(self) -> bool {
        is_token(self.current@)
    }

    /// The token that the next request must carry.
    pub closed spec fn token(&self) -> Seq<char> {
        self.current@
    }

    /// A store holding a fresh random token.
    pub fn new() -> (s: Self)
        ensures
            is_token(s.token()),
    {
        let t = random_32();
        let current = hex_encode(&t);
        assert(t@.len() == 32);
        Self { current }
    }

    pub fn current_token(&self) -> (t: String)
        ensures
            t@ == self.token(),
            is_token(t@),
    {
        proof {
            use_type_invariant(self);
        }
        self.current.clone()
    }

    /// Accepts `supplied` only if it is the current token, and then replaces
    /// the token by a fresh random one; a refused token leaves the store as it was.
    pub fn check_and_rotate(&mut self, supplied: &str) -> (ok: bool)
        ensures
            ok == (supplied@ == old(self).token()),
            !ok ==> final(self).token() == old(self).token(),
            is_token(final(self).token()),
    {
        proof {
            use_type_invariant(&*self);
        }
        if str_eq(self.current.as_str(), supplied) {
            let t = random_32();
            self.current = hex_encode(&t);
            assert(t@.len() == 32);
            true
        } else {
            false
        }
    }
}

impl Default for TokenStore {
    fn default() -> (s: Self)
        ensures
            is_token(s.token()),
    {
        Self::new()
    }
}


} // verus!
