//! Host→reader FD-3 wire format.
//!
//! Frame layout (little-endian):
//! ```text
//! header   := magic[4]="SECK" | version[2]=1 | rsv[2]=0 | n_entries[4]
//! entry    := pathlen[4] | path[pathlen utf8] | bytelen[8] | bytes[bytelen]
//! trailer  := magic[4]="DONE"
//! ```
//!
//! Tainted file bytes appear only in the `bytes[bytelen]` field.
use vstd::prelude::*;

verus! {

/// `std::io::Error`, carried through unchanged.
#[verifier::external_type_specification]
#[verifier::external_body]
pub struct ExIoError(std::io::Error);

/// Whether `e.kind()` is `std::io::ErrorKind::UnexpectedEof`.
pub uninterp spec fn is_unexpected_eof(e: std::io::Error) -> bool;

/// `std::io::Error::from(std::io::ErrorKind::UnexpectedEof)`: an error whose
/// `kind()` is `UnexpectedEof`.
#[verifier::external_body]
pub(crate) fn unexpected_eof() -> (e: std::io::Error)
    ensures
        is_unexpected_eof(e),
{
    std::io::Error::from(std::io::ErrorKind::UnexpectedEof)
}

/// The error of a stream that ends inside a field.
pub open spec fn cut_off() -> SpecProtoError {
    SpecProtoError::Io { unexpected_eof: true }
}

/// `"SECK"`.
pub const MAGIC_HEADER: [u8; 4] = [0x53, 0x45, 0x43, 0x4b];

/// `"DONE"`.
pub const MAGIC_TRAILER: [u8; 4] = [0x44, 0x4f, 0x4e, 0x45];

pub const VERSION: u16 = 1;

#[derive(Debug)]
pub enum ProtoError {
    BadMagic,
    BadVersion(u16),
    ShortRead,
    /// A read failed; a stream that ends inside a field fails with kind
    /// `UnexpectedEof`, as `Read::read_exact` reports it.
    Io(std::io::Error),
    BadPath,
    TooLarge(u64),
}

/// The mathematical value of a `ProtoError`.
pub enum SpecProtoError {
    BadMagic,
    BadVersion(u16),
    ShortRead,
    Io { unexpected_eof: bool },
    BadPath,
    TooLarge(u64),
}

impl View for ProtoError {
    type V = SpecProtoError;

    open spec fn view(&self) -> SpecProtoError {
        match self {
            ProtoError::BadMagic => SpecProtoError::BadMagic,
            ProtoError::BadVersion(v) => SpecProtoError::BadVersion(*v),
            ProtoError::ShortRead => SpecProtoError::ShortRead,
            ProtoError::Io(e) => SpecProtoError::Io { unexpected_eof: is_unexpected_eof(*e) },
            ProtoError::BadPath => SpecProtoError::BadPath,
            ProtoError::TooLarge(n) => SpecProtoError::TooLarge(*n),
        }
    }
}

/// Maximum bytes in a single entry.
pub const MAX_ENTRY_BYTES: u64 = 16 * 1024 * 1024;

/// Maximum entries in one frame stream.
pub const MAX_ENTRIES: u32 = 10_000;

/// Maximum path length in bytes.
pub const MAX_PATH_LEN: u32 = 4096;

} // verus!
