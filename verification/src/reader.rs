//! In-sandbox reader: the wire-format parser and the nonce-delimited
//! prompt assembler.
pub mod protocol;
pub mod prompt;
pub mod session;
pub mod stream;
