//! Runtime side of the IO-boundary check: parses an `strace -f` capture
//! into the `Effect` grammar and checks that a canary taken from the
//! user's input never reaches a path, an exec, or the network, and is
//! written only to the permitted descriptors.
pub mod checker;
pub mod strace_parse;

pub use checker::{InvariantError, check_trace};
pub use strace_parse::{Effect, parse_strace};
