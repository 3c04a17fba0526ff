//! Localhost-only web UI for reports: strict rendering, a single-use
//! capability token, and a bind check that refuses non-loopback addresses.
pub mod bind;
pub mod render;
pub mod token;
pub mod page;
