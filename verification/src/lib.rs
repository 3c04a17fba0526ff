//! `seck`: analysis of untrusted files by a sandboxed local model, with the
//! untrusted bytes kept inside a checked IO boundary.
//!
//! The library holds the decisions: the host-to-reader wire format and the
//! nonce-delimited prompt, the split reader's messages, the three-pass
//! pipeline, the report sanitizer and renderers, the trace checker for the
//! IO boundary, the sandbox profiles and container argv, the web viewer's
//! token and bind rules, the terminal viewer's state, and mobile pairing.
pub mod codec;
pub mod json;
pub mod net;
pub mod pair;
pub mod pipeline;
pub mod plugin;
pub mod proto;
pub mod reader;
pub mod reader_ipc;
pub mod reader_priv;
pub mod report;
pub mod sandbox;
pub mod taint;
pub mod text;
pub mod trace_check;
pub mod tui;
pub mod web;
