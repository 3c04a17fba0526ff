//! Report sanitizer, schema and terminal renderer.
pub mod sanitize;
pub mod renderer;
pub mod schema;
