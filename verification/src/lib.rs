//! A small verified core for a command-line HTTP client: interpreting
//! flags into a request intent, validating URLs with a precise error
//! taxonomy, building the request plan, and rendering responses with
//! canonicalized (key-sorted) JSON.

pub mod args;
pub mod codec;
pub mod json;
pub mod render;
pub mod request;
pub mod urlcheck;

pub use json::JsonValue;
