//! Repository backends.

pub mod backend;
pub mod rust;
pub mod rust_znippy;
pub mod types;
