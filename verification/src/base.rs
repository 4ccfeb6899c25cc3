//! What the rest of the crate stands on: byte strings, host paths, errors.

pub mod error;
pub mod log;
pub mod path;
pub mod text;
pub mod trace;

pub use error::{Error, ErrorView};
