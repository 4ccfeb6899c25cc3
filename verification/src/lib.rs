//! Staging of minimal root filesystems around dynamically linked executables.
//!
//! The crate holds the rules of the bundler: how paths are keyed, how the
//! dynamic string tokens of a search path are expanded, in which order a
//! shared library is searched, which files a bundle holds and how they are
//! laid out under a destination. Everything here works on plain values; the
//! caller performs the file and process operations that the rules ask for.
//!
//! Paths and names are byte strings, as the operating system has them.

pub mod action;
pub mod base;
pub mod domain;
