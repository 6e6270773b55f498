//! The core of `elba`, a package manager for Idris.
pub mod build;
pub mod package;
pub mod path;
pub mod resolve;
pub mod retrieve;
pub mod util;
