//! Actually building Idris packages.
pub mod compile;
pub mod run;
pub mod target;

pub use self::compile::{compile_bin, compile_lib};
pub use self::target::{Target, Targets};
