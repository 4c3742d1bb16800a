//! Rule registry. Each rule lives in its own module and exposes a `run`
//! entry point; [`common`] holds the analysis primitives they share.

pub mod common;
pub mod sg001;
pub mod sg002;
pub mod laws;
