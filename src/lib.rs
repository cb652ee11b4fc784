//! Configuration resolution and file policy for a source-code spell checker.

pub mod backends;
pub mod config;
pub mod intern;
pub mod laws;
pub mod policy;
pub mod run;
pub mod fix;
