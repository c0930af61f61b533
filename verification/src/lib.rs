//! Resolution of secret identifiers into named, log-masked workflow variables.
//!
//! The crate turns a list of `identifier > name` lines into a validated
//! mapping, joins retrieved secret records with the names asked for, and
//! composes the workflow commands that expose each secret to the job.

pub mod correlate;
pub mod emit;
pub mod escape;
pub mod ident;
pub mod line;
pub mod mapping;
pub mod parse;
pub mod warning;
