use vstd::prelude::*;

pub mod bundle;
pub mod bundle_crate;
pub mod config_toml;
pub mod error;
pub mod find_crate;
pub mod fmt;
pub mod laws;
pub mod modules;
pub mod parse_line;
pub mod prettify;
pub mod remove;
pub mod resolver;
pub mod text;
pub mod types;
pub mod writer;

verus! {

/// Width of one indentation unit, in columns.
pub const TAB_LENGTH: usize = 4;

} // verus!
