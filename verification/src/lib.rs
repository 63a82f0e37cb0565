//! Expand command-line argument templates against text lines.
//!
//! A template references fields captured from a line by a regular
//! expression: `{name}` for a named group, `{2}` for a positional group,
//! `{1..3}` for a joined range, `{1...3}` for a range that fans out into
//! several arguments.  This crate parses the template mini-language,
//! groups its fragments into join and split units, and resolves them
//! against the captures of one line.

use vstd::prelude::*;

pub mod combine;
pub mod context;
pub mod decimal;
pub mod field;
pub mod laws;
pub mod range;
pub mod rargs;
pub mod re;
pub mod template;

pub use combine::{Combination, Join, Split};
pub use combine::{combine_with_context, group_combinations};
pub use context::RegexContext;
pub use field::ArgFragment;
pub use template::ArgTemplate;
pub use range::Range;
pub use rargs::Rargs;

verus! {

} // verus!
