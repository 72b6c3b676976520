//! A semantic document model for TOML: syntax trees are lifted into keyed
//! entries, dotted keys and arrays of tables are merged into nested tables,
//! and every table is given the span of text that it owns.

pub mod api;
pub mod cast;
pub mod dom;
pub mod error;
pub mod extent;
pub mod flat;
pub mod key;
pub mod key_eq;
pub mod leaves;
pub mod lift;
pub mod merge;
pub mod merge_entry;
pub mod merge_into;
pub mod merge_list;
pub mod merge_place;
pub mod node;
pub mod normalize;
pub mod pairs;
mod private;
pub mod range;
pub mod root;
pub mod spans;
pub mod syntax;
pub mod text;
pub mod traits;
