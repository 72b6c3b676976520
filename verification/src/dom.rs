//! The document model in one place: the nodes of a document, their keys
//! and errors, and the traits that they share.

pub use crate::error::Error;
pub use crate::key::{Ident, KeyNode};
pub use crate::node::{
    ArrayNode, BoolNode, DateNode, Entries, EntryNode, FloatNode, IntegerNode, IntegerRepr,
    StringKind, StringNode, TableNode, ValueNode,
};
pub use crate::range::TextRange;
pub use crate::root::{Node, RootNode};
pub use crate::syntax::{SyntaxElement, SyntaxHandle, SyntaxKind};
pub use crate::traits::{Cast, Common};
