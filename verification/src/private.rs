//! What keeps the traits of the document nodes closed to other crates.

use vstd::prelude::*;
use crate::key::KeyNode;
use crate::node::{
    ArrayNode, BoolNode, DateNode, EntryNode, FloatNode, IntegerNode, StringNode, TableNode,
    ValueNode,
};
use crate::root::{Node, RootNode};

verus! {

/// Implemented by the nodes of a document and by nothing else.
pub trait Sealed {

}

impl Sealed for Node {

}

impl Sealed for RootNode {

}

impl Sealed for EntryNode {

}

impl Sealed for KeyNode {

}

impl Sealed for ValueNode {

}

impl Sealed for ArrayNode {

}

impl Sealed for TableNode {

}

impl Sealed for IntegerNode {

}

impl Sealed for StringNode {

}

impl Sealed for BoolNode {

}

impl Sealed for FloatNode {

}

impl Sealed for DateNode {

}

} // verus!
