//! The traits that the nodes of a document share.

use vstd::prelude::*;
use crate::cast::{array_of, entry_of, integer_of, str_of, table_of, value_of};
use crate::extent::{array_range, entry_range, table_range, value_range};
use crate::key::{key_of, KeyNode};
use crate::node::{
    array_wf, entry_wf, table_wf, value_wf, ArrayNode, BoolNode, DateNode, EntryNode, FloatNode,
    IntegerNode, StringNode, TableNode, ValueNode,
};
use crate::private::Sealed;
use crate::range::TextRange;
use crate::root::{node_of, root_of, Node, NodeModel, RootNode};
use crate::syntax::{handle_of, Handle, SyntaxElement, SyntaxHandle, SyntaxKind};

verus! {

/// Casting makes a node of a document from a syntax element.
pub trait Cast: Sized + Sealed {
    /// Whether `node` is what `element` stands for.
    spec fn cast_of(element: SyntaxElement, node: Option<Self>) -> bool;

    fn cast(element: &SyntaxElement) -> (r: Option<Self>)
        ensures
            Self::cast_of(*element, r),
    ;
}

/// What every node of a document has.
pub trait Common: Sealed {
    /// Every key below the node has a proper window of identifiers.
    spec fn sound(&self) -> bool;

    /// The handle of the syntax element that the node came from.
    spec fn handle(&self) -> Option<Handle>;

    /// The text that the node covers.
    spec fn extent(&self) -> TextRange;

    /// Whether the node is a node of the document.
    spec fn valid(&self) -> bool;

    /// The handle of the syntax element that the node came from. An invalid
    /// value may have none, and an empty value has none.
    fn syntax(&self) -> (r: Option<SyntaxHandle>)
        ensures
            match r {
                Some(h) => self.handle() == Some(h@),
                None => self.handle() is None,
            },
    ;

    fn text_range(&self) -> (r: TextRange)
        requires
            self.sound(),
        ensures
            r == self.extent(),
    ;

    fn is_valid(&self) -> (b: bool)
        ensures
            b == self.valid(),
    ;
}

impl Cast for KeyNode {
    open spec fn cast_of(element: SyntaxElement, node: Option<Self>) -> bool {
        match node {
            Some(k) => k.wf() && key_of(element) == Some(k@),
            None => key_of(element) is None,
        }
    }

    fn cast(element: &SyntaxElement) -> (r: Option<Self>) {
        KeyNode::cast(element)
    }
}

impl Cast for IntegerNode {
    open spec fn cast_of(element: SyntaxElement, node: Option<Self>) -> bool {
        match node {
            Some(n) => integer_of(element) == Some(n@),
            None => integer_of(element) is None,
        }
    }

    fn cast(element: &SyntaxElement) -> (r: Option<Self>) {
        IntegerNode::cast(element)
    }
}

impl Cast for StringNode {
    open spec fn cast_of(element: SyntaxElement, node: Option<Self>) -> bool {
        match node {
            Some(n) => str_of(element) == Some(n@),
            None => str_of(element) is None,
        }
    }

    fn cast(element: &SyntaxElement) -> (r: Option<Self>) {
        StringNode::cast(element)
    }
}

impl Cast for BoolNode {
    open spec fn cast_of(element: SyntaxElement, node: Option<Self>) -> bool {
        match node {
            Some(n) => element.kind == SyntaxKind::BOOL && n@ == handle_of(element),
            None => element.kind != SyntaxKind::BOOL,
        }
    }

    fn cast(element: &SyntaxElement) -> (r: Option<Self>) {
        BoolNode::cast(element)
    }
}

impl Cast for FloatNode {
    open spec fn cast_of(element: SyntaxElement, node: Option<Self>) -> bool {
        match node {
            Some(n) => element.kind == SyntaxKind::FLOAT && n@ == handle_of(element),
            None => element.kind != SyntaxKind::FLOAT,
        }
    }

    fn cast(element: &SyntaxElement) -> (r: Option<Self>) {
        FloatNode::cast(element)
    }
}

impl Cast for DateNode {
    open spec fn cast_of(element: SyntaxElement, node: Option<Self>) -> bool {
        match node {
            Some(n) => element.kind == SyntaxKind::DATE && n@ == handle_of(element),
            None => element.kind != SyntaxKind::DATE,
        }
    }

    fn cast(element: &SyntaxElement) -> (r: Option<Self>) {
        DateNode::cast(element)
    }
}

impl Cast for ValueNode {
    open spec fn cast_of(element: SyntaxElement, node: Option<Self>) -> bool {
        match node {
            Some(v) => value_wf(v) && value_of(element) == Some(v@),
            None => value_of(element) is None,
        }
    }

    fn cast(element: &SyntaxElement) -> (r: Option<Self>) {
        ValueNode::cast(element)
    }
}

impl Cast for ArrayNode {
    open spec fn cast_of(element: SyntaxElement, node: Option<Self>) -> bool {
        match node {
            Some(a) => array_wf(a) && array_of(element) == Some(a@),
            None => array_of(element) is None,
        }
    }

    fn cast(element: &SyntaxElement) -> (r: Option<Self>) {
        ArrayNode::cast(element)
    }
}

impl Cast for TableNode {
    open spec fn cast_of(element: SyntaxElement, node: Option<Self>) -> bool {
        match node {
            Some(t) => table_wf(t) && table_of(element) == Some(t@),
            None => table_of(element) is None,
        }
    }

    fn cast(element: &SyntaxElement) -> (r: Option<Self>) {
        TableNode::cast(element)
    }
}

impl Cast for EntryNode {
    open spec fn cast_of(element: SyntaxElement, node: Option<Self>) -> bool {
        match node {
            Some(e) => entry_wf(e) && entry_of(element) == Some(e@),
            None => entry_of(element) is None,
        }
    }

    fn cast(element: &SyntaxElement) -> (r: Option<Self>) {
        EntryNode::cast(element)
    }
}

impl Cast for RootNode {
    open spec fn cast_of(element: SyntaxElement, node: Option<Self>) -> bool {
        match node {
            Some(n) => n.wf() && root_of(element) == Some(n@),
            None => root_of(element) is None,
        }
    }

    fn cast(element: &SyntaxElement) -> (r: Option<Self>) {
        RootNode::cast(element)
    }
}

impl Cast for Node {
    open spec fn cast_of(element: SyntaxElement, node: Option<Self>) -> bool {
        match node {
            Some(n) => n.wf() && node_of(element) == Some(n@),
            None => node_of(element) is None,
        }
    }

    fn cast(element: &SyntaxElement) -> (r: Option<Self>) {
        Node::cast(element)
    }
}

impl Common for KeyNode {
    open spec fn sound(&self) -> bool {
        self.wf()
    }

    open spec fn handle(&self) -> Option<Handle> {
        Some(self@.syntax)
    }

    open spec fn extent(&self) -> TextRange {
        self@.text_range()
    }

    open spec fn valid(&self) -> bool {
        true
    }

    fn syntax(&self) -> (r: Option<SyntaxHandle>) {
        Some(self.syntax.clone())
    }

    fn text_range(&self) -> (r: TextRange) {
        KeyNode::text_range(self)
    }

    fn is_valid(&self) -> (b: bool) {
        true
    }
}

impl Common for EntryNode {
    open spec fn sound(&self) -> bool {
        true
    }

    open spec fn handle(&self) -> Option<Handle> {
        Some(self@.syntax)
    }

    open spec fn extent(&self) -> TextRange {
        entry_range(self@)
    }

    open spec fn valid(&self) -> bool {
        true
    }

    fn syntax(&self) -> (r: Option<SyntaxHandle>) {
        Some(self.syntax.clone())
    }

    fn text_range(&self) -> (r: TextRange) {
        EntryNode::text_range(self)
    }

    fn is_valid(&self) -> (b: bool) {
        true
    }
}

impl Common for TableNode {
    open spec fn sound(&self) -> bool {
        table_wf(*self)
    }

    open spec fn handle(&self) -> Option<Handle> {
        Some(self@.syntax)
    }

    open spec fn extent(&self) -> TextRange {
        table_range(self@)
    }

    open spec fn valid(&self) -> bool {
        true
    }

    fn syntax(&self) -> (r: Option<SyntaxHandle>) {
        Some(self.syntax.clone())
    }

    fn text_range(&self) -> (r: TextRange) {
        TableNode::text_range(self)
    }

    fn is_valid(&self) -> (b: bool) {
        true
    }
}

impl Common for ArrayNode {
    open spec fn sound(&self) -> bool {
        array_wf(*self)
    }

    open spec fn handle(&self) -> Option<Handle> {
        Some(self@.syntax)
    }

    open spec fn extent(&self) -> TextRange {
        array_range(self@)
    }

    open spec fn valid(&self) -> bool {
        true
    }

    fn syntax(&self) -> (r: Option<SyntaxHandle>) {
        Some(self.syntax.clone())
    }

    fn text_range(&self) -> (r: TextRange) {
        ArrayNode::text_range(self)
    }

    fn is_valid(&self) -> (b: bool) {
        true
    }
}

impl Common for ValueNode {
    open spec fn sound(&self) -> bool {
        value_wf(*self)
    }

    open spec fn handle(&self) -> Option<Handle> {
        crate::root::value_handle(self@)
    }

    open spec fn extent(&self) -> TextRange {
        value_range(self@)
    }

    open spec fn valid(&self) -> bool {
        !(self@ is Invalid || self@ is Empty)
    }

    fn syntax(&self) -> (r: Option<SyntaxHandle>) {
        match self {
            ValueNode::Bool(v) => Some(v.syntax.clone()),
            ValueNode::String(v) => Some(v.syntax.clone()),
            ValueNode::Integer(v) => Some(v.syntax.clone()),
            ValueNode::Float(v) => Some(v.syntax.clone()),
            ValueNode::Array(v) => Some(v.syntax.clone()),
            ValueNode::Date(v) => Some(v.syntax.clone()),
            ValueNode::Table(v) => Some(v.syntax.clone()),
            ValueNode::Invalid(h) => match h {
                Some(h) => Some(h.clone()),
                None => None,
            },
            ValueNode::Empty => None,
        }
    }

    fn text_range(&self) -> (r: TextRange) {
        ValueNode::text_range(self)
    }

    fn is_valid(&self) -> (b: bool) {
        ValueNode::is_valid(self)
    }
}

impl Common for IntegerNode {
    open spec fn sound(&self) -> bool {
        true
    }

    open spec fn handle(&self) -> Option<Handle> {
        Some(self@.syntax)
    }

    open spec fn extent(&self) -> TextRange {
        self@.syntax.range
    }

    open spec fn valid(&self) -> bool {
        true
    }

    fn syntax(&self) -> (r: Option<SyntaxHandle>) {
        Some(self.syntax.clone())
    }

    fn text_range(&self) -> (r: TextRange) {
        IntegerNode::text_range(self)
    }

    fn is_valid(&self) -> (b: bool) {
        true
    }
}

impl Common for StringNode {
    open spec fn sound(&self) -> bool {
        true
    }

    open spec fn handle(&self) -> Option<Handle> {
        Some(self@.syntax)
    }

    open spec fn extent(&self) -> TextRange {
        self@.syntax.range
    }

    open spec fn valid(&self) -> bool {
        true
    }

    fn syntax(&self) -> (r: Option<SyntaxHandle>) {
        Some(self.syntax.clone())
    }

    fn text_range(&self) -> (r: TextRange) {
        StringNode::text_range(self)
    }

    fn is_valid(&self) -> (b: bool) {
        true
    }
}

impl Common for BoolNode {
    open spec fn sound(&self) -> bool {
        true
    }

    open spec fn handle(&self) -> Option<Handle> {
        Some(self@)
    }

    open spec fn extent(&self) -> TextRange {
        self@.range
    }

    open spec fn valid(&self) -> bool {
        true
    }

    fn syntax(&self) -> (r: Option<SyntaxHandle>) {
        Some(self.syntax.clone())
    }

    fn text_range(&self) -> (r: TextRange) {
        BoolNode::text_range(self)
    }

    fn is_valid(&self) -> (b: bool) {
        true
    }
}

impl Common for FloatNode {
    open spec fn sound(&self) -> bool {
        true
    }

    open spec fn handle(&self) -> Option<Handle> {
        Some(self@)
    }

    open spec fn extent(&self) -> TextRange {
        self@.range
    }

    open spec fn valid(&self) -> bool {
        true
    }

    fn syntax(&self) -> (r: Option<SyntaxHandle>) {
        Some(self.syntax.clone())
    }

    fn text_range(&self) -> (r: TextRange) {
        FloatNode::text_range(self)
    }

    fn is_valid(&self) -> (b: bool) {
        true
    }
}

impl Common for DateNode {
    open spec fn sound(&self) -> bool {
        true
    }

    open spec fn handle(&self) -> Option<Handle> {
        Some(self@)
    }

    open spec fn extent(&self) -> TextRange {
        self@.range
    }

    open spec fn valid(&self) -> bool {
        true
    }

    fn syntax(&self) -> (r: Option<SyntaxHandle>) {
        Some(self.syntax.clone())
    }

    fn text_range(&self) -> (r: TextRange) {
        DateNode::text_range(self)
    }

    fn is_valid(&self) -> (b: bool) {
        true
    }
}

impl Common for RootNode {
    open spec fn sound(&self) -> bool {
        true
    }

    open spec fn handle(&self) -> Option<Handle> {
        Some(self@.syntax)
    }

    open spec fn extent(&self) -> TextRange {
        self@.syntax.range
    }

    open spec fn valid(&self) -> bool {
        true
    }

    fn syntax(&self) -> (r: Option<SyntaxHandle>) {
        Some(self.syntax.clone())
    }

    fn text_range(&self) -> (r: TextRange) {
        RootNode::text_range(self)
    }

    fn is_valid(&self) -> (b: bool) {
        true
    }
}

impl Common for Node {
    open spec fn sound(&self) -> bool {
        self.wf()
    }

    open spec fn handle(&self) -> Option<Handle> {
        match self@ {
            NodeModel::Root(n) => Some(n.syntax),
            NodeModel::Table(n) => Some(n.syntax),
            NodeModel::Entry(n) => Some(n.syntax),
            NodeModel::Key(n) => Some(n.syntax),
            NodeModel::Value(n) => crate::root::value_handle(n),
            NodeModel::Array(n) => Some(n.syntax),
        }
    }

    open spec fn extent(&self) -> TextRange {
        match self@ {
            NodeModel::Root(n) => n.syntax.range,
            NodeModel::Table(n) => table_range(n),
            NodeModel::Entry(n) => entry_range(n),
            NodeModel::Key(n) => n.text_range(),
            NodeModel::Value(n) => value_range(n),
            NodeModel::Array(n) => array_range(n),
        }
    }

    open spec fn valid(&self) -> bool {
        match self@ {
            NodeModel::Value(n) => !(n is Invalid || n is Empty),
            _ => true,
        }
    }

    fn syntax(&self) -> (r: Option<SyntaxHandle>) {
        match self {
            Node::Root(n) => Common::syntax(n),
            Node::Table(n) => Common::syntax(n),
            Node::Entry(n) => Common::syntax(n),
            Node::Key(n) => Common::syntax(n),
            Node::Value(n) => Common::syntax(n),
            Node::Array(n) => Common::syntax(n),
        }
    }

    fn text_range(&self) -> (r: TextRange) {
        Node::text_range(self)
    }

    fn is_valid(&self) -> (b: bool) {
        match self {
            Node::Value(n) => ValueNode::is_valid(n),
            _ => true,
        }
    }
}

} // verus!
