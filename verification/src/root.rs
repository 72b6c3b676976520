//! The root of a document, and the lifting of a whole syntax tree.

use vstd::prelude::*;
use crate::cast::{
    array_of, cast_array, cast_entry, cast_inner_value, cast_table, cast_value, entry_of,
    inner_value_of, table_of, value_of,
};
use crate::error::{errors_model, Error, ErrorModel};
use crate::extent::{
    array_range, array_text_range, entry_range, entry_text_range, table_range, table_text_range,
    value_range, value_text_range,
};
use crate::key::{key_of, Key, KeyNode};
use crate::lift::{errors_wf, lift, lift_spec};
use crate::merge::{entries_apart, merge_list};
use crate::merge_list::merge;
use crate::node::{
    array_wf, entries_plain, entries_wf, entry_wf, table_wf, value_wf, Array, ArrayNode, Entries,
    Entry, EntryNode, Table, TableNode, Value, ValueNode,
};
use crate::normalize::{entries_normal, normalize, normalize_list};
use crate::range::TextRange;
use crate::spans::{headers_of, lemma_span_list, set_table_spans, span_list};
use crate::syntax::{handle_of, Handle, SyntaxElement, SyntaxHandle, SyntaxKind};

verus! {

/// The root of a document: its entries, merged and normalized, and the
/// semantic errors that were found in it.
///
/// Syntax errors are not reported here; they are the parser's.
#[derive(Debug)]
pub struct RootNode {
    pub syntax: SyntaxHandle,
    pub errors: Vec<Error>,
    pub entries: Entries,
}

/// The mathematical value of a [`RootNode`].
pub ghost struct Root {
    pub syntax: Handle,
    pub errors: Seq<ErrorModel>,
    pub entries: Seq<Entry>,
}

impl View for RootNode {
    type V = Root;

    open spec fn view(&self) -> Root {
        Root { syntax: self.syntax@, errors: errors_model(self.errors@), entries: self.entries@ }
    }
}

/// The offset that the tables at the end of the document reach: one past
/// the end of the text.
pub open spec fn end_of_file(root: SyntaxElement) -> Option<u32> {
    if root.range.hi() < u32::MAX {
        Some((root.range.hi() + 1) as u32)
    } else {
        None
    }
}

/// The entries and errors of a document before the span pass: the flat
/// entries, merged and normalized where lifting found no error, and as they
/// are where it found one.
pub open spec fn shaped(root: SyntaxElement) -> (Seq<Entry>, Seq<ErrorModel>) {
    let (flat, errors) = lift_spec(root);
    if errors.len() == 0 {
        let (merged, more) = merge_list(flat);
        (normalize_list(merged), more)
    } else {
        (flat, errors)
    }
}

/// The document that a `ROOT` node stands for.
pub open spec fn root_of(root: SyntaxElement) -> Option<Root> {
    if root.kind != SyntaxKind::ROOT {
        None
    } else {
        Some(
            Root {
                syntax: handle_of(root),
                errors: shaped(root).1,
                entries: span_list(shaped(root).0, headers_of(root), end_of_file(root)),
            },
        )
    }
}

impl RootNode {
    /// Every key of the document has a proper window of identifiers, and
    /// every array of tables holds tables only.
    pub open spec fn wf(&self) -> bool {
        entries_wf(self.entries) && errors_wf(self.errors@)
    }

    /// Lifts a `ROOT` node into a document: its children are lifted into
    /// flat entries; where that finds no error the entries are merged and
    /// normalized; then every table is given its span.
    pub fn cast(element: &SyntaxElement) -> (r: Option<RootNode>)
        ensures
            match r {
                Some(n) => n.wf() && root_of(*element) == Some(n@),
                None => root_of(*element) is None,
            },
            r matches Some(n) ==> (lift_spec(*element).1.len() == 0 ==> entries_normal(
                n@.entries,
            )),
            r matches Some(n) ==> (lift_spec(*element).1.len() == 0 ==> entries_apart(n@.entries)),
            r matches Some(n) ==> (lift_spec(*element).1.len() > 0 ==> entries_plain(n@.entries)),
    {
        match element.kind {
            SyntaxKind::ROOT => {},
            _ => {
                return None;
            },
        }
        let (entries, errors) = lift(element);
        let mut entries = entries;
        let mut errors = errors;
        if errors.len() == 0 {
            assert(errors_model(errors@) =~= Seq::<ErrorModel>::empty());
            merge(&mut entries, &mut errors);
            assert(errors_model(errors@) =~= merge_list(lift_spec(*element).0).1);
            normalize(&mut entries);
        }
        let end_offset = element.range.end();
        let end = if end_offset < u32::MAX {
            Some(end_offset + 1)
        } else {
            None
        };
        proof {
            lemma_span_list(entries@, headers_of(*element), end);
        }
        set_table_spans(&mut entries, element, end);
        Some(RootNode { entries, errors, syntax: element.handle() })
    }

    pub fn entries(&self) -> (r: &Entries)
        ensures
            *r == self.entries,
    {
        &self.entries
    }

    pub fn into_entries(self) -> (r: Entries)
        ensures
            r == self.entries,
    {
        self.entries
    }

    pub fn errors(&self) -> (r: &[Error])
        ensures
            r@ == self.errors@,
    {
        self.errors.as_slice()
    }

    pub fn text_range(&self) -> (r: TextRange)
        ensures
            r == self@.syntax.range,
    {
        self.syntax.range
    }
}

/// Any node of a document.
#[derive(Debug)]
pub enum Node {
    Root(RootNode),
    Table(TableNode),
    Entry(EntryNode),
    Key(KeyNode),
    Value(ValueNode),
    Array(ArrayNode),
}

/// The mathematical value of a [`Node`].
pub ghost enum NodeModel {
    Root(Root),
    Table(Table),
    Entry(Entry),
    Key(Key),
    Value(Value),
    Array(Array),
}

impl View for Node {
    type V = NodeModel;

    open spec fn view(&self) -> NodeModel {
        match *self {
            Node::Root(n) => NodeModel::Root(n@),
            Node::Table(n) => NodeModel::Table(n@),
            Node::Entry(n) => NodeModel::Entry(n@),
            Node::Key(n) => NodeModel::Key(n@),
            Node::Value(n) => NodeModel::Value(n@),
            Node::Array(n) => NodeModel::Array(n@),
        }
    }
}

/// The node that a syntax element stands for, by its kind.
pub open spec fn node_of(e: SyntaxElement) -> Option<NodeModel> {
    match e.kind {
        SyntaxKind::STRING
        | SyntaxKind::MULTI_LINE_STRING
        | SyntaxKind::STRING_LITERAL
        | SyntaxKind::MULTI_LINE_STRING_LITERAL
        | SyntaxKind::INTEGER
        | SyntaxKind::INTEGER_HEX
        | SyntaxKind::INTEGER_OCT
        | SyntaxKind::INTEGER_BIN
        | SyntaxKind::FLOAT
        | SyntaxKind::BOOL
        | SyntaxKind::DATE
        | SyntaxKind::INLINE_TABLE => match inner_value_of(e) {
            Some(v) => Some(NodeModel::Value(v)),
            None => None,
        },
        SyntaxKind::KEY => match key_of(e) {
            Some(k) => Some(NodeModel::Key(k)),
            None => None,
        },
        SyntaxKind::VALUE => match value_of(e) {
            Some(v) => Some(NodeModel::Value(v)),
            None => None,
        },
        SyntaxKind::TABLE_HEADER | SyntaxKind::TABLE_ARRAY_HEADER => match table_of(e) {
            Some(t) => Some(NodeModel::Table(t)),
            None => None,
        },
        SyntaxKind::ENTRY => match entry_of(e) {
            Some(x) => Some(NodeModel::Entry(x)),
            None => None,
        },
        SyntaxKind::ARRAY => match array_of(e) {
            Some(a) => Some(NodeModel::Array(a)),
            None => None,
        },
        SyntaxKind::ROOT => match root_of(e) {
            Some(r) => Some(NodeModel::Root(r)),
            None => None,
        },
        _ => None,
    }
}

impl Node {
    /// Every key below the node has a proper window of identifiers.
    pub open spec fn wf(&self) -> bool {
        match *self {
            Node::Root(n) => n.wf(),
            Node::Table(n) => table_wf(n),
            Node::Entry(n) => entry_wf(n),
            Node::Key(n) => n.wf(),
            Node::Value(n) => value_wf(n),
            Node::Array(n) => array_wf(n),
        }
    }

    /// Lifts a syntax element into the node that its kind calls for.
    pub fn cast(element: &SyntaxElement) -> (r: Option<Node>)
        ensures
            match r {
                Some(n) => n.wf() && node_of(*element) == Some(n@),
                None => node_of(*element) is None,
            },
    {
        match element.kind {
            SyntaxKind::STRING
            | SyntaxKind::MULTI_LINE_STRING
            | SyntaxKind::STRING_LITERAL
            | SyntaxKind::MULTI_LINE_STRING_LITERAL
            | SyntaxKind::INTEGER
            | SyntaxKind::INTEGER_HEX
            | SyntaxKind::INTEGER_OCT
            | SyntaxKind::INTEGER_BIN
            | SyntaxKind::FLOAT
            | SyntaxKind::BOOL
            | SyntaxKind::DATE
            | SyntaxKind::INLINE_TABLE => match cast_inner_value(element) {
                Some(v) => Some(Node::Value(v)),
                None => None,
            },
            SyntaxKind::KEY => match KeyNode::cast(element) {
                Some(k) => Some(Node::Key(k)),
                None => None,
            },
            SyntaxKind::VALUE => match cast_value(element) {
                Some(v) => Some(Node::Value(v)),
                None => None,
            },
            SyntaxKind::TABLE_HEADER | SyntaxKind::TABLE_ARRAY_HEADER => match cast_table(element) {
                Some(t) => Some(Node::Table(t)),
                None => None,
            },
            SyntaxKind::ENTRY => match cast_entry(element) {
                Some(e) => Some(Node::Entry(e)),
                None => None,
            },
            SyntaxKind::ARRAY => match cast_array(element) {
                Some(a) => Some(Node::Array(a)),
                None => None,
            },
            SyntaxKind::ROOT => match RootNode::cast(element) {
                Some(r) => Some(Node::Root(r)),
                None => None,
            },
            _ => None,
        }
    }

    /// The text that the node covers.
    pub fn text_range(&self) -> (r: TextRange)
        requires
            self.wf(),
        ensures
            r == match self@ {
                NodeModel::Root(n) => n.syntax.range,
                NodeModel::Table(n) => table_range(n),
                NodeModel::Entry(n) => entry_range(n),
                NodeModel::Key(n) => n.text_range(),
                NodeModel::Value(n) => value_range(n),
                NodeModel::Array(n) => array_range(n),
            },
    {
        match self {
            Node::Root(n) => n.syntax.range,
            Node::Table(n) => table_text_range(n),
            Node::Entry(n) => entry_text_range(n),
            Node::Key(n) => n.text_range(),
            Node::Value(n) => value_text_range(n),
            Node::Array(n) => array_text_range(n),
        }
    }

    /// The kind of the syntax element that the node came from. An invalid
    /// value without a handle and an empty value have none.
    pub fn kind(&self) -> (r: Option<SyntaxKind>)
        ensures
            r == match self@ {
                NodeModel::Root(n) => Some(n.syntax.kind),
                NodeModel::Table(n) => Some(n.syntax.kind),
                NodeModel::Entry(n) => Some(n.syntax.kind),
                NodeModel::Key(n) => Some(n.syntax.kind),
                NodeModel::Value(n) => value_kind(n),
                NodeModel::Array(n) => Some(n.syntax.kind),
            },
    {
        match self {
            Node::Root(n) => Some(n.syntax.kind),
            Node::Table(n) => Some(n.syntax.kind),
            Node::Entry(n) => Some(n.syntax.kind),
            Node::Key(n) => Some(n.syntax.kind),
            Node::Value(n) => match n {
                ValueNode::Bool(v) => Some(v.syntax.kind),
                ValueNode::String(v) => Some(v.syntax.kind),
                ValueNode::Integer(v) => Some(v.syntax.kind),
                ValueNode::Float(v) => Some(v.syntax.kind),
                ValueNode::Array(v) => Some(v.syntax.kind),
                ValueNode::Date(v) => Some(v.syntax.kind),
                ValueNode::Table(v) => Some(v.syntax.kind),
                ValueNode::Invalid(h) => match h {
                    Some(h) => Some(h.kind),
                    None => None,
                },
                ValueNode::Empty => None,
            },
            Node::Array(n) => Some(n.syntax.kind),
        }
    }
}

/// The kind of the syntax element that a value came from.
pub open spec fn value_kind(v: Value) -> Option<SyntaxKind> {
    match v {
        Value::Bool(h) => Some(h.kind),
        Value::String(s) => Some(s.syntax.kind),
        Value::Integer(i) => Some(i.syntax.kind),
        Value::Float(h) => Some(h.kind),
        Value::Array(a) => Some(a.syntax.kind),
        Value::Date(h) => Some(h.kind),
        Value::Table(t) => Some(t.syntax.kind),
        Value::Invalid(h) => match h {
            Some(h) => Some(h.kind),
            None => None,
        },
        Value::Empty => None,
    }
}

/// The handle of the syntax element that a value came from.
pub open spec fn value_handle(v: Value) -> Option<Handle> {
    match v {
        Value::Bool(h) => Some(h),
        Value::String(s) => Some(s.syntax),
        Value::Integer(i) => Some(i.syntax),
        Value::Float(h) => Some(h),
        Value::Array(a) => Some(a.syntax),
        Value::Date(h) => Some(h),
        Value::Table(t) => Some(t.syntax),
        Value::Invalid(h) => h,
        Value::Empty => None,
    }
}

} // verus!
