//! What the nodes of a document offer to their readers.

use vstd::prelude::*;
use crate::cast::{
    array_of, cast_array, cast_entry, cast_table, cast_value, entry_of, table_of, value_of,
};
use crate::error::{errors_model, Error};
use crate::extent::{
    array_range, array_text_range, entries_range, entries_text_range, entry_range,
    entry_text_range, table_range, table_text_range, value_range, value_text_range,
};
use crate::key::KeyNode;
use crate::lift::errors_wf;
use crate::merge::{below_apart, entries_apart, is_inline, merge_list};
use crate::merge_list::merge;
use crate::normalize::{entries_normal, normalize, normalize_list};
use crate::spans::{headers_of, set_table_spans, span_list};
use crate::node::{
    array_wf, entries_wf, entry_wf, table_wf, value_wf, ArrayNode, Entries, EntryNode, TableNode,
    Value, ValueNode,
};
use crate::range::TextRange;
use crate::syntax::{SyntaxElement, SyntaxKind};

verus! {

impl TableNode {
    /// Lifts a header into an empty table, and an inline table into a table
    /// with its entries.
    pub fn cast(element: &SyntaxElement) -> (r: Option<TableNode>)
        ensures
            match r {
                Some(t) => table_wf(t) && table_of(*element) == Some(t@),
                None => table_of(*element) is None,
            },
    {
        cast_table(element)
    }

    pub fn entries(&self) -> (r: &Entries)
        ensures
            *r == self.entries,
    {
        &self.entries
    }

    pub fn into_entries(self) -> (r: Entries)
        ensures
            r == self.entries,
    {
        self.entries
    }

    /// Whether the table stands under an array-of-tables header.
    pub fn is_part_of_array(&self) -> (b: bool)
        ensures
            b == self@.array,
    {
        self.array
    }

    /// Whether the table was written inline.
    pub fn is_inline(&self) -> (b: bool)
        ensures
            b == is_inline(self@),
    {
        match self.syntax.kind {
            SyntaxKind::INLINE_TABLE => true,
            _ => false,
        }
    }

    /// Whether the table was made from dotted keys.
    pub fn is_pseudo(&self) -> (b: bool)
        ensures
            b == self@.pseudo,
    {
        self.pseudo
    }

    /// The text that the table covers.
    pub fn text_range(&self) -> (r: TextRange)
        requires
            table_wf(*self),
        ensures
            r == table_range(self@),
    {
        table_text_range(self)
    }
}

impl Entries {
    /// Merges the entries into tables and arrays of tables. An entry that
    /// cannot be merged is dropped and leaves an error. The keys of the
    /// result may still be dotted.
    pub fn merge(&mut self, errors: &mut Vec<Error>)
        requires
            entries_wf(*old(self)),
            errors_wf(old(errors)@),
            below_apart(old(self)@),
        ensures
            entries_wf(*final(self)),
            errors_wf(final(errors)@),
            entries_apart(final(self)@),
            final(self)@ == merge_list(old(self)@).0,
            errors_model(final(errors)@) == errors_model(old(errors)@) + merge_list(old(self)@).1,
    {
        merge(self, errors)
    }

    /// Turns every dotted key, at every depth, into nested tables.
    pub fn normalize(&mut self)
        requires
            entries_wf(*old(self)),
        ensures
            entries_wf(*final(self)),
            final(self)@ == normalize_list(old(self)@),
            entries_normal(final(self)@),
            entries_apart(old(self)@) ==> entries_apart(final(self)@),
    {
        normalize(self)
    }

    /// Gives every table under a header of `root` the offset at which its
    /// text ends; a table after which no header ends its span ends at `end`.
    pub fn set_table_spans(&mut self, root: &SyntaxElement, end: Option<u32>)
        requires
            entries_wf(*old(self)),
        ensures
            entries_wf(*final(self)),
            final(self)@ == span_list(old(self)@, headers_of(*root), end),
    {
        set_table_spans(self, root, end)
    }

    pub fn len(&self) -> (n: usize)
        ensures
            n == self@.len(),
    {
        self.0.len()
    }

    pub fn is_empty(&self) -> (b: bool)
        ensures
            b == (self@.len() == 0),
    {
        self.0.len() == 0
    }

    /// The entries, in order.
    pub fn iter(&self) -> (r: &[EntryNode])
        ensures
            r@ == self.0@,
    {
        self.0.as_slice()
    }

    /// The text that the entries cover; `None` where there is no entry.
    pub fn text_range(&self) -> (r: Option<TextRange>)
        requires
            entries_wf(*self),
        ensures
            r == entries_range(self@, self@.len()),
    {
        entries_text_range(self)
    }
}

impl ArrayNode {
    /// Lifts an `ARRAY` node into an array of its values.
    pub fn cast(element: &SyntaxElement) -> (r: Option<ArrayNode>)
        ensures
            match r {
                Some(a) => array_wf(a) && array_of(*element) == Some(a@),
                None => array_of(*element) is None,
            },
    {
        cast_array(element)
    }

    pub fn items(&self) -> (r: &[ValueNode])
        ensures
            r@ == self.items@,
    {
        self.items.as_slice()
    }

    pub fn into_items(self) -> (r: Vec<ValueNode>)
        ensures
            r == self.items,
    {
        self.items
    }

    /// The text that the array covers.
    pub fn text_range(&self) -> (r: TextRange)
        requires
            array_wf(*self),
        ensures
            r == array_range(self@),
    {
        array_text_range(self)
    }

    pub fn is_array_of_tables(&self) -> (b: bool)
        ensures
            b == self@.tables,
    {
        self.tables
    }
}

impl EntryNode {
    /// Lifts an `ENTRY` node into a key with its value.
    pub fn cast(element: &SyntaxElement) -> (r: Option<EntryNode>)
        ensures
            match r {
                Some(e) => entry_wf(e) && entry_of(*element) == Some(e@),
                None => entry_of(*element) is None,
            },
    {
        cast_entry(element)
    }

    pub fn key(&self) -> (r: &KeyNode)
        ensures
            *r == self.key,
    {
        &self.key
    }

    pub fn value(&self) -> (r: &ValueNode)
        ensures
            *r == self.value,
    {
        &self.value
    }

    pub fn into_value(self) -> (r: ValueNode)
        ensures
            r == self.value,
    {
        self.value
    }

    /// The range of the `=` token of the entry.
    pub fn token_eq_text_range(&self) -> (r: Option<TextRange>)
        ensures
            r == self@.eq_range,
    {
        self.eq_range
    }

    /// The text that the entry covers.
    pub fn text_range(&self) -> (r: TextRange)
        ensures
            r == entry_range(self@),
    {
        entry_text_range(self)
    }
}

impl ValueNode {
    /// Lifts a `VALUE` node into the value that it holds.
    pub fn cast(element: &SyntaxElement) -> (r: Option<ValueNode>)
        ensures
            match r {
                Some(v) => value_wf(v) && value_of(*element) == Some(v@),
                None => value_of(*element) is None,
            },
    {
        cast_value(element)
    }

    /// The text that the value covers.
    pub fn text_range(&self) -> (r: TextRange)
        requires
            value_wf(*self),
        ensures
            r == value_range(self@),
    {
        value_text_range(self)
    }

    /// Whether the value is a value of the document: neither invalid nor
    /// empty.
    pub fn is_valid(&self) -> (b: bool)
        ensures
            b == !(self@ is Invalid || self@ is Empty),
    {
        match self {
            ValueNode::Invalid(_) | ValueNode::Empty => false,
            _ => true,
        }
    }
}

impl Default for ValueNode {
    fn default() -> (r: Self)
        ensures
            r@ == Value::Empty,
    {
        ValueNode::Empty
    }
}

} // verus!
