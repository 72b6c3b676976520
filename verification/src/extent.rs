//! The text that each node of a document covers.

use vstd::prelude::*;
use crate::node::{
    array_wf, entries_wf, entry_wf, table_wf, value_wf, Array, ArrayNode, Entries, Entry,
    EntryNode, Table, TableNode, Value, ValueNode,
};
use crate::range::TextRange;
use crate::syntax::Handle;

verus! {

/// `r`, widened to reach `offset` where there is one.
pub open spec fn reach(r: TextRange, offset: Option<u32>) -> TextRange {
    match offset {
        Some(o) => r.cover_offset_spec(o),
        None => r,
    }
}

/// The range of an optional handle; the empty range at 0 where there is
/// none.
pub open spec fn handle_range(h: Option<Handle>) -> TextRange {
    match h {
        Some(h) => h.range,
        None => TextRange::span(0, 0),
    }
}

/// The text that a value covers, with the span of the table or array that
/// it is. An empty value covers the empty range at 0.
pub open spec fn value_range(v: Value) -> TextRange
    decreases v, 0nat,
{
    match v {
        Value::Bool(h) => h.range,
        Value::String(s) => s.syntax.range,
        Value::Integer(i) => i.syntax.range,
        Value::Float(h) => h.range,
        Value::Array(a) => array_range(a),
        Value::Date(h) => h.range,
        Value::Table(t) => table_range(t),
        Value::Invalid(h) => handle_range(h),
        Value::Empty => TextRange::span(0, 0),
    }
}

/// The range of an array's own syntax, widened by its first `n` items.
pub open spec fn items_range(a: Array, n: nat) -> TextRange
    decreases a, n,
{
    if n == 0 || n > a.items.len() {
        a.syntax.range
    } else {
        items_range(a, (n - 1) as nat).cover_spec(value_range(a.items[n - 1]))
    }
}

/// The text that an array covers: its own syntax, its items, and the text
/// up to the next header where that is known.
pub open spec fn array_range(a: Array) -> TextRange
    decreases a, a.items.len() + 1,
{
    reach(items_range(a, a.items.len()), a.next_header_start)
}

/// The text that the first `n` of `es` cover: the key of the first entry
/// and the values of those after it. `None` where there is no entry.
pub open spec fn entries_range(es: Seq<Entry>, n: nat) -> Option<TextRange>
    decreases es, n,
{
    if n == 0 || n > es.len() {
        None
    } else {
        match entries_range(es, (n - 1) as nat) {
            None => Some(es[n - 1].key.text_range()),
            Some(r) => Some(r.cover_spec(value_range(es[n - 1].value))),
        }
    }
}

/// The text that a table covers: its own syntax, its entries, and the text
/// up to the next header that is not below it.
pub open spec fn table_range(t: Table) -> TextRange
    decreases t, 0nat,
{
    let own = match entries_range(t.entries, t.entries.len()) {
        Some(r) => t.syntax.range.cover_spec(r),
        None => t.syntax.range,
    };
    reach(own, t.next_entry)
}

/// The text that an entry covers: its own syntax, and for the entry of a
/// header the text up to the next header that is not below it.
pub open spec fn entry_range(e: Entry) -> TextRange {
    reach(e.syntax.range, e.next_entry)
}

/// `r`, widened to reach `offset` where there is one.
fn widen(r: TextRange, offset: Option<u32>) -> (w: TextRange)
    ensures
        w == reach(r, offset),
{
    match offset {
        Some(o) => r.cover_offset(o),
        None => r,
    }
}

/// The text that a value covers.
pub fn value_text_range(v: &ValueNode) -> (r: TextRange)
    requires
        value_wf(*v),
    ensures
        r == value_range(v@),
    decreases *v, 0nat,
{
    match v {
        ValueNode::Bool(b) => b.syntax.range,
        ValueNode::String(s) => s.syntax.range,
        ValueNode::Integer(i) => i.syntax.range,
        ValueNode::Float(f) => f.syntax.range,
        ValueNode::Array(a) => array_text_range(a),
        ValueNode::Date(d) => d.syntax.range,
        ValueNode::Table(t) => table_text_range(t),
        ValueNode::Invalid(h) => match h {
            Some(h) => h.range,
            None => TextRange::empty(),
        },
        ValueNode::Empty => TextRange::empty(),
    }
}

/// The text that an array covers.
pub fn array_text_range(a: &ArrayNode) -> (r: TextRange)
    requires
        array_wf(*a),
    ensures
        r == array_range(a@),
    decreases *a, 0nat,
{
    let mut range = a.syntax.range;
    let mut i: usize = 0;
    while i < a.items.len()
        invariant
            array_wf(*a),
            i <= a.items.len(),
            range == items_range(a@, i as nat),
        decreases a.items.len() - i,
    {
        range = range.cover(value_text_range(&a.items[i]));
        i += 1;
    }
    widen(range, a.next_header_start)
}

/// The text that a list of entries covers.
pub fn entries_text_range(es: &Entries) -> (r: Option<TextRange>)
    requires
        entries_wf(*es),
    ensures
        r == entries_range(es@, es@.len()),
    decreases *es, 0nat,
{
    let mut range: Option<TextRange> = None;
    let mut i: usize = 0;
    while i < es.0.len()
        invariant
            entries_wf(*es),
            i <= es.0.len(),
            range == entries_range(es@, i as nat),
        decreases es.0.len() - i,
    {
        assert(entry_wf(es.0[i as int]));
        range = match range {
            None => Some(es.0[i].key.text_range()),
            Some(r) => Some(r.cover(value_text_range(&es.0[i].value))),
        };
        i += 1;
    }
    range
}

/// The text that a table covers.
pub fn table_text_range(t: &TableNode) -> (r: TextRange)
    requires
        table_wf(*t),
    ensures
        r == table_range(t@),
    decreases *t, 1nat,
{
    let mut range = t.syntax.range;
    match entries_text_range(&t.entries) {
        Some(r) => {
            range = range.cover(r);
        },
        None => {},
    }
    widen(range, t.next_entry)
}

/// The text that an entry covers.
pub fn entry_text_range(e: &EntryNode) -> (r: TextRange)
    ensures
        r == entry_range(e@),
{
    widen(e.syntax.range, e.next_entry)
}

} // verus!
