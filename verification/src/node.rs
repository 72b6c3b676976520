//! The nodes of a document: values, arrays, tables and entries.

use vstd::prelude::*;
use crate::key::{Key, KeyNode};
use crate::range::TextRange;
use crate::syntax::{Handle, SyntaxHandle};

verus! {

/// How an integer was written.
#[derive(Clone, Copy, Debug, PartialEq, Eq, Structural, Hash)]
pub enum IntegerRepr {
    Dec,
    Bin,
    Oct,
    Hex,
}

/// An integer value.
#[derive(Debug)]
pub struct IntegerNode {
    pub syntax: SyntaxHandle,
    pub repr: IntegerRepr,
}

/// The mathematical value of an [`IntegerNode`].
pub ghost struct Integer {
    pub syntax: Handle,
    pub repr: IntegerRepr,
}

/// How a string was written.
#[derive(Clone, Copy, Debug, PartialEq, Eq, Structural, Hash)]
pub enum StringKind {
    Basic,
    MultiLine,
    Literal,
    MultiLineLiteral,
}

/// A string value, with the text that it stands for.
#[derive(Debug)]
pub struct StringNode {
    pub syntax: SyntaxHandle,
    pub kind: StringKind,
    /// The text without its delimiters and with its escapes resolved.
    pub content: String,
}

/// The mathematical value of a [`StringNode`].
pub ghost struct Str {
    pub syntax: Handle,
    pub kind: StringKind,
    pub content: Seq<char>,
}

/// A boolean value.
#[derive(Debug)]
pub struct BoolNode {
    pub syntax: SyntaxHandle,
}

/// A floating-point value.
#[derive(Debug)]
pub struct FloatNode {
    pub syntax: SyntaxHandle,
}

/// A date or time value.
#[derive(Debug)]
pub struct DateNode {
    pub syntax: SyntaxHandle,
}

/// A value of a document.
#[derive(Debug)]
pub enum ValueNode {
    Bool(BoolNode),
    String(StringNode),
    Integer(IntegerNode),
    Float(FloatNode),
    Array(ArrayNode),
    Date(DateNode),
    Table(TableNode),
    /// A value that could not be lifted; the handle says where it stands.
    Invalid(Option<SyntaxHandle>),
    Empty,
}

/// An array: one written in brackets, or the tables of an array of tables.
#[derive(Debug)]
pub struct ArrayNode {
    pub syntax: SyntaxHandle,
    /// Whether this is an array of tables.
    pub tables: bool,
    pub items: Vec<ValueNode>,
    pub next_header_start: Option<u32>,
}

/// A table: one with a header, an inline table, or one made from dotted
/// keys.
#[derive(Debug)]
pub struct TableNode {
    pub syntax: SyntaxHandle,
    /// Whether the table stands under an array-of-tables header.
    pub array: bool,
    /// Whether the table was made from dotted keys and has no header.
    pub pseudo: bool,
    /// Where the text of the table ends: the start of the next header that
    /// is not below this one.
    pub next_entry: Option<u32>,
    pub entries: Entries,
}

/// The entries of a root or of a table, in order.
#[derive(Debug)]
pub struct Entries(pub Vec<EntryNode>);

/// A key with its value.
#[derive(Debug)]
pub struct EntryNode {
    pub syntax: SyntaxHandle,
    pub key: KeyNode,
    pub value: ValueNode,
    pub next_entry: Option<u32>,
    /// The range of the `=` token, where the entry has one.
    pub eq_range: Option<TextRange>,
}

/// The mathematical value of a [`ValueNode`].
pub ghost enum Value {
    Bool(Handle),
    String(Str),
    Integer(Integer),
    Float(Handle),
    Array(Array),
    Date(Handle),
    Table(Table),
    Invalid(Option<Handle>),
    Empty,
}

/// The mathematical value of an [`ArrayNode`].
pub ghost struct Array {
    pub syntax: Handle,
    pub tables: bool,
    pub items: Seq<Value>,
    pub next_header_start: Option<u32>,
}

/// The mathematical value of a [`TableNode`].
pub ghost struct Table {
    pub syntax: Handle,
    pub array: bool,
    pub pseudo: bool,
    pub next_entry: Option<u32>,
    pub entries: Seq<Entry>,
}

/// The mathematical value of an [`EntryNode`].
pub ghost struct Entry {
    pub syntax: Handle,
    pub key: Key,
    pub value: Value,
    pub next_entry: Option<u32>,
    pub eq_range: Option<TextRange>,
}

/// The view of an optional handle.
pub open spec fn handle_opt(h: Option<SyntaxHandle>) -> Option<Handle> {
    match h {
        Some(h) => Some(h@),
        None => None,
    }
}

/// The mathematical value of a value node.
pub open spec fn value_model(v: ValueNode) -> Value
    decreases v,
{
    match v {
        ValueNode::Bool(b) => Value::Bool(b.syntax@),
        ValueNode::String(s) => Value::String(s@),
        ValueNode::Integer(i) => Value::Integer(i@),
        ValueNode::Float(f) => Value::Float(f.syntax@),
        ValueNode::Array(a) => Value::Array(array_model(a)),
        ValueNode::Date(d) => Value::Date(d.syntax@),
        ValueNode::Table(t) => Value::Table(table_model(t)),
        ValueNode::Invalid(h) => Value::Invalid(handle_opt(h)),
        ValueNode::Empty => Value::Empty,
    }
}

/// The mathematical value of an array node.
pub open spec fn array_model(a: ArrayNode) -> Array
    decreases a,
{
    Array {
        syntax: a.syntax@,
        tables: a.tables,
        items: Seq::new(
            a.items.len() as nat,
            |i: int|
                if 0 <= i < a.items.len() {
                    value_model(a.items[i])
                } else {
                    Value::Empty
                },
        ),
        next_header_start: a.next_header_start,
    }
}

/// The mathematical value of a table node.
pub open spec fn table_model(t: TableNode) -> Table
    decreases t,
{
    Table {
        syntax: t.syntax@,
        array: t.array,
        pseudo: t.pseudo,
        next_entry: t.next_entry,
        entries: entries_model(t.entries),
    }
}

/// The mathematical values of a list of entries.
pub open spec fn entries_model(es: Entries) -> Seq<Entry>
    decreases es,
{
    Seq::new(
        es.0.len() as nat,
        |i: int|
            if 0 <= i < es.0.len() {
                entry_model(es.0[i])
            } else {
                arbitrary()
            },
    )
}

/// The mathematical value of an entry node.
pub open spec fn entry_model(e: EntryNode) -> Entry
    decreases e,
{
    Entry {
        syntax: e.syntax@,
        key: e.key@,
        value: value_model(e.value),
        next_entry: e.next_entry,
        eq_range: e.eq_range,
    }
}

/// Every key below `v` has a proper window of identifiers.
pub open spec fn value_wf(v: ValueNode) -> bool
    decreases v,
{
    match v {
        ValueNode::Array(a) => array_wf(a),
        ValueNode::Table(t) => table_wf(t),
        _ => true,
    }
}

/// The items of an array of tables are tables, there is at least one, and
/// none of them is marked as standing under an array-of-tables header.
pub open spec fn array_wf(a: ArrayNode) -> bool
    decreases a,
{
    &&& forall|i: int| 0 <= i < a.items.len() ==> value_wf(#[trigger] a.items[i])
    &&& a.tables ==> a.items.len() >= 1
    &&& a.tables ==> forall|i: int|
        0 <= i < a.items.len() ==> (#[trigger] a.items[i] matches ValueNode::Table(t)
            && !t.array)
}

/// Every key below the table has a proper window of identifiers, and every
/// array of tables below it holds tables only.
pub open spec fn table_wf(t: TableNode) -> bool
    decreases t,
{
    entries_wf(t.entries)
}

/// Every key in the entries and below them has a proper window of
/// identifiers, and every array of tables holds tables only.
pub open spec fn entries_wf(es: Entries) -> bool
    decreases es,
{
    forall|i: int| 0 <= i < es.0.len() ==> entry_wf(#[trigger] es.0[i])
}

/// The key of the entry and every key below it have a proper window of
/// identifiers, and every array of tables below it holds tables only.
pub open spec fn entry_wf(e: EntryNode) -> bool
    decreases e,
{
    e.key.wf() && value_wf(e.value)
}

/// No table in `v` or below it was made from dotted keys.
pub open spec fn value_plain(v: Value) -> bool
    decreases v,
{
    match v {
        Value::Table(t) => !t.pseudo && entries_plain(t.entries),
        Value::Array(a) => forall|i: int|
            0 <= i < a.items.len() ==> value_plain(#[trigger] a.items[i]),
        _ => true,
    }
}

/// No table in `es` or below was made from dotted keys.
pub open spec fn entries_plain(es: Seq<Entry>) -> bool
    decreases es,
{
    forall|i: int| 0 <= i < es.len() ==> value_plain((#[trigger] es[i]).value)
}

impl View for IntegerNode {
    type V = Integer;

    open spec fn view(&self) -> Integer {
        Integer { syntax: self.syntax@, repr: self.repr }
    }
}

impl View for StringNode {
    type V = Str;

    open spec fn view(&self) -> Str {
        Str { syntax: self.syntax@, kind: self.kind, content: self.content@ }
    }
}

impl View for BoolNode {
    type V = Handle;

    open spec fn view(&self) -> Handle {
        self.syntax@
    }
}

impl View for FloatNode {
    type V = Handle;

    open spec fn view(&self) -> Handle {
        self.syntax@
    }
}

impl View for DateNode {
    type V = Handle;

    open spec fn view(&self) -> Handle {
        self.syntax@
    }
}

impl View for ValueNode {
    type V = Value;

    open spec fn view(&self) -> Value {
        value_model(*self)
    }
}

impl View for ArrayNode {
    type V = Array;

    open spec fn view(&self) -> Array {
        array_model(*self)
    }
}

impl View for TableNode {
    type V = Table;

    open spec fn view(&self) -> Table {
        table_model(*self)
    }
}

impl View for Entries {
    type V = Seq<Entry>;

    open spec fn view(&self) -> Seq<Entry> {
        entries_model(*self)
    }
}

impl View for EntryNode {
    type V = Entry;

    open spec fn view(&self) -> Entry {
        entry_model(*self)
    }
}

impl Clone for IntegerNode {
    fn clone(&self) -> (r: Self)
        ensures
            r@ == self@,
    {
        IntegerNode { syntax: self.syntax.clone(), repr: self.repr }
    }
}

impl Clone for StringNode {
    fn clone(&self) -> (r: Self)
        ensures
            r@ == self@,
    {
        StringNode { syntax: self.syntax.clone(), kind: self.kind, content: self.content.clone() }
    }
}

impl Clone for BoolNode {
    fn clone(&self) -> (r: Self)
        ensures
            r@ == self@,
    {
        BoolNode { syntax: self.syntax.clone() }
    }
}

impl Clone for FloatNode {
    fn clone(&self) -> (r: Self)
        ensures
            r@ == self@,
    {
        FloatNode { syntax: self.syntax.clone() }
    }
}

impl Clone for DateNode {
    fn clone(&self) -> (r: Self)
        ensures
            r@ == self@,
    {
        DateNode { syntax: self.syntax.clone() }
    }
}

/// A copy of a value and of all that stands below it.
pub fn clone_value(v: &ValueNode) -> (r: ValueNode)
    requires
        value_wf(*v),
    ensures
        value_wf(r),
        r@ == v@,
    decreases *v,
{
    match v {
        ValueNode::Bool(b) => ValueNode::Bool(b.clone()),
        ValueNode::String(s) => ValueNode::String(s.clone()),
        ValueNode::Integer(i) => ValueNode::Integer(i.clone()),
        ValueNode::Float(f) => ValueNode::Float(f.clone()),
        ValueNode::Array(a) => ValueNode::Array(clone_array(a)),
        ValueNode::Date(d) => ValueNode::Date(d.clone()),
        ValueNode::Table(t) => ValueNode::Table(clone_table(t)),
        ValueNode::Invalid(h) => ValueNode::Invalid(
            match h {
                Some(h) => Some(h.clone()),
                None => None,
            },
        ),
        ValueNode::Empty => ValueNode::Empty,
    }
}

/// A copy of an array and of all that stands below it.
pub fn clone_array(a: &ArrayNode) -> (r: ArrayNode)
    requires
        array_wf(*a),
    ensures
        array_wf(r),
        r@ == a@,
    decreases *a,
{
    let mut items: Vec<ValueNode> = Vec::new();
    let mut i: usize = 0;
    while i < a.items.len()
        invariant
            array_wf(*a),
            i <= a.items.len(),
            items.len() == i,
            forall|j: int| 0 <= j < i ==> value_wf(#[trigger] items[j]),
            forall|j: int| 0 <= j < i ==> (#[trigger] items[j])@ == a.items[j]@,
        decreases a.items.len() - i,
    {
        items.push(clone_value(&a.items[i]));
        i += 1;
    }
    let r = ArrayNode {
        syntax: a.syntax.clone(),
        tables: a.tables,
        items,
        next_header_start: a.next_header_start,
    };
    proof {
        assert(r@.items =~= a@.items);
        if a.tables {
            assert forall|j: int| 0 <= j < r.items.len() implies (#[trigger] r.items[j]
                matches ValueNode::Table(t) && !t.array) by {
                assert(r.items[j]@ == a.items[j]@);
                assert(a.items[j] is Table);
            }
        }
    }
    r
}

/// A copy of a table and of all that stands below it.
pub fn clone_table(t: &TableNode) -> (r: TableNode)
    requires
        table_wf(*t),
    ensures
        table_wf(r),
        r@ == t@,
    decreases *t,
{
    TableNode {
        syntax: t.syntax.clone(),
        array: t.array,
        pseudo: t.pseudo,
        next_entry: t.next_entry,
        entries: clone_entries(&t.entries),
    }
}

/// A copy of a list of entries and of all that stands below them.
pub fn clone_entries(es: &Entries) -> (r: Entries)
    requires
        entries_wf(*es),
    ensures
        entries_wf(r),
        r@ == es@,
    decreases *es,
{
    let mut out: Vec<EntryNode> = Vec::new();
    let mut i: usize = 0;
    while i < es.0.len()
        invariant
            entries_wf(*es),
            i <= es.0.len(),
            out.len() == i,
            forall|j: int| 0 <= j < i ==> entry_wf(#[trigger] out[j]),
            forall|j: int| 0 <= j < i ==> (#[trigger] out[j])@ == es.0[j]@,
        decreases es.0.len() - i,
    {
        out.push(clone_entry(&es.0[i]));
        i += 1;
    }
    let r = Entries(out);
    assert(r@ =~= es@);
    r
}

/// A copy of an entry and of all that stands below it.
pub fn clone_entry(e: &EntryNode) -> (r: EntryNode)
    requires
        entry_wf(*e),
    ensures
        entry_wf(r),
        r@ == e@,
    decreases *e,
{
    EntryNode {
        syntax: e.syntax.clone(),
        key: e.key.clone(),
        value: clone_value(&e.value),
        next_entry: e.next_entry,
        eq_range: e.eq_range,
    }
}

} // verus!
