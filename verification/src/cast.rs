//! Lifting syntax elements into the nodes of a document.

use vstd::prelude::*;
use crate::key::{key_of, KeyNode};
use crate::merge::{entries_apart, value_apart};
use crate::node::{
    array_wf, entries_plain, entry_wf, table_wf, value_plain, value_wf, Array, ArrayNode, BoolNode,
    DateNode, Entries, Entry, EntryNode, FloatNode, Integer, IntegerNode, IntegerRepr, Str,
    StringKind, StringNode, Table, TableNode, Value, ValueNode,
};
use crate::range::TextRange;
use crate::syntax::{
    first_node_at, first_node_from, full_text, handle_of, SyntaxElement, SyntaxKind,
};
use crate::text::{
    chars_of, string_of, strip_ends, strip_prefix, strip_suffix, unescape, unescape_chars,
};

verus! {

/// The integer that an integer token stands for.
pub open spec fn integer_of(e: SyntaxElement) -> Option<Integer> {
    match e.kind {
        SyntaxKind::INTEGER => Some(Integer { syntax: handle_of(e), repr: IntegerRepr::Dec }),
        SyntaxKind::INTEGER_BIN => Some(Integer { syntax: handle_of(e), repr: IntegerRepr::Bin }),
        SyntaxKind::INTEGER_HEX => Some(Integer { syntax: handle_of(e), repr: IntegerRepr::Hex }),
        SyntaxKind::INTEGER_OCT => Some(Integer { syntax: handle_of(e), repr: IntegerRepr::Oct }),
        _ => None,
    }
}

/// The text between the delimiters `q` of a string written as `t`; of a
/// multi-line string, without one line end at its start.
pub open spec fn string_body(t: Seq<char>, q: Seq<char>, multi: bool) -> Seq<char> {
    let inner = strip_suffix(strip_prefix(t, q), q);
    if multi {
        strip_prefix(inner, seq!['\n'])
    } else {
        inner
    }
}

/// The text that a string token stands for, or `None` where it is no string
/// token or one of its escapes is malformed. The delimiters are taken away;
/// one line end at the start of a multi-line string is dropped; the escapes
/// of basic strings are resolved.
pub open spec fn string_content(kind: SyntaxKind, t: Seq<char>) -> Option<(StringKind, Seq<char>)> {
    match kind {
        SyntaxKind::STRING => match unescape(string_body(t, seq!['"'], false)) {
            Some(c) => Some((StringKind::Basic, c)),
            None => None,
        },
        SyntaxKind::MULTI_LINE_STRING => match unescape(
            string_body(t, seq!['"', '"', '"'], true),
        ) {
            Some(c) => Some((StringKind::MultiLine, c)),
            None => None,
        },
        SyntaxKind::STRING_LITERAL => Some(
            (StringKind::Literal, string_body(t, seq!['\''], false)),
        ),
        SyntaxKind::MULTI_LINE_STRING_LITERAL => Some(
            (StringKind::MultiLineLiteral, string_body(t, seq!['\'', '\'', '\''], true)),
        ),
        _ => None,
    }
}

/// The window of `chars` that lies between the delimiters: `quote`, once or
/// three times.
fn body_window(chars: &Vec<char>, quote: char, multi: bool) -> (r: (usize, usize))
    ensures
        r.0 <= r.1 <= chars.len(),
        chars@.subrange(r.0 as int, r.1 as int) == string_body(
            chars@,
            if multi {
                seq![quote, quote, quote]
            } else {
                seq![quote]
            },
            multi,
        ),
{
    let n = chars.len();
    assert(chars@.subrange(0, n as int) =~= chars@);
    let mut q: Vec<char> = Vec::new();
    q.push(quote);
    if multi {
        q.push(quote);
        q.push(quote);
        assert(q@ =~= seq![quote, quote, quote]);
    } else {
        assert(q@ =~= seq![quote]);
    }
    let (a, b) = strip_ends(chars, 0, n, &q, &q);
    if multi {
        let mut line: Vec<char> = Vec::new();
        line.push('\n');
        assert(line@ =~= seq!['\n']);
        let none: Vec<char> = Vec::new();
        let inner = Ghost(chars@.subrange(a as int, b as int));
        let (c, d) = strip_ends(chars, a, b, &line, &none);
        proof {
            let t = strip_prefix(inner@, line@);
            assert(t.subrange(t.len() - 0, t.len() as int) =~= none@);
            assert(t.take(t.len() - 0) =~= t);
        }
        (c, d)
    } else {
        (a, b)
    }
}

/// The string that a string token stands for.
pub open spec fn str_of(e: SyntaxElement) -> Option<Str> {
    match string_content(e.kind, full_text(e)) {
        Some((kind, content)) => Some(Str { syntax: handle_of(e), kind, content }),
        None => None,
    }
}

/// The range of the first `=` among the first `n` children of an entry.
pub open spec fn eq_range_of(e: SyntaxElement, n: nat) -> Option<TextRange>
    decreases n,
{
    if n == 0 || n > e.children.len() {
        None
    } else {
        match eq_range_of(e, (n - 1) as nat) {
            Some(r) => Some(r),
            None => if e.children[n - 1].kind == SyntaxKind::EQ {
                Some(e.children[n - 1].range)
            } else {
                None
            },
        }
    }
}

/// The value that a `VALUE` node stands for. One whose content cannot be
/// lifted is invalid, and keeps the handle of the node.
pub open spec fn value_of(e: SyntaxElement) -> Option<Value>
    decreases e, 3nat, 0nat,
{
    if e.kind != SyntaxKind::VALUE {
        None
    } else if e.token || e.children.len() == 0 {
        Some(Value::Invalid(Some(handle_of(e))))
    } else {
        match inner_value_of(e.children[0]) {
            Some(v) => Some(v),
            None => Some(Value::Invalid(Some(handle_of(e)))),
        }
    }
}

/// The value that an element of the kind of a value stands for.
pub open spec fn inner_value_of(e: SyntaxElement) -> Option<Value>
    decreases e, 2nat, 0nat,
{
    match e.kind {
        SyntaxKind::INLINE_TABLE => match table_of(e) {
            Some(t) => Some(Value::Table(t)),
            None => None,
        },
        SyntaxKind::ARRAY => match array_of(e) {
            Some(a) => Some(Value::Array(a)),
            None => None,
        },
        SyntaxKind::BOOL => Some(Value::Bool(handle_of(e))),
        SyntaxKind::STRING
        | SyntaxKind::STRING_LITERAL
        | SyntaxKind::MULTI_LINE_STRING
        | SyntaxKind::MULTI_LINE_STRING_LITERAL => match str_of(e) {
            Some(s) => Some(Value::String(s)),
            None => None,
        },
        SyntaxKind::INTEGER
        | SyntaxKind::INTEGER_BIN
        | SyntaxKind::INTEGER_HEX
        | SyntaxKind::INTEGER_OCT => match integer_of(e) {
            Some(i) => Some(Value::Integer(i)),
            None => None,
        },
        SyntaxKind::FLOAT => Some(Value::Float(handle_of(e))),
        SyntaxKind::DATE => Some(Value::Date(handle_of(e))),
        _ => None,
    }
}

/// The values that the first `n` children of an array stand for.
pub open spec fn array_items(e: SyntaxElement, n: nat) -> Seq<Value>
    decreases e, 0nat, n,
{
    if n == 0 || n > e.children.len() {
        Seq::empty()
    } else {
        match value_of(e.children[n - 1]) {
            Some(v) => array_items(e, (n - 1) as nat).push(v),
            None => array_items(e, (n - 1) as nat),
        }
    }
}

/// The array that an `ARRAY` node stands for: the values among its
/// children. An array-of-tables header stands for an empty array.
pub open spec fn array_of(e: SyntaxElement) -> Option<Array>
    decreases e, 1nat, 0nat,
{
    match e.kind {
        SyntaxKind::ARRAY => Some(
            Array {
                syntax: handle_of(e),
                tables: false,
                items: array_items(e, e.children.len() as nat),
                next_header_start: None,
            },
        ),
        SyntaxKind::TABLE_ARRAY_HEADER => Some(
            Array {
                syntax: handle_of(e),
                tables: false,
                items: Seq::empty(),
                next_header_start: None,
            },
        ),
        _ => None,
    }
}

/// The entries that the first `n` children of an inline table stand for.
pub open spec fn table_entries(e: SyntaxElement, n: nat) -> Seq<Entry>
    decreases e, 0nat, n,
{
    if n == 0 || n > e.children.len() {
        Seq::empty()
    } else {
        match entry_of(e.children[n - 1]) {
            Some(x) => table_entries(e, (n - 1) as nat).push(x),
            None => table_entries(e, (n - 1) as nat),
        }
    }
}

/// Whether the first node below a header is a key.
pub open spec fn header_has_key(e: SyntaxElement) -> bool {
    match first_node_from(e.children@, 0) {
        Some(i) => key_of(e.children[i as int]) is Some,
        None => false,
    }
}

/// The table that a header or an inline table stands for. A header stands
/// for an empty table, and for none where it has no key.
pub open spec fn table_of(e: SyntaxElement) -> Option<Table>
    decreases e, 1nat, 0nat,
{
    match e.kind {
        SyntaxKind::TABLE_HEADER | SyntaxKind::TABLE_ARRAY_HEADER => if header_has_key(e) {
            Some(
                Table {
                    syntax: handle_of(e),
                    array: e.kind == SyntaxKind::TABLE_ARRAY_HEADER,
                    pseudo: false,
                    next_entry: None,
                    entries: Seq::empty(),
                },
            )
        } else {
            None
        },
        SyntaxKind::INLINE_TABLE => Some(
            Table {
                syntax: handle_of(e),
                array: false,
                pseudo: false,
                next_entry: None,
                entries: table_entries(e, e.children.len() as nat),
            },
        ),
        _ => None,
    }
}

/// The value of an entry: what the second node below it stands for, and an
/// invalid value where there is none or it is no `VALUE` node.
pub open spec fn entry_value_of(e: SyntaxElement) -> Value
    decreases e, 2nat, 0nat,
{
    match first_node_from(e.children@, 0) {
        Some(i) => match first_node_from(e.children@, i + 1) {
            Some(j) => if j < e.children.len() {
                match value_of(e.children[j as int]) {
                    Some(v) => v,
                    None => Value::Invalid(None),
                }
            } else {
                Value::Invalid(None)
            },
            None => Value::Invalid(None),
        },
        None => Value::Invalid(None),
    }
}

/// The entry that an `ENTRY` node stands for; there is none where its first
/// child is no key.
pub open spec fn entry_of(e: SyntaxElement) -> Option<Entry>
    decreases e, 3nat, 0nat,
{
    if e.kind != SyntaxKind::ENTRY || e.children.len() == 0 {
        None
    } else {
        match key_of(e.children[0]) {
            None => None,
            Some(key) => Some(
                Entry {
                    syntax: handle_of(e),
                    key,
                    value: entry_value_of(e),
                    next_entry: None,
                    eq_range: eq_range_of(e, e.children.len() as nat),
                },
            ),
        }
    }
}

impl IntegerNode {
    pub fn cast(element: &SyntaxElement) -> (r: Option<IntegerNode>)
        ensures
            match r {
                Some(n) => integer_of(*element) == Some(n@),
                None => integer_of(*element) is None,
            },
    {
        let repr = match element.kind {
            SyntaxKind::INTEGER => IntegerRepr::Dec,
            SyntaxKind::INTEGER_BIN => IntegerRepr::Bin,
            SyntaxKind::INTEGER_HEX => IntegerRepr::Hex,
            SyntaxKind::INTEGER_OCT => IntegerRepr::Oct,
            _ => {
                return None;
            },
        };
        Some(IntegerNode { syntax: element.handle(), repr })
    }

    pub fn repr(&self) -> (r: IntegerRepr)
        ensures
            r == self@.repr,
    {
        self.repr
    }

    pub fn text_range(&self) -> (r: TextRange)
        ensures
            r == self@.syntax.range,
    {
        self.syntax.range
    }
}

impl StringNode {
    pub fn cast(element: &SyntaxElement) -> (r: Option<StringNode>)
        ensures
            match r {
                Some(n) => str_of(*element) == Some(n@),
                None => str_of(*element) is None,
            },
    {
        let (quote, multi, escaped, kind) = match element.kind {
            SyntaxKind::STRING => ('"', false, true, StringKind::Basic),
            SyntaxKind::MULTI_LINE_STRING => ('"', true, true, StringKind::MultiLine),
            SyntaxKind::STRING_LITERAL => ('\'', false, false, StringKind::Literal),
            SyntaxKind::MULTI_LINE_STRING_LITERAL => (
                '\'',
                true,
                false,
                StringKind::MultiLineLiteral,
            ),
            _ => {
                return None;
            },
        };
        let handle = element.handle();
        let chars = chars_of(handle.text.as_str());
        let (a, b) = body_window(&chars, quote, multi);
        if escaped {
            match unescape_chars(&chars, a, b) {
                Some(content) => Some(StringNode { syntax: handle, kind, content }),
                None => None,
            }
        } else {
            let content = string_of(&chars, a, b);
            Some(StringNode { syntax: handle, kind, content })
        }
    }

    pub fn string_kind(&self) -> (k: StringKind)
        ensures
            k == self@.kind,
    {
        self.kind
    }

    /// The text that the string stands for.
    pub fn content(&self) -> (s: &str)
        ensures
            s@ == self@.content,
    {
        self.content.as_str()
    }

    pub fn into_content(self) -> (s: String)
        ensures
            s@ == self@.content,
    {
        self.content
    }

    pub fn text_range(&self) -> (r: TextRange)
        ensures
            r == self@.syntax.range,
    {
        self.syntax.range
    }
}

impl BoolNode {
    pub fn cast(element: &SyntaxElement) -> (r: Option<BoolNode>)
        ensures
            match r {
                Some(n) => element.kind == SyntaxKind::BOOL && n@ == handle_of(*element),
                None => element.kind != SyntaxKind::BOOL,
            },
    {
        match element.kind {
            SyntaxKind::BOOL => Some(BoolNode { syntax: element.handle() }),
            _ => None,
        }
    }

    pub fn text_range(&self) -> (r: TextRange)
        ensures
            r == self@.range,
    {
        self.syntax.range
    }
}

impl FloatNode {
    pub fn cast(element: &SyntaxElement) -> (r: Option<FloatNode>)
        ensures
            match r {
                Some(n) => element.kind == SyntaxKind::FLOAT && n@ == handle_of(*element),
                None => element.kind != SyntaxKind::FLOAT,
            },
    {
        match element.kind {
            SyntaxKind::FLOAT => Some(FloatNode { syntax: element.handle() }),
            _ => None,
        }
    }

    pub fn text_range(&self) -> (r: TextRange)
        ensures
            r == self@.range,
    {
        self.syntax.range
    }
}

impl DateNode {
    pub fn cast(element: &SyntaxElement) -> (r: Option<DateNode>)
        ensures
            match r {
                Some(n) => element.kind == SyntaxKind::DATE && n@ == handle_of(*element),
                None => element.kind != SyntaxKind::DATE,
            },
    {
        match element.kind {
            SyntaxKind::DATE => Some(DateNode { syntax: element.handle() }),
            _ => None,
        }
    }

    pub fn text_range(&self) -> (r: TextRange)
        ensures
            r == self@.range,
    {
        self.syntax.range
    }
}

/// Lifts a `VALUE` node.
pub fn cast_value(element: &SyntaxElement) -> (r: Option<ValueNode>)
    ensures
        match r {
            Some(v) => value_wf(v) && value_plain(v@) && value_apart(v@) && value_of(*element)
                == Some(v@),
            None => value_of(*element) is None,
        },
    decreases *element, 3nat, 0nat,
{
    if element.kind != SyntaxKind::VALUE {
        return None;
    }
    if element.token || element.children.len() == 0 {
        return Some(ValueNode::Invalid(Some(element.handle())));
    }
    match cast_inner_value(&element.children[0]) {
        Some(v) => Some(v),
        None => Some(ValueNode::Invalid(Some(element.handle()))),
    }
}

/// Lifts an element of the kind of a value.
pub fn cast_inner_value(element: &SyntaxElement) -> (r: Option<ValueNode>)
    ensures
        match r {
            Some(v) => value_wf(v) && value_plain(v@) && value_apart(v@) && inner_value_of(
                *element,
            ) == Some(v@),
            None => inner_value_of(*element) is None,
        },
    decreases *element, 2nat, 0nat,
{
    match element.kind {
        SyntaxKind::INLINE_TABLE => match cast_table(element) {
            Some(t) => Some(ValueNode::Table(t)),
            None => None,
        },
        SyntaxKind::ARRAY => match cast_array(element) {
            Some(a) => Some(ValueNode::Array(a)),
            None => None,
        },
        SyntaxKind::BOOL => match BoolNode::cast(element) {
            Some(b) => Some(ValueNode::Bool(b)),
            None => None,
        },
        SyntaxKind::STRING
        | SyntaxKind::STRING_LITERAL
        | SyntaxKind::MULTI_LINE_STRING
        | SyntaxKind::MULTI_LINE_STRING_LITERAL => match StringNode::cast(element) {
            Some(s) => Some(ValueNode::String(s)),
            None => None,
        },
        SyntaxKind::INTEGER
        | SyntaxKind::INTEGER_BIN
        | SyntaxKind::INTEGER_HEX
        | SyntaxKind::INTEGER_OCT => match IntegerNode::cast(element) {
            Some(i) => Some(ValueNode::Integer(i)),
            None => None,
        },
        SyntaxKind::FLOAT => match FloatNode::cast(element) {
            Some(f) => Some(ValueNode::Float(f)),
            None => None,
        },
        SyntaxKind::DATE => match DateNode::cast(element) {
            Some(d) => Some(ValueNode::Date(d)),
            None => None,
        },
        _ => None,
    }
}

/// Lifts an `ARRAY` node, or an array-of-tables header.
pub fn cast_array(element: &SyntaxElement) -> (r: Option<ArrayNode>)
    ensures
        match r {
            Some(a) => array_wf(a) && value_plain(Value::Array(a@)) && value_apart(
                Value::Array(a@),
            ) && array_of(*element) == Some(a@),
            None => array_of(*element) is None,
        },
    decreases *element, 1nat, 0nat,
{
    match element.kind {
        SyntaxKind::ARRAY => {
            let mut items: Vec<ValueNode> = Vec::new();
            let mut i: usize = 0;
            while i < element.children.len()
                invariant
                    i <= element.children.len(),
                    items.len() == array_items(*element, i as nat).len(),
                    forall|j: int| 0 <= j < items.len() ==> value_wf(#[trigger] items[j]),
                    forall|j: int| 0 <= j < items.len() ==> value_plain((#[trigger] items[j])@),
                    forall|j: int|
                        0 <= j < items.len() ==> (#[trigger] items[j])@ == array_items(
                            *element,
                            i as nat,
                        )[j],
                decreases element.children.len() - i,
            {
                match cast_value(&element.children[i]) {
                    Some(v) => {
                        items.push(v);
                    },
                    None => {},
                }
                i += 1;
            }
            let r = ArrayNode {
                syntax: element.handle(),
                tables: false,
                items,
                next_header_start: None,
            };
            assert(r@.items =~= array_items(*element, element.children.len() as nat));
            Some(r)
        },
        SyntaxKind::TABLE_ARRAY_HEADER => {
            let r = ArrayNode {
                syntax: element.handle(),
                tables: false,
                items: Vec::new(),
                next_header_start: None,
            };
            assert(r@.items =~= Seq::<Value>::empty());
            Some(r)
        },
        _ => None,
    }
}

/// Lifts a header or an inline table.
pub fn cast_table(element: &SyntaxElement) -> (r: Option<TableNode>)
    ensures
        match r {
            Some(t) => table_wf(t) && value_plain(Value::Table(t@)) && value_apart(
                Value::Table(t@),
            ) && table_of(*element) == Some(t@),
            None => table_of(*element) is None,
        },
    decreases *element, 1nat, 0nat,
{
    match element.kind {
        SyntaxKind::TABLE_HEADER | SyntaxKind::TABLE_ARRAY_HEADER => {
            let has_key = match element.first_child() {
                Some(i) => KeyNode::cast(&element.children[i]).is_some(),
                None => false,
            };
            if !has_key {
                return None;
            }
            let array = match element.kind {
                SyntaxKind::TABLE_ARRAY_HEADER => true,
                _ => false,
            };
            let r = TableNode {
                entries: Entries(Vec::new()),
                next_entry: None,
                pseudo: false,
                array,
                syntax: element.handle(),
            };
            assert(r@.entries =~= Seq::<Entry>::empty());
            assert(entries_plain(r@.entries));
            assert(entries_apart(r@.entries));
            Some(r)
        },
        SyntaxKind::INLINE_TABLE => {
            let mut entries: Vec<EntryNode> = Vec::new();
            let mut i: usize = 0;
            while i < element.children.len()
                invariant
                    i <= element.children.len(),
                    entries.len() == table_entries(*element, i as nat).len(),
                    forall|j: int| 0 <= j < entries.len() ==> entry_wf(#[trigger] entries[j]),
                    forall|j: int|
                        0 <= j < entries.len() ==> value_plain((#[trigger] entries[j])@.value),
                    forall|j: int|
                        0 <= j < entries.len() ==> (#[trigger] entries[j])@ == table_entries(
                            *element,
                            i as nat,
                        )[j],
                decreases element.children.len() - i,
            {
                match cast_entry(&element.children[i]) {
                    Some(e) => {
                        entries.push(e);
                    },
                    None => {},
                }
                i += 1;
            }
            let r = TableNode {
                entries: Entries(entries),
                next_entry: None,
                array: false,
                pseudo: false,
                syntax: element.handle(),
            };
            assert(r@.entries =~= table_entries(*element, element.children.len() as nat));
            assert(entries_plain(r@.entries));
            Some(r)
        },
        _ => None,
    }
}

/// Lifts the value of an entry.
fn cast_entry_value(element: &SyntaxElement) -> (r: ValueNode)
    ensures
        value_wf(r),
        value_plain(r@),
        value_apart(r@),
        r@ == entry_value_of(*element),
    decreases *element, 2nat, 0nat,
{
    match first_node_at(&element.children, 0) {
        Some(i) => match first_node_at(&element.children, i + 1) {
            Some(j) => match cast_value(&element.children[j]) {
                Some(v) => v,
                None => ValueNode::Invalid(None),
            },
            None => ValueNode::Invalid(None),
        },
        None => ValueNode::Invalid(None),
    }
}

/// Lifts an `ENTRY` node.
pub fn cast_entry(element: &SyntaxElement) -> (r: Option<EntryNode>)
    ensures
        match r {
            Some(e) => entry_wf(e) && value_plain(e@.value) && value_apart(e@.value) && entry_of(
                *element,
            ) == Some(e@),
            None => entry_of(*element) is None,
        },
    decreases *element, 3nat, 0nat,
{
    if element.kind != SyntaxKind::ENTRY || element.children.len() == 0 {
        return None;
    }
    let key = match KeyNode::cast(&element.children[0]) {
        Some(k) => k,
        None => {
            return None;
        },
    };
    let value = cast_entry_value(element);
    let eq_range = find_eq_range(element);
    Some(EntryNode { key, value, next_entry: None, eq_range, syntax: element.handle() })
}

/// The range of the first `=` among the children of `element`.
pub fn find_eq_range(element: &SyntaxElement) -> (r: Option<TextRange>)
    ensures
        r == eq_range_of(*element, element.children.len() as nat),
{
    let mut eq_range: Option<TextRange> = None;
    let mut i: usize = 0;
    while i < element.children.len()
        invariant
            i <= element.children.len(),
            eq_range == eq_range_of(*element, i as nat),
        decreases element.children.len() - i,
    {
        if eq_range.is_none() && element.children[i].kind == SyntaxKind::EQ {
            eq_range = Some(element.children[i].range);
        }
        i += 1;
    }
    eq_range
}

} // verus!
