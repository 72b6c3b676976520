//! The span pass: every table under a header is given the offset at which
//! its text ends, the start of the next header that is not below it.

use vstd::prelude::*;
use crate::node::{
    entries_plain, entries_wf, entry_wf, value_wf, Array, ArrayNode, Entries, Entry, EntryNode,
    Table, TableNode, Value, ValueNode,
};
use crate::node::value_plain;
use crate::extent::reach;
use crate::merge::{entries_apart, head, value_apart};
use crate::normalize::{entries_normal, value_normal};
use crate::range::TextRange;
use crate::syntax::{full_text, Handle, SyntaxElement, SyntaxHandle, SyntaxKind};
use crate::text::{chars_of, has_prefix_at, starts_with};

verus! {

/// `s` without the `[` at its start.
pub open spec fn trim_start(s: Seq<char>) -> Seq<char>
    decreases s.len(),
{
    if s.len() > 0 && s[0] == '[' {
        trim_start(s.skip(1))
    } else {
        s
    }
}

/// `s` without the `]` at its end.
pub open spec fn trim_end(s: Seq<char>) -> Seq<char>
    decreases s.len(),
{
    if s.len() > 0 && s.last() == ']' {
        trim_end(s.drop_last())
    } else {
        s
    }
}

/// The text of a header without its brackets.
pub open spec fn unbracketed(s: Seq<char>) -> Seq<char> {
    trim_end(trim_start(s))
}

/// A header of the document, as the span pass sees it.
pub ghost struct Header {
    /// Whether it is the header of an array of tables.
    pub array: bool,
    /// The offset at which it starts.
    pub start: u32,
    pub text: Seq<char>,
    /// The text without its brackets.
    pub name: Seq<char>,
}

/// A header of the document, as the span pass sees it.
pub struct HeaderNode {
    pub array: bool,
    pub start: u32,
    pub text: Vec<char>,
    pub name: Vec<char>,
}

impl View for HeaderNode {
    type V = Header;

    open spec fn view(&self) -> Header {
        Header { array: self.array, start: self.start, text: self.text@, name: self.name@ }
    }
}

/// The header that a child of the root is, if it is one.
pub open spec fn header_of(c: SyntaxElement) -> Option<Header> {
    if !c.token && (c.kind == SyntaxKind::TABLE_HEADER || c.kind == SyntaxKind::TABLE_ARRAY_HEADER) {
        Some(
            Header {
                array: c.kind == SyntaxKind::TABLE_ARRAY_HEADER,
                start: c.range.lo(),
                text: full_text(c),
                name: unbracketed(full_text(c)),
            },
        )
    } else {
        None
    }
}

/// The headers of the document, in the order of the source.
pub open spec fn headers_of(root: SyntaxElement) -> Seq<Header> {
    root.children@.filter_map(|c: SyntaxElement| header_of(c))
}

/// Which headers end the span of a table.
pub enum SpanRule {
    /// The table of a `[header]`: any header that is not below it.
    Table,
    /// A table of an array of tables: any `[[header]]` that is not below it,
    /// and the next `[[header]]` of the same array.
    Array,
}

/// Whether the header `h` ends the span of the table that came from `own`:
/// it starts at or after the end of `own`, and its name does not begin with
/// the name of `own`. For a table of an array of tables only the headers of
/// arrays of tables count, and one with the same text ends the span, too.
pub open spec fn ends_span(h: Header, own: Handle, rule: SpanRule) -> bool {
    let apart = !starts_with(h.name, unbracketed(own.text));
    &&& h.start >= own.range.hi()
    &&& match rule {
        SpanRule::Table => apart,
        SpanRule::Array => h.array && (apart || h.text == own.text),
    }
}

/// The start of the first header, from position `i` on, that ends the span
/// of the table that came from `own`.
pub open spec fn next_header(headers: Seq<Header>, own: Handle, rule: SpanRule, i: nat) -> Option<
    u32,
>
    decreases headers.len() - i,
{
    if i >= headers.len() {
        None
    } else if ends_span(headers[i as int], own, rule) {
        Some(headers[i as int].start)
    } else {
        next_header(headers, own, rule, i + 1)
    }
}

/// Where the text of the table that came from `own` ends: at the next
/// header that ends its span, or at `end` where there is none.
pub open spec fn span_end(headers: Seq<Header>, own: Handle, rule: SpanRule, end: Option<u32>) -> Option<
    u32,
> {
    match next_header(headers, own, rule, 0) {
        Some(start) => Some(start),
        None => end,
    }
}

/// A value with the spans of the tables below it.
pub open spec fn span_value(v: Value, next: Option<u32>, headers: Seq<Header>, end: Option<u32>) -> Value
    decreases v, 0nat,
{
    match v {
        Value::Table(t) => Value::Table(
            Table {
                next_entry: next,
                entries: span_upto(t.entries, t.entries.len(), headers, end),
                ..t
            },
        ),
        Value::Array(a) => if a.tables {
            Value::Array(Array { items: span_items(a.items, a.items.len(), headers, end), ..a })
        } else {
            v
        },
        _ => v,
    }
}

/// The first `n` tables of an array of tables, with their spans.
pub open spec fn span_items(items: Seq<Value>, n: nat, headers: Seq<Header>, end: Option<u32>) -> Seq<
    Value,
>
    decreases items, n,
{
    if n == 0 || n > items.len() {
        Seq::empty()
    } else {
        let item = match items[n - 1] {
            Value::Table(t) => Value::Table(
                Table {
                    next_entry: span_end(headers, t.syntax, SpanRule::Array, end),
                    entries: span_upto(t.entries, t.entries.len(), headers, end),
                    ..t
                },
            ),
            other => other,
        };
        span_items(items, (n - 1) as nat, headers, end).push(item)
    }
}

/// Where the text of an entry ends: for one that came from a header, where
/// the span of its table ends; for any other, where it ended before.
pub open spec fn entry_end(e: Entry, headers: Seq<Header>, end: Option<u32>) -> Option<u32> {
    match e.syntax.kind {
        SyntaxKind::TABLE_HEADER => span_end(headers, e.syntax, SpanRule::Table, end),
        SyntaxKind::TABLE_ARRAY_HEADER => span_end(headers, e.syntax, SpanRule::Array, end),
        _ => e.next_entry,
    }
}

/// The first `n` of `es`, with their spans.
pub open spec fn span_upto(es: Seq<Entry>, n: nat, headers: Seq<Header>, end: Option<u32>) -> Seq<
    Entry,
>
    decreases es, n,
{
    if n == 0 || n > es.len() {
        Seq::empty()
    } else {
        let e = es[n - 1];
        let next = entry_end(e, headers, end);
        span_upto(es, (n - 1) as nat, headers, end).push(
            Entry { next_entry: next, value: span_value(e.value, next, headers, end), ..e },
        )
    }
}

/// The span pass on a list of entries.
pub open spec fn span_list(es: Seq<Entry>, headers: Seq<Header>, end: Option<u32>) -> Seq<Entry> {
    span_upto(es, es.len(), headers, end)
}

/// The span pass changes no key and no mark of a table: values that were
/// normalized stay so, and no table becomes one made from dotted keys.
pub proof fn lemma_span_value(v: Value, next: Option<u32>, headers: Seq<Header>, end: Option<u32>)
    ensures
        value_normal(v) ==> value_normal(span_value(v, next, headers, end)),
        value_plain(v) ==> value_plain(span_value(v, next, headers, end)),
        value_apart(v) ==> value_apart(span_value(v, next, headers, end)),
    decreases v, 0nat,
{
    let out = span_value(v, next, headers, end);
    match v {
        Value::Table(t) => {
            lemma_span_table(t, next, headers, end);
        },
        Value::Array(a) => {
            if a.tables {
                lemma_span_items(a.items, a.items.len(), headers, end);
                let items = span_items(a.items, a.items.len(), headers, end);
                assert(out == Value::Array(Array { items, ..a }));
                if value_normal(v) {
                    assert forall|i: int| 0 <= i < items.len() implies value_normal(
                        #[trigger] items[i],
                    ) by {
                        assert(value_normal(a.items[i]));
                    }
                }
                if value_plain(v) {
                    assert forall|i: int| 0 <= i < items.len() implies value_plain(
                        #[trigger] items[i],
                    ) by {
                        assert(value_plain(a.items[i]));
                    }
                }
                if value_apart(v) {
                    assert forall|i: int| 0 <= i < items.len() implies (
                    #[trigger] items[i] matches Value::Table(t) ==> entries_apart(t.entries)) by {
                        assert(a.items[i] matches Value::Table(t) ==> entries_apart(t.entries));
                    }
                }
            }
        },
        _ => {},
    }
}

/// The span pass changes no key and no mark among the entries of a table.
pub proof fn lemma_span_table(t: Table, next: Option<u32>, headers: Seq<Header>, end: Option<u32>)
    ensures
        entries_normal(t.entries) ==> entries_normal(
            span_upto(t.entries, t.entries.len(), headers, end),
        ),
        entries_plain(t.entries) ==> entries_plain(
            span_upto(t.entries, t.entries.len(), headers, end),
        ),
        entries_apart(t.entries) ==> entries_apart(
            span_upto(t.entries, t.entries.len(), headers, end),
        ),
    decreases t, 0nat,
{
    let es = t.entries;
    let out = span_upto(es, es.len(), headers, end);
    lemma_span_upto(es, es.len(), headers, end);
    if entries_normal(es) {
        assert forall|i: int| 0 <= i < out.len() implies (#[trigger] out[i]).key.key_count() == 1
            && value_normal(out[i].value) by {
            assert(es[i].key.key_count() == 1 && value_normal(es[i].value));
        }
    }
    if entries_plain(es) {
        assert forall|i: int| 0 <= i < out.len() implies value_plain((#[trigger] out[i]).value) by {
            assert(value_plain(es[i].value));
        }
    }
    if entries_apart(es) {
        assert forall|i: int| 0 <= i < out.len() implies value_apart((#[trigger] out[i]).value) by {
            assert(value_apart(es[i].value));
        }
        assert forall|i: int, j: int| 0 <= i < j < out.len() implies head(#[trigger] out[i])
            != head(#[trigger] out[j]) by {
            assert(head(es[i]) != head(es[j]));
        }
    }
}

/// The span pass changes no key and no mark in the first `n` tables of an
/// array of tables.
pub proof fn lemma_span_items(items: Seq<Value>, n: nat, headers: Seq<Header>, end: Option<u32>)
    requires
        n <= items.len(),
    ensures
        span_items(items, n, headers, end).len() == n,
        forall|i: int|
            0 <= i < n && value_normal(items[i]) ==> value_normal(
                #[trigger] span_items(items, n, headers, end)[i],
            ),
        forall|i: int|
            0 <= i < n && value_plain(items[i]) ==> value_plain(
                #[trigger] span_items(items, n, headers, end)[i],
            ),
        forall|i: int|
            0 <= i < n && (items[i] matches Value::Table(t) ==> entries_apart(t.entries)) ==> (
            #[trigger] span_items(items, n, headers, end)[i] matches Value::Table(t)
                ==> entries_apart(t.entries)),
    decreases items, n,
{
    if n > 0 {
        lemma_span_items(items, (n - 1) as nat, headers, end);
        let out = span_items(items, n, headers, end);
        let before = span_items(items, (n - 1) as nat, headers, end);
        match items[n - 1] {
            Value::Table(t) => {
                lemma_span_table(
                    t,
                    span_end(headers, t.syntax, SpanRule::Array, end),
                    headers,
                    end,
                );
            },
            _ => {},
        }
        assert forall|i: int| 0 <= i < n && value_normal(items[i]) implies value_normal(
            #[trigger] out[i],
        ) by {
            if i < n - 1 {
                assert(out[i] == before[i]);
            }
        }
        assert forall|i: int| 0 <= i < n && value_plain(items[i]) implies value_plain(
            #[trigger] out[i],
        ) by {
            if i < n - 1 {
                assert(out[i] == before[i]);
            }
        }
        assert forall|i: int|
            0 <= i < n && (items[i] matches Value::Table(t) ==> entries_apart(
                t.entries,
            )) implies (#[trigger] out[i] matches Value::Table(t) ==> entries_apart(t.entries)) by {
            if i < n - 1 {
                assert(out[i] == before[i]);
            }
        }
    }
}

/// The span pass changes no key and no mark in the first `n` entries.
pub proof fn lemma_span_upto(es: Seq<Entry>, n: nat, headers: Seq<Header>, end: Option<u32>)
    requires
        n <= es.len(),
    ensures
        span_upto(es, n, headers, end).len() == n,
        forall|i: int|
            0 <= i < n ==> (#[trigger] span_upto(es, n, headers, end)[i]).key == es[i].key,
        forall|i: int|
            0 <= i < n && value_normal(es[i].value) ==> value_normal(
                (#[trigger] span_upto(es, n, headers, end)[i]).value,
            ),
        forall|i: int|
            0 <= i < n && value_plain(es[i].value) ==> value_plain(
                (#[trigger] span_upto(es, n, headers, end)[i]).value,
            ),
        forall|i: int|
            0 <= i < n && value_apart(es[i].value) ==> value_apart(
                (#[trigger] span_upto(es, n, headers, end)[i]).value,
            ),
    decreases es, n,
{
    if n > 0 {
        lemma_span_upto(es, (n - 1) as nat, headers, end);
        let e = es[n - 1];
        lemma_span_value(e.value, entry_end(e, headers, end), headers, end);
        let out = span_upto(es, n, headers, end);
        let before = span_upto(es, (n - 1) as nat, headers, end);
        assert forall|i: int| 0 <= i < n implies (#[trigger] out[i]).key == es[i].key by {
            if i < n - 1 {
                assert(out[i] == before[i]);
            }
        }
        assert forall|i: int| 0 <= i < n && value_normal(es[i].value) implies value_normal(
            (#[trigger] out[i]).value,
        ) by {
            if i < n - 1 {
                assert(out[i] == before[i]);
            }
        }
        assert forall|i: int| 0 <= i < n && value_plain(es[i].value) implies value_plain(
            (#[trigger] out[i]).value,
        ) by {
            if i < n - 1 {
                assert(out[i] == before[i]);
            }
        }
        assert forall|i: int| 0 <= i < n && value_apart(es[i].value) implies value_apart(
            (#[trigger] out[i]).value,
        ) by {
            if i < n - 1 {
                assert(out[i] == before[i]);
            }
        }
    }
}

/// The span pass keeps every key and every mark of a table.
pub proof fn lemma_span_list(es: Seq<Entry>, headers: Seq<Header>, end: Option<u32>)
    ensures
        entries_normal(es) ==> entries_normal(span_list(es, headers, end)),
        entries_plain(es) ==> entries_plain(span_list(es, headers, end)),
        entries_apart(es) ==> entries_apart(span_list(es, headers, end)),
{
    lemma_span_table(
        Table { syntax: arbitrary(), array: false, pseudo: false, next_entry: None, entries: es },
        None,
        headers,
        end,
    );
}

/// The headers stand in the order of the source.
pub open spec fn headers_sorted(headers: Seq<Header>) -> bool {
    forall|i: int, j: int|
        0 <= i <= j < headers.len() ==> (#[trigger] headers[i]).start <= (#[trigger] headers[j]).start
}

/// A span ends no later than the first header that ends it.
pub proof fn lemma_next_header(headers: Seq<Header>, own: Handle, rule: SpanRule, j: int, i: nat)
    requires
        headers_sorted(headers),
        i <= j < headers.len(),
        ends_span(headers[j], own, rule),
    ensures
        next_header(headers, own, rule, i) matches Some(start) && own.range.hi() <= start
            <= headers[j].start,
    decreases headers.len() - i,
{
    if !ends_span(headers[i as int], own, rule) {
        lemma_next_header(headers, own, rule, j, i + 1);
    }
}

/// The text of a table under a `[header]` runs from the start of its header
/// to the start of the next header that is not below it.
pub proof fn lemma_span_covers(headers: Seq<Header>, own: Handle, j: int, end: Option<u32>)
    requires
        headers_sorted(headers),
        0 <= j < headers.len(),
        ends_span(headers[j], own, SpanRule::Table),
        own.range.lo() <= own.range.hi(),
    ensures
        span_end(headers, own, SpanRule::Table, end) matches Some(next) && reach(
            own.range,
            Some(next),
        ) == TextRange::span(own.range.lo(), next) && own.range.hi() <= next <= headers[j].start,
{
    lemma_next_header(headers, own, SpanRule::Table, j, 0);
    let next = span_end(headers, own, SpanRule::Table, end)->Some_0;
    TextRange::lemma_span(own.range.lo(), next);
    TextRange::lemma_same(reach(own.range, Some(next)), TextRange::span(own.range.lo(), next));
}

/// The texts of two tables under `[header]`s do not overlap where the later
/// header is not below the earlier one: the earlier table ends at or before
/// the start of the later.
pub proof fn lemma_spans_apart(
    headers: Seq<Header>,
    first: Handle,
    second: Handle,
    j: int,
    end: Option<u32>,
)
    requires
        headers_sorted(headers),
        0 <= j < headers.len(),
        headers[j].start == second.range.lo(),
        ends_span(headers[j], first, SpanRule::Table),
        first.range.lo() <= first.range.hi(),
        second.range.lo() <= second.range.hi(),
        end matches Some(e) ==> second.range.hi() <= e,
    ensures
        reach(first.range, span_end(headers, first, SpanRule::Table, end)).lo()
            == first.range.lo(),
        reach(first.range, span_end(headers, first, SpanRule::Table, end)).hi() <= reach(
            second.range,
            span_end(headers, second, SpanRule::Table, end),
        ).lo(),
        reach(second.range, span_end(headers, second, SpanRule::Table, end)).lo()
            == second.range.lo(),
{
    lemma_span_covers(headers, first, j, end);
    let next = span_end(headers, first, SpanRule::Table, end)->Some_0;
    TextRange::lemma_span(first.range.lo(), next);
    lemma_span_start(headers, second, 0, end);
}

/// A span never starts before the header of its table.
pub proof fn lemma_span_start(headers: Seq<Header>, own: Handle, i: nat, end: Option<u32>)
    requires
        own.range.lo() <= own.range.hi(),
        end matches Some(e) ==> own.range.hi() <= e,
    ensures
        next_header(headers, own, SpanRule::Table, i) matches Some(start) ==> own.range.hi()
            <= start,
        i == 0 ==> reach(own.range, span_end(headers, own, SpanRule::Table, end)).lo()
            == own.range.lo(),
    decreases headers.len() - i,
{
    if i < headers.len() && !ends_span(headers[i as int], own, SpanRule::Table) {
        lemma_span_start(headers, own, i + 1, end);
    }
    if i == 0 {
        match span_end(headers, own, SpanRule::Table, end) {
            Some(n) => {
                if headers.len() > 0 && !ends_span(headers[0], own, SpanRule::Table) {
                    lemma_span_start(headers, own, 1, end);
                }
                TextRange::lemma_span(own.range.lo(), if own.range.hi() >= n {
                    own.range.hi()
                } else {
                    n
                });
            },
            None => {},
        }
    }
}

/// The views of a list of headers.
pub open spec fn header_seq(v: Seq<HeaderNode>) -> Seq<Header> {
    v.map_values(|h: HeaderNode| h@)
}

/// The window of `s` without the `[` at its start and the `]` at its end.
pub fn unbracket(s: &Vec<char>) -> (r: Vec<char>)
    ensures
        r@ == unbracketed(s@),
{
    let n = s.len();
    let mut a: usize = 0;
    assert(s@.skip(0) =~= s@);
    while a < n && s[a] == '['
        invariant
            a <= n,
            n == s.len(),
            trim_start(s@) == trim_start(s@.skip(a as int)),
        decreases n - a,
    {
        assert(s@.skip(a as int).skip(1) =~= s@.skip(a + 1));
        a += 1;
    }
    let mut b: usize = n;
    while b > a && s[b - 1] == ']'
        invariant
            a <= b <= n,
            n == s.len(),
            trim_end(s@.skip(a as int)) == trim_end(s@.subrange(a as int, b as int)),
        decreases b - a,
    {
        assert(s@.subrange(a as int, b as int).drop_last() =~= s@.subrange(a as int, b - 1));
        b -= 1;
    }
    assert(s@.skip(a as int) =~= s@.subrange(a as int, n as int));
    let mut r: Vec<char> = Vec::new();
    let mut i: usize = a;
    while i < b
        invariant
            a <= i <= b <= n,
            n == s.len(),
            r@ == s@.subrange(a as int, i as int),
        decreases b - i,
    {
        r.push(s[i]);
        i += 1;
    }
    r
}

/// Whether two texts are the same.
pub fn same_chars(a: &Vec<char>, b: &Vec<char>) -> (r: bool)
    ensures
        r == (a@ == b@),
{
    if a.len() != b.len() {
        return false;
    }
    let mut i: usize = 0;
    while i < a.len()
        invariant
            a.len() == b.len(),
            i <= a.len(),
            forall|j: int| 0 <= j < i ==> a@[j] == b@[j],
        decreases a.len() - i,
    {
        if a[i] != b[i] {
            return false;
        }
        i += 1;
    }
    assert(a@ =~= b@);
    true
}

/// The headers of the document, in the order of the source.
pub fn collect_headers(root: &SyntaxElement) -> (r: Vec<HeaderNode>)
    ensures
        header_seq(r@) == headers_of(*root),
{
    let ghost pick = |c: SyntaxElement| header_of(c);
    let mut r: Vec<HeaderNode> = Vec::new();
    let mut i: usize = 0;
    while i < root.children.len()
        invariant
            i <= root.children.len(),
            pick == |c: SyntaxElement| header_of(c),
            header_seq(r@) == root.children@.take(i as int).filter_map(pick),
        decreases root.children.len() - i,
    {
        let c = &root.children[i];
        proof {
            root.children@.lemma_filter_map_take_succ(pick, i as int);
        }
        let array = match c.kind {
            SyntaxKind::TABLE_ARRAY_HEADER => true,
            _ => false,
        };
        let table = match c.kind {
            SyntaxKind::TABLE_HEADER => true,
            _ => false,
        };
        if !c.token && (array || table) {
            let text = chars_of(c.text().as_str());
            let name = unbracket(&text);
            let h = HeaderNode { array, start: c.range.start(), text, name };
            let ghost before = r@;
            r.push(h);
            assert(header_seq(r@) =~= header_seq(before).push(h@));
        }
        i += 1;
    }
    assert(root.children@.take(i as int) =~= root.children@);
    r
}

/// Where the text of the table that came from `own` ends.
pub fn find_span_end(headers: &Vec<HeaderNode>, own: &SyntaxHandle, rule: SpanRule, end: Option<u32>) -> (r:
    Option<u32>)
    ensures
        r == span_end(header_seq(headers@), own@, rule, end),
{
    let text = chars_of(own.text.as_str());
    let name = unbracket(&text);
    let limit = own.range.end();
    let mut i: usize = 0;
    while i < headers.len()
        invariant
            i <= headers.len(),
            text@ == own@.text,
            name@ == unbracketed(own@.text),
            limit == own@.range.hi(),
            next_header(header_seq(headers@), own@, rule, 0) == next_header(
                header_seq(headers@),
                own@,
                rule,
                i as nat,
            ),
        decreases headers.len() - i,
    {
        let h = &headers[i];
        assert(header_seq(headers@)[i as int] == h@);
        if h.start >= limit {
            assert(h.name@.skip(0) =~= h.name@);
            let apart = !has_prefix_at(&h.name, 0, &name);
            let ends = match rule {
                SpanRule::Table => apart,
                SpanRule::Array => h.array && (apart || same_chars(&h.text, &text)),
            };
            if ends {
                return Some(h.start);
            }
        }
        i += 1;
    }
    end
}

/// Gives the tables below a value their spans.
pub fn span_value_node(
    v: ValueNode,
    next: Option<u32>,
    headers: &Vec<HeaderNode>,
    end: Option<u32>,
) -> (r: ValueNode)
    requires
        value_wf(v),
    ensures
        value_wf(r),
        r@ == span_value(v@, next, header_seq(headers@), end),
    decreases v, 0nat,
{
    match v {
        ValueNode::Table(t) => {
            let TableNode { syntax, array, pseudo, next_entry, entries } = t;
            let entries = span_nodes(entries, headers, end);
            ValueNode::Table(TableNode { syntax, array, pseudo, next_entry: next, entries })
        },
        ValueNode::Array(a) => {
            if !a.tables {
                return ValueNode::Array(a);
            }
            let ArrayNode { syntax, tables, items, next_header_start } = a;
            let ghost all = items@;
            let ghost models = a@.items;
            let ghost hs = header_seq(headers@);
            let mut out: Vec<ValueNode> = Vec::new();
            let n = items.len();
            let mut items = items;
            let mut i: usize = 0;
            while i < n
                invariant
                    i <= n,
                    n == all.len(),
                    items.len() == n,
                    models.len() == n,
                    hs == header_seq(headers@),
                    forall|j: int| i <= j < n ==> items@[j] == all[j],
                    forall|j: int| 0 <= j < n ==> (#[trigger] all[j])@ == models[j],
                    forall|j: int| 0 <= j < n ==> value_wf(#[trigger] all[j]),
                    forall|j: int| 0 <= j < n ==> decreases_to!(v => all[j]),
                    forall|j: int|
                        0 <= j < n ==> (#[trigger] all[j] matches ValueNode::Table(x) && !x.array),
                    out.len() == i,
                    forall|j: int| 0 <= j < i ==> value_wf(#[trigger] out@[j]),
                    forall|j: int|
                        0 <= j < i ==> (#[trigger] out@[j])@ == span_items(models, i as nat, hs, end)[j],
                    span_items(models, i as nat, hs, end).len() == i,
                    forall|j: int|
                        0 <= j < i ==> (#[trigger] out@[j] matches ValueNode::Table(x) && !x.array),
                decreases n - i,
            {
                let mut item = ValueNode::Empty;
                core::mem::swap(&mut items[i], &mut item);
                assert(item == all[i as int]);
                match item {
                    ValueNode::Table(t) => {
                        let TableNode { syntax, array, pseudo, next_entry, entries } = t;
                        let next = find_span_end(headers, &syntax, SpanRule::Array, end);
                        let entries = span_nodes(entries, headers, end);
                        out.push(
                            ValueNode::Table(
                                TableNode { syntax, array, pseudo, next_entry: next, entries },
                            ),
                        );
                    },
                    other => {
                        out.push(other);
                    },
                }
                i += 1;
            }
            let r = ArrayNode { syntax, tables, items: out, next_header_start };
            assert(r@.items =~= span_items(models, n as nat, hs, end));
            ValueNode::Array(r)
        },
        other => other,
    }
}

/// Gives a list of entries, and the tables below them, their spans.
pub fn span_nodes(es: Entries, headers: &Vec<HeaderNode>, end: Option<u32>) -> (r: Entries)
    requires
        entries_wf(es),
    ensures
        entries_wf(r),
        r@ == span_list(es@, header_seq(headers@), end),
    decreases es, 1nat,
{
    let ghost all = es.0@;
    let ghost models = es@;
    let ghost hs = header_seq(headers@);
    let Entries(list) = es;
    let mut list = list;
    let n = list.len();
    let mut out: Vec<EntryNode> = Vec::new();
    let mut i: usize = 0;
    while i < n
        invariant
            i <= n,
            n == all.len(),
            list.len() == n,
            models.len() == n,
            hs == header_seq(headers@),
            forall|j: int| i <= j < n ==> list@[j] == all[j],
            forall|j: int| 0 <= j < n ==> (#[trigger] all[j])@ == models[j],
            forall|j: int| 0 <= j < n ==> entry_wf(#[trigger] all[j]),
            forall|j: int| 0 <= j < n ==> decreases_to!(es => all[j]),
            out.len() == i,
            forall|j: int| 0 <= j < i ==> entry_wf(#[trigger] out@[j]),
            forall|j: int| 0 <= j < i ==> (#[trigger] out@[j])@ == span_upto(models, i as nat, hs, end)[j],
            span_upto(models, i as nat, hs, end).len() == i,
        decreases n - i,
    {
        let mut entry = EntryNode {
            syntax: list[i].syntax.clone(),
            key: list[i].key.clone(),
            value: ValueNode::Empty,
            next_entry: list[i].next_entry,
            eq_range: list[i].eq_range,
        };
        core::mem::swap(&mut list[i].value, &mut entry.value);
        assert(entry@ == models[i as int]);
        let EntryNode { syntax, key, value, next_entry, eq_range } = entry;
        assert(decreases_to!(all[i as int] => all[i as int].value));
        let next = match syntax.kind {
            SyntaxKind::TABLE_HEADER => find_span_end(headers, &syntax, SpanRule::Table, end),
            SyntaxKind::TABLE_ARRAY_HEADER => find_span_end(headers, &syntax, SpanRule::Array, end),
            _ => next_entry,
        };
        let value = span_value_node(value, next, headers, end);
        out.push(EntryNode { syntax, key, value, next_entry: next, eq_range });
        i += 1;
    }
    let r = Entries(out);
    assert(r@ =~= span_upto(models, n as nat, hs, end));
    r
}

/// The span pass: every entry that came from a header, and the table it
/// holds, ends where the next header begins that is not below it, or at
/// `end` where there is none. What came from the header of an array of
/// tables ends at the next header of its array, too, and at no header of a
/// plain table.
pub fn set_table_spans(entries: &mut Entries, root: &SyntaxElement, end: Option<u32>)
    requires
        entries_wf(*old(entries)),
    ensures
        entries_wf(*final(entries)),
        final(entries)@ == span_list(old(entries)@, headers_of(*root), end),
{
    let headers = collect_headers(root);
    let mut list = Entries(Vec::new());
    core::mem::swap(entries, &mut list);
    *entries = span_nodes(list, &headers, end);
}

} // verus!
