//! The normalize pass: every dotted key becomes a chain of nested tables,
//! so that each entry stands under a key of one segment.

use vstd::prelude::*;
use crate::lift::is_array_table;
use crate::merge::{as_written, entries_apart, head, value_apart};
use crate::node::{
    entries_wf, entry_wf, value_wf, Array, ArrayNode, Entries, Entry, EntryNode, Table, TableNode,
    Value, ValueNode,
};

verus! {

/// One step of normalizing an entry with a dotted key: the entry under its
/// key without the last segment, holding a table whose only entry is the
/// last segment with the value.
pub open spec fn wrap_once(e: Entry) -> Entry {
    Entry {
        key: e.key.prefix(),
        value: Value::Table(
            Table {
                syntax: e.key.syntax,
                array: is_array_table(e.value),
                pseudo: true,
                next_entry: None,
                entries: seq![
                    Entry {
                        syntax: e.syntax,
                        key: e.key.last(),
                        value: e.value,
                        next_entry: None,
                        eq_range: e.eq_range,
                    },
                ],
            },
        ),
        ..e
    }
}

/// The entry with its dotted key turned into nested tables.
pub open spec fn normalize_entry(e: Entry) -> Entry
    decreases e.key.key_count(),
{
    if e.key.key_count() <= 1 {
        e
    } else {
        normalize_entry(wrap_once(e))
    }
}

/// The value with every dotted key below it turned into nested tables.
pub open spec fn normalize_value(v: Value) -> Value
    decreases v, 0nat,
{
    match v {
        Value::Table(t) => Value::Table(
            Table { entries: normalize_upto(t.entries, t.entries.len()), ..t },
        ),
        Value::Array(a) => Value::Array(
            Array { items: normalize_items(a.items, a.items.len()), ..a },
        ),
        _ => v,
    }
}

/// The first `n` of `items`, normalized.
pub open spec fn normalize_items(items: Seq<Value>, n: nat) -> Seq<Value>
    decreases items, n,
{
    if n == 0 || n > items.len() {
        Seq::empty()
    } else {
        normalize_items(items, (n - 1) as nat).push(normalize_value(items[n - 1]))
    }
}

/// The first `n` of `es`, normalized.
pub open spec fn normalize_upto(es: Seq<Entry>, n: nat) -> Seq<Entry>
    decreases es, n,
{
    if n == 0 || n > es.len() {
        Seq::empty()
    } else {
        normalize_upto(es, (n - 1) as nat).push(
            normalize_entry(Entry { value: normalize_value(es[n - 1].value), ..es[n - 1] }),
        )
    }
}

/// The normalize pass on a list of entries: below every entry and in every
/// table and array, each dotted key becomes nested tables.
pub open spec fn normalize_list(es: Seq<Entry>) -> Seq<Entry> {
    normalize_upto(es, es.len())
}

/// Every entry in `v` and below it has a key of exactly one segment.
pub open spec fn value_normal(v: Value) -> bool
    decreases v,
{
    match v {
        Value::Table(t) => entries_normal(t.entries),
        Value::Array(a) => forall|i: int|
            0 <= i < a.items.len() ==> value_normal(#[trigger] a.items[i]),
        _ => true,
    }
}

/// Every entry in `es` and below it has a key of exactly one segment.
pub open spec fn entries_normal(es: Seq<Entry>) -> bool
    decreases es,
{
    forall|i: int|
        0 <= i < es.len() ==> (#[trigger] es[i]).key.key_count() == 1 && value_normal(es[i].value)
}

/// Every key in `v` and below it has at least one segment.
pub open spec fn value_keyed(v: Value) -> bool
    decreases v,
{
    match v {
        Value::Table(t) => entries_keyed(t.entries),
        Value::Array(a) => forall|i: int|
            0 <= i < a.items.len() ==> value_keyed(#[trigger] a.items[i]),
        _ => true,
    }
}

/// Every key in `es` and below it has at least one segment.
pub open spec fn entries_keyed(es: Seq<Entry>) -> bool
    decreases es,
{
    forall|i: int|
        0 <= i < es.len() ==> (#[trigger] es[i]).key.key_count() >= 1 && value_keyed(es[i].value)
}

/// Normalizing an entry whose value is normalized leaves a key of one
/// segment over values that are normalized.
pub proof fn lemma_normalize_entry(e: Entry)
    requires
        e.key.key_count() >= 1,
        value_normal(e.value),
    ensures
        normalize_entry(e).key.key_count() == 1,
        value_normal(normalize_entry(e).value),
    decreases e.key.key_count(),
{
    if e.key.key_count() > 1 {
        let w = wrap_once(e);
        assert(w.value->Table_0.entries[0].key.key_count() == 1);
        assert(entries_normal(w.value->Table_0.entries));
        lemma_normalize_entry(w);
    }
}

/// Normalizing a value leaves only keys of one segment below it.
pub proof fn lemma_normalize_value(v: Value)
    requires
        value_keyed(v),
    ensures
        value_normal(normalize_value(v)),
    decreases v, 0nat,
{
    match v {
        Value::Table(t) => {
            lemma_normalize_upto(t.entries, t.entries.len());
        },
        Value::Array(a) => {
            lemma_normalize_items(a.items, a.items.len());
        },
        _ => {},
    }
}

/// Normalizing the first `n` items leaves only keys of one segment below
/// them.
pub proof fn lemma_normalize_items(items: Seq<Value>, n: nat)
    requires
        forall|i: int| 0 <= i < items.len() ==> value_keyed(#[trigger] items[i]),
        n <= items.len(),
    ensures
        normalize_items(items, n).len() == n,
        forall|i: int| 0 <= i < n ==> value_normal(#[trigger] normalize_items(items, n)[i]),
    decreases items, n,
{
    if n > 0 {
        lemma_normalize_items(items, (n - 1) as nat);
        lemma_normalize_value(items[n - 1]);
    }
}

/// Normalizing the first `n` entries leaves only keys of one segment in them
/// and below.
pub proof fn lemma_normalize_upto(es: Seq<Entry>, n: nat)
    requires
        entries_keyed(es),
        n <= es.len(),
    ensures
        normalize_upto(es, n).len() == n,
        entries_normal(normalize_upto(es, n)),
    decreases es, n,
{
    if n > 0 {
        lemma_normalize_upto(es, (n - 1) as nat);
        lemma_normalize_value(es[n - 1].value);
        lemma_normalize_entry(Entry { value: normalize_value(es[n - 1].value), ..es[n - 1] });
    }
}

/// After the normalize pass every entry, at every depth, has a key of
/// exactly one segment.
pub proof fn lemma_normalized(es: Seq<Entry>)
    requires
        entries_keyed(es),
    ensures
        entries_normal(normalize_list(es)),
{
    lemma_normalize_upto(es, es.len());
}

/// Normalizing an entry keeps the first segment of its key, and keeps the
/// entries of every table below it apart.
pub proof fn lemma_normalize_entry_apart(e: Entry)
    requires
        e.key.key_count() >= 1,
        value_apart(e.value),
    ensures
        head(normalize_entry(e)) == head(e),
        value_apart(normalize_entry(e).value),
    decreases e.key.key_count(),
{
    if e.key.key_count() > 1 {
        let w = wrap_once(e);
        assert(w.key.names()[0] == e.key.names()[0]);
        assert(entries_apart(w.value->Table_0.entries));
        lemma_normalize_entry_apart(w);
    }
}

/// Normalizing a value keeps the entries of every table below it apart.
pub proof fn lemma_normalize_value_apart(v: Value)
    requires
        value_keyed(v),
        value_apart(v),
    ensures
        value_apart(normalize_value(v)),
    decreases v, 0nat,
{
    match v {
        Value::Table(t) => {
            if !as_written(t) {
                lemma_normalize_upto_apart(t.entries, t.entries.len());
            }
        },
        Value::Array(a) => {
            if a.tables {
                lemma_normalize_items_apart(a.items, a.items.len());
            } else {
                lemma_normalize_items_len(a.items, a.items.len());
            }
        },
        _ => {},
    }
}

/// Normalizing keeps the number of items.
pub proof fn lemma_normalize_items_len(items: Seq<Value>, n: nat)
    requires
        n <= items.len(),
    ensures
        normalize_items(items, n).len() == n,
    decreases n,
{
    if n > 0 {
        lemma_normalize_items_len(items, (n - 1) as nat);
    }
}

/// Normalizing the tables of an array of tables keeps their entries apart.
pub proof fn lemma_normalize_items_apart(items: Seq<Value>, n: nat)
    requires
        forall|i: int| 0 <= i < items.len() ==> value_keyed(#[trigger] items[i]),
        forall|i: int|
            0 <= i < items.len() ==> (#[trigger] items[i] matches Value::Table(t)
                ==> entries_apart(t.entries)),
        n <= items.len(),
    ensures
        normalize_items(items, n).len() == n,
        forall|i: int|
            0 <= i < n ==> (#[trigger] normalize_items(items, n)[i] matches Value::Table(t)
                ==> entries_apart(t.entries)),
    decreases items, n,
{
    if n > 0 {
        lemma_normalize_items_apart(items, (n - 1) as nat);
        match items[n - 1] {
            Value::Table(t) => {
                lemma_normalize_upto_apart(t.entries, t.entries.len());
            },
            _ => {},
        }
        let out = normalize_items(items, n);
        let before = normalize_items(items, (n - 1) as nat);
        assert forall|i: int| 0 <= i < n implies (#[trigger] out[i] matches Value::Table(t)
            ==> entries_apart(t.entries)) by {
            if i < n - 1 {
                assert(out[i] == before[i]);
            } else {
                assert(out[i] == normalize_value(items[n - 1]));
                match items[n - 1] {
                    Value::Table(t) => {
                        assert(value_keyed(items[n - 1]));
                        assert(entries_apart(normalize_upto(t.entries, t.entries.len())));
                    },
                    _ => {},
                }
            }
        }
    }
}

/// Normalizing the first `n` entries keeps the first segment of each key,
/// and keeps the entries of every level apart.
pub proof fn lemma_normalize_upto_apart(es: Seq<Entry>, n: nat)
    requires
        entries_keyed(es),
        entries_apart(es),
        n <= es.len(),
    ensures
        normalize_upto(es, n).len() == n,
        forall|i: int| 0 <= i < n ==> head(#[trigger] normalize_upto(es, n)[i]) == head(es[i]),
        forall|i: int| 0 <= i < n ==> value_apart((#[trigger] normalize_upto(es, n)[i]).value),
        n == es.len() ==> entries_apart(normalize_upto(es, n)),
    decreases es, n,
{
    if n > 0 {
        lemma_normalize_upto_apart(es, (n - 1) as nat);
        let e = es[n - 1];
        assert(value_apart(e.value));
        lemma_normalize_value_apart(e.value);
        lemma_normalize_entry_apart(Entry { value: normalize_value(e.value), ..e });
        let out = normalize_upto(es, n);
        let before = normalize_upto(es, (n - 1) as nat);
        assert forall|i: int| 0 <= i < n implies head(#[trigger] out[i]) == head(es[i])
            && value_apart(out[i].value) by {
            if i < n - 1 {
                assert(out[i] == before[i]);
            }
        }
    }
    if n == es.len() {
        let out = normalize_upto(es, n);
        assert forall|i: int, j: int| 0 <= i < j < out.len() implies head(#[trigger] out[i])
            != head(#[trigger] out[j]) by {
            assert(head(es[i]) != head(es[j]));
        }
    }
}

/// The normalize pass keeps the entries of every level apart: where no two
/// entries of a level shared the first segment of their keys, no two share
/// their key afterwards.
pub proof fn lemma_normalized_apart(es: Seq<Entry>)
    requires
        entries_keyed(es),
        entries_apart(es),
    ensures
        entries_apart(normalize_list(es)),
{
    lemma_normalize_upto_apart(es, es.len());
}

/// Where every key has one segment and no two entries of a level share the
/// first segment of their keys, no two entries of a level have the same key.
pub proof fn lemma_distinct_keys(es: Seq<Entry>, i: int, j: int)
    requires
        entries_normal(es),
        entries_apart(es),
        0 <= i < j < es.len(),
    ensures
        !es[i].key.eq_keys(es[j].key),
        es[i].key.names() != es[j].key.names(),
{
    assert(head(es[i]) != head(es[j]));
    if es[i].key.eq_keys(es[j].key) {
        let (a, b) = (es[i].key.names(), es[j].key.names());
        assert(a[0] == b.subrange(0, a.len() as int)[0]);
    }
}

/// Keys with a proper window of identifiers have at least one segment.
pub proof fn lemma_value_keyed(v: ValueNode)
    requires
        value_wf(v),
    ensures
        value_keyed(v@),
    decreases v,
{
    match v {
        ValueNode::Table(t) => {
            lemma_entries_keyed(t.entries);
        },
        ValueNode::Array(a) => {
            assert forall|i: int| 0 <= i < a@.items.len() implies value_keyed(
                #[trigger] a@.items[i],
            ) by {
                lemma_value_keyed(a.items[i]);
            }
        },
        _ => {},
    }
}

/// Keys with a proper window of identifiers have at least one segment.
pub proof fn lemma_entries_keyed(es: Entries)
    requires
        entries_wf(es),
    ensures
        entries_keyed(es@),
    decreases es,
{
    assert forall|i: int| 0 <= i < es@.len() implies (#[trigger] es@[i]).key.key_count() >= 1
        && value_keyed(es@[i].value) by {
        assert(entry_wf(es.0[i]));
        lemma_value_keyed(es.0[i].value);
    }
}

/// Turns the dotted key of an entry into nested tables.
pub fn normalize_key(e: EntryNode) -> (r: EntryNode)
    requires
        entry_wf(e),
    ensures
        entry_wf(r),
        r@ == normalize_entry(e@),
{
    let mut cur = e;
    while cur.key.key_count() > 1
        invariant
            entry_wf(cur),
            normalize_entry(cur@) == normalize_entry(e@),
        decreases cur.key@.key_count(),
    {
        let ghost before = cur@;
        let EntryNode { syntax, key, value, next_entry, eq_range } = cur;
        let new_key = key.clone().prefix();
        let inner_key = key.last();
        let array = match &value {
            ValueNode::Table(t) => t.array,
            _ => false,
        };
        let handle = inner_key.syntax.clone();
        let inner = EntryNode {
            syntax: syntax.clone(),
            key: inner_key,
            next_entry: None,
            value,
            eq_range,
        };
        let mut entries: Vec<EntryNode> = Vec::new();
        entries.push(inner);
        let table = TableNode {
            syntax: handle,
            array,
            next_entry: None,
            pseudo: true,
            entries: Entries(entries),
        };
        assert(table@.entries =~= seq![inner@]);
        assert(entry_wf(inner));
        assert(table.entries.0@[0] == inner);
        assert(entries_wf(table.entries));
        cur = EntryNode { syntax, key: new_key, value: ValueNode::Table(table), next_entry, eq_range };
        assert(cur@ == wrap_once(before));
    }
    cur
}

/// Normalizes every entry below a value.
pub fn normalize_value_node(v: ValueNode) -> (r: ValueNode)
    requires
        value_wf(v),
    ensures
        value_wf(r),
        r@ == normalize_value(v@),
        v matches ValueNode::Table(t) ==> r matches ValueNode::Table(x) && x.array == t.array,
    decreases v, 0nat,
{
    match v {
        ValueNode::Table(t) => {
            let TableNode { syntax, array, pseudo, next_entry, entries } = t;
            let entries = normalize_nodes(entries);
            ValueNode::Table(TableNode { syntax, array, pseudo, next_entry, entries })
        },
        ValueNode::Array(a) => {
            let ArrayNode { syntax, tables, items, next_header_start } = a;
            let ghost all = items@;
            let ghost models = a@.items;
            let mut out: Vec<ValueNode> = Vec::new();
            let n = items.len();
            let mut items = items;
            let mut i: usize = 0;
            while i < n
                invariant
                    i <= n,
                    n == all.len(),
                    items.len() == n,
                    models.len() == n,
                    forall|j: int| i <= j < n ==> items@[j] == all[j],
                    forall|j: int| 0 <= j < n ==> (#[trigger] all[j])@ == models[j],
                    forall|j: int| 0 <= j < n ==> value_wf(#[trigger] all[j]),
                    forall|j: int| 0 <= j < n ==> decreases_to!(v => all[j]),
                    tables ==> forall|j: int|
                        0 <= j < n ==> (#[trigger] all[j] matches ValueNode::Table(x) && !x.array),
                    out.len() == i,
                    forall|j: int| 0 <= j < i ==> value_wf(#[trigger] out@[j]),
                    forall|j: int|
                        0 <= j < i ==> (#[trigger] out@[j])@ == normalize_items(models, i as nat)[j],
                    normalize_items(models, i as nat).len() == i,
                    tables ==> forall|j: int|
                        0 <= j < i ==> (#[trigger] out@[j] matches ValueNode::Table(x) && !x.array),
                decreases n - i,
            {
                let mut item = ValueNode::Empty;
                core::mem::swap(&mut items[i], &mut item);
                assert(item == all[i as int]);
                let done = normalize_value_node(item);
                out.push(done);
                i += 1;
            }
            let r = ArrayNode { syntax, tables, items: out, next_header_start };
            assert(r@.items =~= normalize_items(models, n as nat));
            ValueNode::Array(r)
        },
        other => other,
    }
}

/// Normalizes a list of entries and all that stands below them.
pub fn normalize_nodes(es: Entries) -> (r: Entries)
    requires
        entries_wf(es),
    ensures
        entries_wf(r),
        r@ == normalize_list(es@),
    decreases es, 1nat,
{
    let ghost all = es.0@;
    let ghost models = es@;
    let Entries(list) = es;
    let mut list = list;
    let n = list.len();
    let mut out: Vec<EntryNode> = Vec::new();
    let mut i: usize = 0;
    while i < n
        invariant
            i <= n,
            n == all.len(),
            list.len() == n,
            models.len() == n,
            forall|j: int| i <= j < n ==> list@[j] == all[j],
            forall|j: int| 0 <= j < n ==> (#[trigger] all[j])@ == models[j],
            forall|j: int| 0 <= j < n ==> entry_wf(#[trigger] all[j]),
            forall|j: int| 0 <= j < n ==> decreases_to!(es => all[j]),
            out.len() == i,
            forall|j: int| 0 <= j < i ==> entry_wf(#[trigger] out@[j]),
            forall|j: int| 0 <= j < i ==> (#[trigger] out@[j])@ == normalize_upto(models, i as nat)[j],
            normalize_upto(models, i as nat).len() == i,
        decreases n - i,
    {
        let mut entry = EntryNode {
            syntax: list[i].syntax.clone(),
            key: list[i].key.clone(),
            value: ValueNode::Empty,
            next_entry: list[i].next_entry,
            eq_range: list[i].eq_range,
        };
        core::mem::swap(&mut list[i].value, &mut entry.value);
        assert(entry@ == models[i as int]);
        let EntryNode { syntax, key, value, next_entry, eq_range } = entry;
        assert(decreases_to!(all[i as int] => all[i as int].value));
        let value = normalize_value_node(value);
        let done = normalize_key(EntryNode { syntax, key, value, next_entry, eq_range });
        out.push(done);
        i += 1;
    }
    let r = Entries(out);
    assert(r@ =~= normalize_upto(models, n as nat));
    r
}

/// The normalize pass: every dotted key, at every depth, becomes nested
/// tables. Afterwards each entry has a key of exactly one segment.
pub fn normalize(entries: &mut Entries)
    requires
        entries_wf(*old(entries)),
    ensures
        entries_wf(*final(entries)),
        final(entries)@ == normalize_list(old(entries)@),
        entries_normal(final(entries)@),
        entries_apart(old(entries)@) ==> entries_apart(final(entries)@),
{
    proof {
        lemma_entries_keyed(*entries);
        lemma_normalized(entries@);
        if entries_apart(entries@) {
            lemma_normalized_apart(entries@);
        }
    }
    let mut list = Entries(Vec::new());
    core::mem::swap(entries, &mut list);
    *entries = normalize_nodes(list);
}

} // verus!
