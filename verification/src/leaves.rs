//! The values that a document holds at the ends of its keys, and what the
//! passes do to them.

use vstd::prelude::*;
use crate::merge::{
    below, entry_weight, is_inline, joins_array, lemma_item_weight, lemma_weight_push, merge_entry,
    merge_fold, merge_into, merge_list, merge_place, pseudo_table, standing, unindexed, weight,
    Merged,
};
use crate::lift::lift_spec;
use crate::node::{Entry, Table, Value};
use crate::normalize::{
    normalize_entry, normalize_items, normalize_list, normalize_upto, normalize_value, wrap_once,
};
use crate::root::{end_of_file, root_of};
use crate::spans::{entry_end, headers_of, span_items, span_upto, span_value, Header};
use crate::syntax::SyntaxElement;

verus! {

/// How often the value `x` stands in `v` as a leaf: as a value that is
/// neither a table nor an array.
pub open spec fn value_count(v: Value, x: Value) -> nat
    decreases v, 0nat,
{
    match v {
        Value::Table(t) => entries_count(t.entries, t.entries.len(), x),
        Value::Array(a) => items_count(a.items, a.items.len(), x),
        _ => if v == x {
            1
        } else {
            0
        },
    }
}

/// How often `x` stands as a leaf in the first `n` of `items`.
pub open spec fn items_count(items: Seq<Value>, n: nat, x: Value) -> nat
    decreases items, n,
{
    if n == 0 || n > items.len() {
        0
    } else {
        items_count(items, (n - 1) as nat, x) + value_count(items[n - 1], x)
    }
}

/// How often `x` stands as a leaf in the first `n` of `es`.
pub open spec fn entries_count(es: Seq<Entry>, n: nat, x: Value) -> nat
    decreases es, n,
{
    if n == 0 || n > es.len() {
        0
    } else {
        entries_count(es, (n - 1) as nat, x) + value_count(es[n - 1].value, x)
    }
}

/// How often `x` stands as a leaf in the entries `es`.
pub open spec fn leaf_count(es: Seq<Entry>, x: Value) -> nat {
    entries_count(es, es.len(), x)
}

/// One more entry at the end changes no count among the entries before it.
pub proof fn lemma_count_prefix(es: Seq<Entry>, e: Entry, n: nat, x: Value)
    requires
        n <= es.len(),
    ensures
        entries_count(es.push(e), n, x) == entries_count(es, n, x),
    decreases n,
{
    if n > 0 {
        lemma_count_prefix(es, e, (n - 1) as nat, x);
    }
}

/// One more entry adds the leaves of its value.
pub proof fn lemma_count_push(es: Seq<Entry>, e: Entry, x: Value)
    ensures
        leaf_count(es.push(e), x) == leaf_count(es, x) + value_count(e.value, x),
{
    lemma_count_prefix(es, e, es.len(), x);
}

/// Another entry in the place of one changes the count by the difference of
/// the two, where the place lies among the first `n`.
pub proof fn lemma_count_update_upto(es: Seq<Entry>, i: int, e: Entry, n: nat, x: Value)
    requires
        0 <= i < es.len(),
        n <= es.len(),
    ensures
        entries_count(es.update(i, e), n, x) + (if i < n {
            value_count(es[i].value, x)
        } else {
            0
        }) == entries_count(es, n, x) + (if i < n {
            value_count(e.value, x)
        } else {
            0
        }),
    decreases n,
{
    if n > 0 {
        lemma_count_update_upto(es, i, e, (n - 1) as nat, x);
    }
}

/// Another entry in the place of one changes the count by the difference of
/// the two.
pub proof fn lemma_count_update(es: Seq<Entry>, i: int, e: Entry, x: Value)
    requires
        0 <= i < es.len(),
    ensures
        leaf_count(es.update(i, e), x) + value_count(es[i].value, x) == leaf_count(es, x)
            + value_count(e.value, x),
{
    lemma_count_update_upto(es, i, e, es.len(), x);
}

/// One more item at the end changes no count among the items before it.
pub proof fn lemma_items_count_prefix(items: Seq<Value>, v: Value, n: nat, x: Value)
    requires
        n <= items.len(),
    ensures
        items_count(items.push(v), n, x) == items_count(items, n, x),
    decreases n,
{
    if n > 0 {
        lemma_items_count_prefix(items, v, (n - 1) as nat, x);
    }
}

/// Another item in the place of the last changes the count by the
/// difference of the two.
pub proof fn lemma_items_count_last(items: Seq<Value>, v: Value, x: Value)
    requires
        items.len() > 0,
    ensures
        items_count(items.update(items.len() - 1, v), items.len(), x) + value_count(
            items.last(),
            x,
        ) == items_count(items, items.len(), x) + value_count(v, x),
{
    let head = items.drop_last();
    assert(items =~= head.push(items.last()));
    assert(items.update(items.len() - 1, v) =~= head.push(v));
    lemma_items_count_prefix(head, items.last(), head.len(), x);
    lemma_items_count_prefix(head, v, head.len(), x);
}

/// Merging one entry into another without an error keeps every leaf of
/// both.
pub proof fn lemma_merge_into_count(old: Entry, new: Entry, x: Value)
    ensures
        merge_into(old, new) matches Merged::Done(merged, errors) ==> (errors.len() == 0
            ==> value_count(merged.value, x) == value_count(old.value, x) + value_count(
            new.value,
            x,
        )),
    decreases entry_weight(old) + entry_weight(new), 0nat, 0nat,
{
    if old.key.key_count() > 0 {
        match old.value {
            Value::Table(t) => {
                if !is_inline(t) {
                    let add = below(new, old.key);
                    lemma_weight_push(t.entries, add);
                    lemma_merge_list_count(t.entries.push(add), x);
                    lemma_count_push(t.entries, add, x);
                }
            },
            Value::Array(a) => {
                if !a.tables {
                } else if joins_array(old, new) {
                    let t = new.value->Table_0;
                    let item = Value::Table(Table { array: false, ..t });
                    lemma_items_count_prefix(a.items, item, a.items.len(), x);
                    assert(value_count(item, x) == value_count(new.value, x));
                } else if a.items.len() > 0 && a.items.last() is Table {
                    let last = a.items.last()->Table_0;
                    let add = below(new, old.key);
                    lemma_weight_push(last.entries, add);
                    lemma_item_weight(a.items, a.items.len() - 1);
                    lemma_merge_list_count(last.entries.push(add), x);
                    lemma_count_push(last.entries, add, x);
                    let (entries, errors) = merge_list(last.entries.push(add));
                    lemma_items_count_last(a.items, Value::Table(Table { entries, ..last }), x);
                }
            },
            _ => {},
        }
    }
}

/// Trying to merge one entry into another, where it merges them without an
/// error, keeps every leaf of both.
pub proof fn lemma_merge_entry_count(old: Entry, new: Entry, x: Value)
    ensures
        merge_entry(old, new) matches Merged::Done(merged, errors) ==> (errors.len() == 0
            ==> value_count(merged.value, x) == value_count(old.value, x) + value_count(
            new.value,
            x,
        )),
    decreases entry_weight(old) + entry_weight(new), 1nat, 0nat,
{
    if old.key.is_part_of(new.key) {
        lemma_merge_into_count(old, new, x);
    } else if new.key.is_part_of(old.key) {
        lemma_merge_into_count(new, old, x);
    } else {
        let count = old.key.common_prefix_count(new.key);
        if count > 0 {
            let merged = pseudo_table(old, new, count);
            let both = merged.value->Table_0.entries;
            assert(both.len() == 2);
            assert(both[0].value == old.value && both[1].value == new.value);
            assert(entries_count(both, 0, x) == 0);
            assert(entries_count(both, 1, x) == value_count(old.value, x));
            assert(entries_count(both, 2, x) == value_count(old.value, x) + value_count(
                new.value,
                x,
            ));
        }
    }
}

/// An entry that is taken in without an error adds its leaves to those of
/// the entries that take it in.
pub proof fn lemma_merge_place_count(done: Seq<Entry>, e: Entry, i: nat, budget: nat, x: Value)
    ensures
        merge_place(done, e, i, budget) matches Some((merged, errors)) ==> (errors.len() == 0
            ==> leaf_count(merged, x) == leaf_count(done, x) + value_count(e.value, x)),
    decreases budget, 2nat, done.len() - i,
{
    if i < done.len() {
        if entry_weight(done[i as int]) + entry_weight(e) > budget {
            lemma_merge_place_count(done, e, i + 1, budget, x);
        } else {
            lemma_merge_entry_count(done[i as int], e, x);
            match merge_entry(done[i as int], e) {
                Merged::Done(merged, errors) => {
                    lemma_count_update(done, i as int, merged, x);
                },
                Merged::Failed(error) => {
                    assert(seq![error].len() == 1);
                },
                Merged::Apart => {
                    lemma_merge_place_count(done, e, i + 1, budget, x);
                },
            }
        }
    }
}

/// An entry that stands alone holds the leaves that it held.
pub proof fn lemma_standing_count(e: Entry, x: Value)
    ensures
        value_count(standing(e).value, x) == value_count(e.value, x),
{
    match e.value {
        Value::Table(t) => {
            if t.array {
                let item = Value::Table(Table { array: false, ..t });
                let items = standing(e).value->Array_0.items;
                assert(items.len() == 1 && items[0] == item);
                assert(items_count(items, 0, x) == 0);
                assert(items_count(items, 1, x) == value_count(item, x));
                assert(value_count(item, x) == value_count(e.value, x));
            }
        },
        _ => {},
    }
}

/// Merging the first `n` entries without an error keeps their leaves.
pub proof fn lemma_merge_fold_count(es: Seq<Entry>, n: nat, x: Value)
    ensures
        merge_fold(es, n).1.len() == 0 ==> leaf_count(merge_fold(es, n).0, x) == entries_count(
            es,
            n,
            x,
        ),
    decreases weight(es), 3nat, n,
{
    if n > 0 && n <= es.len() {
        lemma_merge_fold_count(es, (n - 1) as nat, x);
        let (done, errors) = merge_fold(es, (n - 1) as nat);
        let e = unindexed(es[n - 1]);
        lemma_merge_place_count(done, e, 0, weight(es), x);
        match merge_place(done, e, 0, weight(es)) {
            Some((merged, more)) => {},
            None => {
                lemma_count_push(done, standing(e), x);
                lemma_standing_count(e, x);
            },
        }
    }
}

/// The merge pass loses no value and makes none, as long as it meets no
/// error: every leaf stands in the merged entries as often as in the
/// entries that went in.
pub proof fn lemma_merge_list_count(es: Seq<Entry>, x: Value)
    ensures
        merge_list(es).1.len() == 0 ==> leaf_count(merge_list(es).0, x) == leaf_count(es, x),
    decreases weight(es), 4nat, 0nat,
{
    lemma_merge_fold_count(es, es.len(), x);
}

/// Normalizing the key of an entry keeps its leaves.
pub proof fn lemma_normalize_entry_count(e: Entry, x: Value)
    ensures
        value_count(normalize_entry(e).value, x) == value_count(e.value, x),
    decreases e.key.key_count(),
{
    if e.key.key_count() > 1 {
        let w = wrap_once(e);
        let inner = w.value->Table_0.entries;
        assert(inner.len() == 1 && inner[0].value == e.value);
        assert(entries_count(inner, 0, x) == 0);
        assert(entries_count(inner, 1, x) == value_count(e.value, x));
        lemma_normalize_entry_count(w, x);
    }
}

/// Normalizing a value keeps its leaves.
pub proof fn lemma_normalize_value_count(v: Value, x: Value)
    ensures
        value_count(normalize_value(v), x) == value_count(v, x),
    decreases v, 0nat,
{
    match v {
        Value::Table(t) => {
            lemma_normalize_upto_count(t.entries, t.entries.len(), x);
        },
        Value::Array(a) => {
            lemma_normalize_items_count(a.items, a.items.len(), x);
        },
        _ => {},
    }
}

/// Normalizing the first `n` items keeps their leaves.
pub proof fn lemma_normalize_items_count(items: Seq<Value>, n: nat, x: Value)
    requires
        n <= items.len(),
    ensures
        normalize_items(items, n).len() == n,
        items_count(normalize_items(items, n), n, x) == items_count(items, n, x),
    decreases items, n,
{
    if n > 0 {
        lemma_normalize_items_count(items, (n - 1) as nat, x);
        lemma_normalize_value_count(items[n - 1], x);
        let before = normalize_items(items, (n - 1) as nat);
        lemma_items_count_prefix(before, normalize_value(items[n - 1]), (n - 1) as nat, x);
    }
}

/// Normalizing the first `n` entries keeps their leaves.
pub proof fn lemma_normalize_upto_count(es: Seq<Entry>, n: nat, x: Value)
    requires
        n <= es.len(),
    ensures
        normalize_upto(es, n).len() == n,
        entries_count(normalize_upto(es, n), n, x) == entries_count(es, n, x),
    decreases es, n,
{
    if n > 0 {
        lemma_normalize_upto_count(es, (n - 1) as nat, x);
        let e = es[n - 1];
        lemma_normalize_value_count(e.value, x);
        let inner = Entry { value: normalize_value(e.value), ..e };
        lemma_normalize_entry_count(inner, x);
        let before = normalize_upto(es, (n - 1) as nat);
        lemma_count_prefix(before, normalize_entry(inner), (n - 1) as nat, x);
    }
}

/// The span pass keeps the leaves of a value.
pub proof fn lemma_span_value_count(
    v: Value,
    next: Option<u32>,
    headers: Seq<Header>,
    end: Option<u32>,
    x: Value,
)
    ensures
        value_count(span_value(v, next, headers, end), x) == value_count(v, x),
    decreases v, 0nat,
{
    match v {
        Value::Table(t) => {
            lemma_span_upto_count(t.entries, t.entries.len(), headers, end, x);
        },
        Value::Array(a) => {
            if a.tables {
                lemma_span_items_count(a.items, a.items.len(), headers, end, x);
            }
        },
        _ => {},
    }
}

/// The span pass keeps the leaves of the first `n` items.
pub proof fn lemma_span_items_count(
    items: Seq<Value>,
    n: nat,
    headers: Seq<Header>,
    end: Option<u32>,
    x: Value,
)
    requires
        n <= items.len(),
    ensures
        span_items(items, n, headers, end).len() == n,
        items_count(span_items(items, n, headers, end), n, x) == items_count(items, n, x),
    decreases items, n,
{
    if n > 0 {
        lemma_span_items_count(items, (n - 1) as nat, headers, end, x);
        match items[n - 1] {
            Value::Table(t) => {
                lemma_span_upto_count(t.entries, t.entries.len(), headers, end, x);
            },
            _ => {},
        }
        let before = span_items(items, (n - 1) as nat, headers, end);
        let out = span_items(items, n, headers, end);
        lemma_items_count_prefix(before, out[n - 1], (n - 1) as nat, x);
        assert(out == before.push(out[n - 1]));
        match items[n - 1] {
            Value::Table(t) => {
                let spanned = out[n - 1]->Table_0;
                assert(spanned.entries == span_upto(t.entries, t.entries.len(), headers, end));
                assert(value_count(out[n - 1], x) == value_count(items[n - 1], x));
            },
            _ => {
                assert(out[n - 1] == items[n - 1]);
            },
        }
    }
}

/// The span pass keeps the leaves of the first `n` entries.
pub proof fn lemma_span_upto_count(
    es: Seq<Entry>,
    n: nat,
    headers: Seq<Header>,
    end: Option<u32>,
    x: Value,
)
    requires
        n <= es.len(),
    ensures
        span_upto(es, n, headers, end).len() == n,
        entries_count(span_upto(es, n, headers, end), n, x) == entries_count(es, n, x),
    decreases es, n,
{
    if n > 0 {
        lemma_span_upto_count(es, (n - 1) as nat, headers, end, x);
        let e = es[n - 1];
        lemma_span_value_count(e.value, entry_end(e, headers, end), headers, end, x);
        let before = span_upto(es, (n - 1) as nat, headers, end);
        let out = span_upto(es, n, headers, end);
        lemma_count_prefix(before, out[n - 1], (n - 1) as nat, x);
    }
}

/// A document that is lifted without any error holds every leaf as often
/// as the flat entries of its source hold it: merging, normalizing and
/// spanning lose no value and make none.
pub proof fn lemma_document_leaves(root: SyntaxElement, x: Value)
    requires
        root_of(root) is Some,
        root_of(root)->Some_0.errors.len() == 0,
    ensures
        leaf_count(root_of(root)->Some_0.entries, x) == leaf_count(lift_spec(root).0, x),
{
    let (flat, errors) = lift_spec(root);
    let merged = merge_list(flat).0;
    lemma_merge_list_count(flat, x);
    lemma_normalize_upto_count(merged, merged.len(), x);
    let shaped = normalize_list(merged);
    lemma_span_upto_count(shaped, shaped.len(), headers_of(root), end_of_file(root), x);
}

} // verus!
