//! The merge pass: the flat entries become nested tables and arrays of
//! tables.

use vstd::prelude::*;
use crate::error::ErrorModel;
use crate::key::Key;
use crate::node::{entry_wf, Array, Entry, EntryNode, Table, Value};
use crate::syntax::SyntaxKind;

verus! {

/// The number of key segments in the first `n` of `es` and below them.
pub open spec fn entries_weight(es: Seq<Entry>, n: nat) -> nat
    decreases es, n,
{
    if n == 0 || n > es.len() {
        0
    } else {
        entries_weight(es, (n - 1) as nat) + entry_weight(es[n - 1])
    }
}

/// The number of key segments in the first `n` of `items` and below them.
pub open spec fn items_weight(items: Seq<Value>, n: nat) -> nat
    decreases items, n,
{
    if n == 0 || n > items.len() {
        0
    } else {
        items_weight(items, (n - 1) as nat) + value_weight(items[n - 1])
    }
}

/// The number of key segments below a value.
pub open spec fn value_weight(v: Value) -> nat
    decreases v,
{
    match v {
        Value::Table(t) => entries_weight(t.entries, t.entries.len()),
        Value::Array(a) => items_weight(a.items, a.items.len()),
        _ => 0,
    }
}

/// The number of key segments of an entry and below it.
pub open spec fn entry_weight(e: Entry) -> nat
    decreases e,
{
    e.key.key_count() + value_weight(e.value)
}

/// The number of key segments in `es` and below.
pub open spec fn weight(es: Seq<Entry>) -> nat {
    entries_weight(es, es.len())
}

/// One more entry at the end changes no weight among the entries before it.
pub proof fn lemma_weight_prefix(es: Seq<Entry>, x: Entry, n: nat)
    requires
        n <= es.len(),
    ensures
        entries_weight(es.push(x), n) == entries_weight(es, n),
    decreases n,
{
    if n > 0 {
        lemma_weight_prefix(es, x, (n - 1) as nat);
    }
}

/// One more entry adds its own weight.
pub proof fn lemma_weight_push(es: Seq<Entry>, x: Entry)
    ensures
        weight(es.push(x)) == weight(es) + entry_weight(x),
{
    lemma_weight_prefix(es, x, es.len());
}

/// What came of trying to merge one entry into another.
pub ghost enum Merged {
    /// The entries were merged into the first field; the second holds the
    /// errors that were met below.
    Done(Entry, Seq<ErrorModel>),
    /// The entries belong together and cannot be merged.
    Failed(ErrorModel),
    /// The entries have nothing to do with each other.
    Apart,
}

/// Whether a table was written inline.
pub open spec fn is_inline(t: Table) -> bool {
    t.syntax.kind == SyntaxKind::INLINE_TABLE
}

/// The first segment of the key of an entry.
pub open spec fn head(e: Entry) -> Seq<char> {
    e.key.names()[0]
}

/// No two of the entries share the first segment of their keys.
pub open spec fn heads_apart(es: Seq<Entry>) -> bool {
    forall|i: int, j: int| 0 <= i < j < es.len() ==> head(#[trigger] es[i]) != head(#[trigger] es[j])
}

/// Whether a table is left as it was written: an inline table, whose
/// entries are not merged.
pub open spec fn as_written(t: Table) -> bool {
    is_inline(t) && !t.array && !t.pseudo
}

/// In every table in `v` and below it, but for the inline tables, no two
/// entries share the first segment of their keys.
pub open spec fn value_apart(v: Value) -> bool
    decreases v, 0nat,
{
    match v {
        Value::Table(t) => as_written(t) || entries_apart(t.entries),
        Value::Array(a) => a.tables ==> forall|i: int|
            0 <= i < a.items.len() ==> (#[trigger] a.items[i] matches Value::Table(t)
                ==> entries_apart(t.entries)),
        _ => true,
    }
}

/// In every table below `es`, but for the inline tables, no two entries
/// share the first segment of their keys.
pub open spec fn below_apart(es: Seq<Entry>) -> bool
    decreases es, 0nat,
{
    forall|i: int| 0 <= i < es.len() ==> value_apart((#[trigger] es[i]).value)
}

/// In `es` and in every table below, but for the inline tables, no two
/// entries share the first segment of their keys.
pub open spec fn entries_apart(es: Seq<Entry>) -> bool
    decreases es, 1nat,
{
    heads_apart(es) && below_apart(es)
}

/// The entry under the rest of its key, once the segments that it shares
/// with `outer` are taken away.
pub open spec fn below(e: Entry, outer: Key) -> Entry {
    Entry { key: e.key.without_prefix(outer), ..e }
}

/// The table made from two entries that share their first `count` segments:
/// it stands under those segments and holds both under the rest of their
/// keys.
pub open spec fn pseudo_table(old: Entry, new: Entry, count: nat) -> Entry {
    let common = old.key.outer(count);
    Entry {
        key: common,
        value: Value::Table(
            Table {
                syntax: old.syntax,
                array: false,
                pseudo: true,
                next_entry: None,
                entries: seq![below(old, common), below(new, common)],
            },
        ),
        ..old
    }
}

/// An entry as it stands alone among the merged entries: a table under an
/// array-of-tables header becomes an array of tables that holds it.
pub open spec fn standing(e: Entry) -> Entry {
    match e.value {
        Value::Table(t) => if t.array {
            Entry {
                value: Value::Array(
                    Array {
                        syntax: t.syntax,
                        tables: true,
                        items: seq![Value::Table(Table { array: false, ..t })],
                        next_header_start: None,
                    },
                ),
                ..e
            }
        } else {
            e
        },
        _ => e,
    }
}

/// An entry with the key index 0.
pub open spec fn unindexed(e: Entry) -> Entry {
    Entry { key: e.key.with_index(0), ..e }
}

/// Whether `new` is one more table of the array of tables `old`: it has the
/// same key and comes from an array-of-tables header.
pub open spec fn joins_array(old: Entry, new: Entry) -> bool {
    new.value matches Value::Table(t) && old.key.eq_keys(new.key) && t.array
}

/// Merges `new`, whose key begins with the key of `old`, into `old`.
///
/// A table takes the entry in under the rest of its key, and its entries
/// are merged again; an inline table cannot be changed. An array of tables
/// takes in a table of the same key from an array-of-tables header as one
/// more item; anything else goes into its last table. Any other value
/// cannot hold an entry.
pub open spec fn merge_into(old: Entry, new: Entry) -> Merged
    decreases entry_weight(old) + entry_weight(new), 0nat, 0nat,
{
    if old.key.key_count() == 0 {
        Merged::Apart
    } else {
        match old.value {
            Value::Table(t) => if is_inline(t) {
                Merged::Failed(ErrorModel::InlineTable { target: old.key, key: new.key })
            } else {
                proof {
                    lemma_weight_push(t.entries, below(new, old.key));
                }
                let (entries, errors) = merge_list(t.entries.push(below(new, old.key)));
                Merged::Done(Entry { value: Value::Table(Table { entries, ..t }), ..old }, errors)
            },
            Value::Array(a) => if !a.tables {
                Merged::Failed(ErrorModel::ExpectedTableArray { target: old.key, key: new.key })
            } else if joins_array(old, new) {
                Merged::Done(
                    Entry {
                        value: Value::Array(
                            Array {
                                items: a.items.push(
                                    Value::Table(Table { array: false, ..new.value->Table_0 }),
                                ),
                                ..a
                            },
                        ),
                        ..old
                    },
                    Seq::empty(),
                )
            } else if a.items.len() > 0 && a.items.last() is Table {
                let last = a.items.last()->Table_0;
                proof {
                    lemma_weight_push(last.entries, below(new, old.key));
                    lemma_item_weight(a.items, a.items.len() - 1);
                }
                let (entries, errors) = merge_list(last.entries.push(below(new, old.key)));
                Merged::Done(
                    Entry {
                        value: Value::Array(
                            Array {
                                items: a.items.update(
                                    a.items.len() - 1,
                                    Value::Table(Table { entries, ..last }),
                                ),
                                ..a
                            },
                        ),
                        ..old
                    },
                    errors,
                )
            } else {
                Merged::Failed(ErrorModel::ExpectedTableArray { target: old.key, key: new.key })
            },
            _ => Merged::Failed(ErrorModel::ExpectedTable { target: old.key, key: new.key }),
        }
    }
}

/// Tries to merge `new` into `old`.
///
/// Where the key of one is the beginning of the key of the other, the
/// longer goes into the shorter. Where they only share their first
/// segments, a table is made that holds both. Otherwise they stay apart.
pub open spec fn merge_entry(old: Entry, new: Entry) -> Merged
    decreases entry_weight(old) + entry_weight(new), 1nat, 0nat,
{
    if old.key.is_part_of(new.key) {
        merge_into(old, new)
    } else if new.key.is_part_of(old.key) {
        merge_into(new, old)
    } else {
        let count = old.key.common_prefix_count(new.key);
        if count > 0 {
            Merged::Done(pseudo_table(old, new, count), Seq::empty())
        } else {
            Merged::Apart
        }
    }
}

/// Tries to merge `e` into the entries `done[i..]`, one after the other,
/// up to the first that takes it or fails: the entries after that, with
/// the errors that were met. `None` where `e` stays apart from all of them.
///
/// `budget` bounds the number of key segments that may be merged at once. It
/// is the weight of the list that is being merged, and no step goes beyond
/// it (`merge` proves that); it is what shows that merging comes to an end.
pub open spec fn merge_place(done: Seq<Entry>, e: Entry, i: nat, budget: nat) -> Option<
    (Seq<Entry>, Seq<ErrorModel>),
>
    decreases budget, 2nat, done.len() - i,
{
    if i >= done.len() {
        None
    } else if entry_weight(done[i as int]) + entry_weight(e) > budget {
        merge_place(done, e, i + 1, budget)
    } else {
        match merge_entry(done[i as int], e) {
            Merged::Done(x, errors) => Some((done.update(i as int, x), errors)),
            Merged::Failed(error) => Some((done, seq![error])),
            Merged::Apart => merge_place(done, e, i + 1, budget),
        }
    }
}

/// The first `n` entries of `es`, merged, with the errors that were met.
pub open spec fn merge_fold(es: Seq<Entry>, n: nat) -> (Seq<Entry>, Seq<ErrorModel>)
    decreases weight(es), 3nat, n,
{
    if n == 0 || n > es.len() {
        (Seq::empty(), Seq::empty())
    } else {
        let (done, errors) = merge_fold(es, (n - 1) as nat);
        let e = unindexed(es[n - 1]);
        match merge_place(done, e, 0, weight(es)) {
            Some((merged, more)) => (merged, errors + more),
            None => (done.push(standing(e)), errors),
        }
    }
}

/// The merge pass on one list of entries: each entry in its turn is merged
/// into the first of the entries before it that takes it, or stands alone
/// after them. An entry that fails to merge is dropped and leaves an error.
pub open spec fn merge_list(es: Seq<Entry>) -> (Seq<Entry>, Seq<ErrorModel>)
    decreases weight(es), 4nat, 0nat,
{
    merge_fold(es, es.len())
}

/// No item weighs more than the items that hold it.
pub proof fn lemma_item_weight(items: Seq<Value>, i: int)
    requires
        0 <= i < items.len(),
    ensures
        value_weight(items[i]) <= items_weight(items, items.len()),
{
    lemma_item_weight_upto(items, i, items.len());
}

/// No item among the first `n` weighs more than the first `n` together.
pub proof fn lemma_item_weight_upto(items: Seq<Value>, i: int, n: nat)
    requires
        0 <= i < n <= items.len(),
    ensures
        value_weight(items[i]) <= items_weight(items, n),
    decreases n,
{
    if i < n - 1 {
        lemma_item_weight_upto(items, i, (n - 1) as nat);
    }
}

/// The first `k` entries weigh no more than the first `n`, for `k <= n`.
pub proof fn lemma_weight_upto(es: Seq<Entry>, k: nat, n: nat)
    requires
        k <= n <= es.len(),
    ensures
        entries_weight(es, k) <= entries_weight(es, n),
    decreases n,
{
    if k < n {
        lemma_weight_upto(es, k, (n - 1) as nat);
    }
}

/// No entry weighs more than the list that holds it.
pub proof fn lemma_weight_at(es: Seq<Entry>, i: int)
    requires
        0 <= i < es.len(),
    ensures
        entry_weight(es[i]) <= weight(es),
{
    lemma_weight_upto(es, (i + 1) as nat, es.len());
}

/// Another entry in the place of one changes the weight by the difference
/// of the two, where the place lies among the first `n`.
pub proof fn lemma_weight_update_upto(es: Seq<Entry>, i: int, x: Entry, n: nat)
    requires
        0 <= i < es.len(),
        n <= es.len(),
    ensures
        entries_weight(es.update(i, x), n) + (if i < n {
            entry_weight(es[i])
        } else {
            0
        }) == entries_weight(es, n) + (if i < n {
            entry_weight(x)
        } else {
            0
        }),
    decreases n,
{
    if n > 0 {
        lemma_weight_update_upto(es, i, x, (n - 1) as nat);
    }
}

/// Putting another entry in the place of one changes the weight by the
/// difference of the two.
pub proof fn lemma_weight_update(es: Seq<Entry>, i: int, x: Entry)
    requires
        0 <= i < es.len(),
    ensures
        weight(es.update(i, x)) + entry_weight(es[i]) == weight(es) + entry_weight(x),
{
    lemma_weight_update_upto(es, i, x, es.len());
}

/// One more item at the end changes no weight among the items before it.
pub proof fn lemma_items_prefix(items: Seq<Value>, x: Value, n: nat)
    requires
        n <= items.len(),
    ensures
        items_weight(items.push(x), n) == items_weight(items, n),
    decreases n,
{
    if n > 0 {
        lemma_items_prefix(items, x, (n - 1) as nat);
    }
}

/// Another item in the place of the last changes the weight by the
/// difference of the two.
pub proof fn lemma_items_update_last(items: Seq<Value>, x: Value)
    requires
        items.len() > 0,
    ensures
        items_weight(items.update(items.len() - 1, x), items.len()) + value_weight(items.last())
            == items_weight(items, items.len()) + value_weight(x),
{
    let head = items.drop_last();
    assert(items =~= head.push(items.last()));
    assert(items.update(items.len() - 1, x) =~= head.push(x));
    lemma_items_prefix(head, items.last(), head.len());
    lemma_items_prefix(head, x, head.len());
}

/// The views of a list of entries.
pub open spec fn entry_seq(v: Seq<EntryNode>) -> Seq<Entry> {
    v.map_values(|e: EntryNode| e@)
}

/// Every key in the entries and below them has a proper window of
/// identifiers, and every array of tables holds tables only.
pub open spec fn nodes_wf(v: Seq<EntryNode>) -> bool {
    forall|i: int| 0 <= i < v.len() ==> entry_wf(#[trigger] v[i])
}

} // verus!
