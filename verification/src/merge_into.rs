//! Merging an entry into the table or array of tables that its key leads
//! into.

use vstd::prelude::*;
use crate::error::{errors_model, Error, ErrorModel};
use crate::key::KeyNode;
use crate::lift::errors_wf;
use crate::merge::{
    as_written, below, below_apart, entries_apart, entry_weight, items_weight, lemma_item_weight,
    lemma_items_prefix, lemma_items_update_last, lemma_weight_push, merge_into, merge_list,
    value_apart, value_weight, weight, Merged,
};
use crate::merge_list::merge;
use crate::node::{
    array_wf, clone_entry, clone_value, entry_wf, table_wf, value_wf, Array, ArrayNode, EntryNode,
    Table, TableNode, Value, ValueNode,
};
use crate::syntax::SyntaxKind;

verus! {

/// An entry like `new` under the rest of its key, once the segments that it
/// shares with `outer` are taken away.
pub(crate) fn entry_below(new: &EntryNode, outer: &KeyNode) -> (r: EntryNode)
    requires
        entry_wf(*new),
        outer.wf(),
    ensures
        entry_wf(r),
        r@ == below(new@, outer@),
{
    let EntryNode { syntax, key, value, next_entry, eq_range } = clone_entry(new);
    EntryNode { syntax, key: key.without_prefix(outer), value, next_entry, eq_range }
}

/// Takes one more entry into a table and merges its entries again.
fn grow_table(t: TableNode, to_insert: EntryNode, errors: &mut Vec<Error>) -> (r: TableNode)
    requires
        table_wf(t),
        entry_wf(to_insert),
        errors_wf(old(errors)@),
        below_apart(t@.entries),
        value_apart(to_insert@.value),
    ensures
        table_wf(r),
        errors_wf(final(errors)@),
        entries_apart(r@.entries),
        r@ == (Table { entries: merge_list(t@.entries.push(to_insert@)).0, ..t@ }),
        r.array == t.array,
        errors_model(final(errors)@) == errors_model(old(errors)@) + merge_list(
            t@.entries.push(to_insert@),
        ).1,
        weight(r@.entries) <= weight(t@.entries) + entry_weight(to_insert@),
    decreases weight(t@.entries) + entry_weight(to_insert@), 5nat, 0nat,
{
    let mut t = t;
    let ghost held = t@.entries;
    let ghost nodes = t.entries.0@;
    t.entries.0.push(to_insert);
    proof {
        assert(t.entries@ =~= held.push(to_insert@));
        lemma_weight_push(held, to_insert@);
        assert forall|i: int| 0 <= i < t.entries@.len() implies value_apart(
            (#[trigger] t.entries@[i]).value,
        ) by {
            if i < held.len() {
                assert(t.entries@[i] == held[i]);
            }
        }
        assert forall|i: int| 0 <= i < t.entries.0.len() implies entry_wf(
            #[trigger] t.entries.0[i],
        ) by {
            if i < nodes.len() {
                assert(t.entries.0[i] == nodes[i]);
            }
        }
    }
    merge(&mut t.entries, errors);
    t
}

/// Takes one more entry into the last table of an array of tables.
fn grow_last(a: ArrayNode, to_insert: EntryNode, errors: &mut Vec<Error>) -> (r: ArrayNode)
    requires
        array_wf(a),
        a.tables,
        entry_wf(to_insert),
        errors_wf(old(errors)@),
        value_apart(Value::Array(a@)),
        value_apart(to_insert@.value),
    ensures
        array_wf(r),
        errors_wf(final(errors)@),
        value_apart(Value::Array(r@)),
        a@.items.len() > 0,
        a@.items.last() is Table,
        r@ == (Array {
            items: a@.items.update(
                a@.items.len() - 1,
                Value::Table(
                    Table {
                        entries: merge_list(
                            a@.items.last()->Table_0.entries.push(to_insert@),
                        ).0,
                        ..a@.items.last()->Table_0
                    },
                ),
            ),
            ..a@
        }),
        errors_model(final(errors)@) == errors_model(old(errors)@) + merge_list(
            a@.items.last()->Table_0.entries.push(to_insert@),
        ).1,
        items_weight(r@.items, r@.items.len()) <= items_weight(a@.items, a@.items.len())
            + entry_weight(to_insert@),
    decreases items_weight(a@.items, a@.items.len()) + entry_weight(to_insert@), 6nat, 0nat,
{
    let mut a = a;
    let ghost items = a@.items;
    let ghost nodes = a.items@;
    let last = a.items.len() - 1;
    assert(nodes[last as int] is Table);
    assert(items[last as int] == nodes[last as int]@);
    let mut item = ValueNode::Empty;
    core::mem::swap(&mut a.items[last], &mut item);
    match item {
        ValueNode::Table(t) => {
            proof {
                lemma_item_weight(items, last as int);
                assert(value_wf(nodes[last as int]));
                assert(items[last as int] matches Value::Table(x) ==> entries_apart(x.entries));
            }
            let grown = grow_table(t, to_insert, errors);
            a.items.set(last, ValueNode::Table(grown));
            proof {
                assert(a@.items =~= items.update(last as int, Value::Table(grown@)));
                lemma_items_update_last(items, Value::Table(grown@));
                assert forall|i: int| 0 <= i < a@.items.len() implies (
                #[trigger] a@.items[i] matches Value::Table(x) ==> entries_apart(x.entries)) by {
                    if i < last {
                        assert(a@.items[i] == items[i]);
                    }
                }
                assert forall|i: int| 0 <= i < a.items.len() implies value_wf(
                    #[trigger] a.items[i],
                ) && (a.items[i] matches ValueNode::Table(x) && !x.array) by {
                    if i < last {
                        assert(a.items[i] == nodes[i]);
                    }
                }
            }
            a
        },
        _ => {
            proof {
                assert(false);
            }
            a
        },
    }
}

/// Takes a table from an array-of-tables header into an array of tables as
/// one more item.
fn push_table(a: ArrayNode, new_entry: &EntryNode) -> (r: ArrayNode)
    requires
        array_wf(a),
        a.tables,
        entry_wf(*new_entry),
        new_entry.value is Table,
        value_apart(Value::Array(a@)),
        entries_apart(new_entry@.value->Table_0.entries),
    ensures
        array_wf(r),
        value_apart(Value::Array(r@)),
        r@ == (Array {
            items: a@.items.push(
                Value::Table(Table { array: false, ..new_entry@.value->Table_0 }),
            ),
            ..a@
        }),
        items_weight(r@.items, r@.items.len()) == items_weight(a@.items, a@.items.len())
            + value_weight(new_entry@.value),
{
    let mut a = a;
    let ghost items = a@.items;
    let ghost nodes = a.items@;
    match clone_value(&new_entry.value) {
        ValueNode::Table(t) => {
            let mut t = t;
            t.array = false;
            a.items.push(ValueNode::Table(t));
            proof {
                assert(a@.items =~= items.push(Value::Table(t@)));
                lemma_items_prefix(items, Value::Table(t@), items.len());
                assert(t@.entries == new_entry@.value->Table_0.entries);
                assert(value_weight(Value::Table(t@)) == value_weight(new_entry@.value));
                assert forall|i: int| 0 <= i < a@.items.len() implies (
                #[trigger] a@.items[i] matches Value::Table(x) ==> entries_apart(x.entries)) by {
                    if i < items.len() {
                        assert(a@.items[i] == items[i]);
                    }
                }
                assert forall|i: int| 0 <= i < a.items.len() implies value_wf(
                    #[trigger] a.items[i],
                ) && (a.items[i] matches ValueNode::Table(x) && !x.array) by {
                    if i < nodes.len() {
                        assert(a.items[i] == nodes[i]);
                    }
                }
            }
            a
        },
        _ => {
            proof {
                assert(false);
            }
            a
        },
    }
}

/// Merges `new_entry`, whose key begins with the key of `old_entry`, into
/// `old_entry`. An entry that fails to merge leaves `old_entry` as it was.
pub(crate) fn merge_into_entry(
    old_entry: &mut EntryNode,
    new_entry: &EntryNode,
    errors: &mut Vec<Error>,
) -> (r: Option<Error>)
    requires
        entry_wf(*old(old_entry)),
        entry_wf(*new_entry),
        errors_wf(old(errors)@),
        value_apart(old(old_entry)@.value),
        value_apart(new_entry@.value),
    ensures
        entry_wf(*final(old_entry)),
        errors_wf(final(errors)@),
        value_apart(final(old_entry)@.value),
        final(old_entry)@.key == old(old_entry)@.key,
        match merge_into(old(old_entry)@, new_entry@) {
            Merged::Done(x, more) => r is None && final(old_entry)@ == x
                && errors_model(final(errors)@) == errors_model(old(errors)@) + more,
            Merged::Failed(e) => r matches Some(error) && error.wf() && error@ == e
                && final(old_entry)@ == old(old_entry)@
                && errors_model(final(errors)@) == errors_model(old(errors)@),
            Merged::Apart => false,
        },
        entry_weight(final(old_entry)@) <= entry_weight(old(old_entry)@) + entry_weight(
            new_entry@,
        ),
    decreases entry_weight(old(old_entry)@) + entry_weight(new_entry@), 0nat, 0nat,
{
    let ghost errors0 = errors_model(errors@);
    assert(errors0 + Seq::<ErrorModel>::empty() =~= errors0);
    let mut value = ValueNode::Empty;
    core::mem::swap(&mut old_entry.value, &mut value);
    match value {
        ValueNode::Table(t) => {
            let inline = match t.syntax.kind {
                SyntaxKind::INLINE_TABLE => true,
                _ => false,
            };
            if inline {
                old_entry.value = ValueNode::Table(t);
                return Some(
                    Error::InlineTable { target: old_entry.key.clone(), key: new_entry.key.clone() },
                );
            }
            let to_insert = entry_below(new_entry, &old_entry.key);
            let grown = grow_table(t, to_insert, errors);
            old_entry.value = ValueNode::Table(grown);
            None
        },
        ValueNode::Array(a) => {
            if !a.tables {
                old_entry.value = ValueNode::Array(a);
                return Some(
                    Error::ExpectedTableArray {
                        target: old_entry.key.clone(),
                        key: new_entry.key.clone(),
                    },
                );
            }
            let joins = match &new_entry.value {
                ValueNode::Table(t) => t.array && old_entry.key.eq_keys(&new_entry.key),
                _ => false,
            };
            if joins {
                assert(!as_written(new_entry@.value->Table_0));
                old_entry.value = ValueNode::Array(push_table(a, new_entry));
                return None;
            }
            let to_insert = entry_below(new_entry, &old_entry.key);
            let grown = grow_last(a, to_insert, errors);
            old_entry.value = ValueNode::Array(grown);
            None
        },
        other => {
            old_entry.value = other;
            Some(Error::ExpectedTable { target: old_entry.key.clone(), key: new_entry.key.clone() })
        },
    }
}

} // verus!
