//! The merge pass on a list of entries.

use vstd::prelude::*;
use crate::error::{errors_model, Error, ErrorModel};
use crate::lift::errors_wf;
use crate::merge::{
    below_apart, entries_apart, entries_weight, entry_seq, head, value_apart, entry_weight,
    items_weight, lemma_weight_push, lemma_weight_upto, merge_fold, merge_list, merge_place,
    nodes_wf, standing, unindexed, value_weight, weight,
};
use crate::merge_place::place;
use crate::node::{
    array_wf, entries_wf, entry_wf, value_wf, Array, ArrayNode, Entries, Entry, EntryNode, Table,
    Value, ValueNode,
};

verus! {

/// An entry as it stands alone among the merged entries.
fn stand(entry: EntryNode) -> (r: EntryNode)
    requires
        entry_wf(entry),
        value_apart(entry@.value),
    ensures
        entry_wf(r),
        r@ == standing(entry@),
        r@.key == entry@.key,
        value_apart(r@.value),
        entry_weight(r@) == entry_weight(entry@),
{
    let EntryNode { syntax, key, value, next_entry, eq_range } = entry;
    let value = match value {
        ValueNode::Table(t) => {
            if t.array {
                let mut t = t;
                t.array = false;
                let handle = t.syntax.clone();
                let mut items: Vec<ValueNode> = Vec::new();
                items.push(ValueNode::Table(t));
                let a = ArrayNode { syntax: handle, items, next_header_start: None, tables: true };
                proof {
                    assert(a@.items =~= seq![Value::Table(t@)]);
                    assert(a.items@[0] == ValueNode::Table(t));
                    assert(value_wf(a.items@[0]));
                    assert(array_wf(a));
                    reveal_with_fuel(items_weight, 2);
                    assert(items_weight(a@.items, 1) == value_weight(Value::Table(t@)));
                    assert(entries_apart(t@.entries));
                    assert(value_weight(Value::Array(a@)) == value_weight(Value::Table(t@)));
                }
                ValueNode::Array(a)
            } else {
                ValueNode::Table(t)
            }
        },
        v => v,
    };
    EntryNode { syntax, key, value, next_entry, eq_range }
}

/// The merge pass on one list of entries: entries are merged into tables,
/// tables are merged where they can be, and the tables under
/// array-of-tables headers become arrays. An entry that cannot be merged is
/// dropped and leaves an error. The keys of the result may still be dotted.
pub fn merge(entries: &mut Entries, errors: &mut Vec<Error>)
    requires
        entries_wf(*old(entries)),
        errors_wf(old(errors)@),
        below_apart(old(entries)@),
    ensures
        entries_wf(*final(entries)),
        errors_wf(final(errors)@),
        entries_apart(final(entries)@),
        final(entries)@ == merge_list(old(entries)@).0,
        errors_model(final(errors)@) == errors_model(old(errors)@) + merge_list(old(entries)@).1,
        weight(final(entries)@) <= weight(old(entries)@),
    decreases weight(old(entries)@), 4nat, 0nat,
{
    let ghost es = entries@;
    let ghost errors0 = errors_model(errors@);
    let mut list: Vec<EntryNode> = Vec::new();
    core::mem::swap(&mut entries.0, &mut list);
    let mut done: Vec<EntryNode> = Vec::new();
    let ghost all = list@;
    assert(entry_seq(all) =~= es);
    assert(entry_seq(done@) =~= Seq::<Entry>::empty());
    assert(errors0 + Seq::<ErrorModel>::empty() =~= errors0);
    for entry in it: list
        invariant
            it.seq() == all,
            entry_seq(all) == es,
            below_apart(es),
            entries_apart(entry_seq(done@)),
            weight(es) == weight(old(entries)@),
            nodes_wf(all),
            nodes_wf(done@),
            errors_wf(errors@),
            entry_seq(done@) == merge_fold(es, it.index() as nat).0,
            errors_model(errors@) == errors0 + merge_fold(es, it.index() as nat).1,
            weight(entry_seq(done@)) <= entries_weight(es, it.index() as nat),
    {
        let ghost k = it.index() as nat;
        let ghost held = entry_seq(done@);
        let ghost before = errors_model(errors@);
        let ghost raw = entry@;
        assert(raw == es[k as int]);
        assert(value_apart(raw.value));
        let EntryNode { syntax, key, value, next_entry, eq_range } = entry;
        let single = EntryNode { syntax, key: key.with_index(0), value, next_entry, eq_range };
        proof {
            assert(single@ == unindexed(raw));
            assert(entry_weight(single@) == entry_weight(raw));
            lemma_weight_upto(es, k + 1, es.len());
            assert(entries_weight(es, k + 1) == entries_weight(es, k) + entry_weight(raw));
        }
        let placed = place(&mut done, &single, errors, Ghost(weight(es)));
        if !placed {
            let alone = stand(single);
            done.push(alone);
            proof {
                assert(entry_seq(done@) =~= held.push(alone@));
                lemma_weight_push(held, alone@);
                assert(errors_model(errors@) == before);
                assert(head(alone@) == head(single@));
                let now = entry_seq(done@);
                assert forall|i: int, j: int| 0 <= i < j < now.len() implies head(
                    #[trigger] now[i],
                ) != head(#[trigger] now[j]) by {
                    assert(now[i] == held[i]);
                    if j < held.len() {
                        assert(now[j] == held[j]);
                    }
                }
                assert forall|i: int| 0 <= i < now.len() implies value_apart(
                    (#[trigger] now[i]).value,
                ) by {
                    if i < held.len() {
                        assert(now[i] == held[i]);
                    }
                }
            }
        } else {
            proof {
                let more = merge_place(held, single@, 0, weight(es))->Some_0.1;
                assert(errors0 + (merge_fold(es, k).1 + more) =~= before + more);
            }
        }
        assert(entry_seq(done@) == merge_fold(es, k + 1).0);
        assert(errors_model(errors@) == errors0 + merge_fold(es, k + 1).1);
    }
    entries.0 = done;
    assert(entries@ =~= entry_seq(done@));
}

} // verus!
