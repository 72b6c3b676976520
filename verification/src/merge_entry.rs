//! Merging one entry into another.

use vstd::prelude::*;
use crate::error::{errors_model, Error, ErrorModel};
use crate::key::{lemma_common_of_part, lemma_common_run};
use crate::lift::errors_wf;
use crate::merge::{
    entries_apart, entries_weight, head, value_apart, entry_weight, merge_entry, value_weight,
    weight, Merged,
};
use crate::merge_into::{entry_below, merge_into_entry};
use crate::node::{clone_entry, entry_wf, Entries, EntryNode, Table, TableNode, ValueNode};

verus! {

/// Tries to merge `new_entry` into `old_entry`, which holds the result.
/// `Ok(true)` where they were merged, `Ok(false)` where they stay apart, and
/// the error where they belong together and cannot be merged.
pub fn merge_entry_nodes(
    old_entry: &mut EntryNode,
    new_entry: &EntryNode,
    errors: &mut Vec<Error>,
) -> (r: Result<bool, Error>)
    requires
        entry_wf(*old(old_entry)),
        entry_wf(*new_entry),
        errors_wf(old(errors)@),
        value_apart(old(old_entry)@.value),
        value_apart(new_entry@.value),
    ensures
        entry_wf(*final(old_entry)),
        errors_wf(final(errors)@),
        value_apart(final(old_entry)@.value),
        head(final(old_entry)@) == head(old(old_entry)@),
        r == Ok::<bool, Error>(false) ==> head(old(old_entry)@) != head(new_entry@),
        match merge_entry(old(old_entry)@, new_entry@) {
            Merged::Done(x, more) => r == Ok::<bool, Error>(true) && final(old_entry)@ == x
                && errors_model(final(errors)@) == errors_model(old(errors)@) + more,
            Merged::Failed(e) => r matches Err(error) && error.wf() && error@ == e
                && final(old_entry)@ == old(old_entry)@
                && errors_model(final(errors)@) == errors_model(old(errors)@),
            Merged::Apart => r == Ok::<bool, Error>(false) && final(old_entry)@ == old(old_entry)@
                && errors_model(final(errors)@) == errors_model(old(errors)@),
        },
        entry_weight(final(old_entry)@) <= entry_weight(old(old_entry)@) + entry_weight(new_entry@),
    decreases entry_weight(old(old_entry)@) + entry_weight(new_entry@), 1nat, 0nat,
{
    let ghost errors0 = errors_model(errors@);
    assert(errors0 + Seq::<ErrorModel>::empty() =~= errors0);
    let ghost mine = old_entry.key@.names();
    let ghost other = new_entry.key@.names();
    proof {
        lemma_common_run(mine, other, 0);
        if new_entry.key@.is_part_of(old_entry.key@) {
            assert(other[0] == mine.subrange(0, other.len() as int)[0]);
        }
    }
    if old_entry.key.is_part_of(&new_entry.key) {
        match merge_into_entry(old_entry, new_entry, errors) {
            None => Ok(true),
            Some(e) => Err(e),
        }
    } else if new_entry.key.is_part_of(&old_entry.key) {
        let mut new_old = clone_entry(new_entry);
        match merge_into_entry(&mut new_old, old_entry, errors) {
            None => {
                *old_entry = new_old;
                assert(entry_weight(old_entry@) <= entry_weight(old(old_entry)@) + entry_weight(
                    new_entry@,
                ));
                Ok(true)
            },
            Some(e) => Err(e),
        }
    } else {
        let count = old_entry.key.common_prefix_count(&new_entry.key);
        if count > 0 {
            let common = old_entry.key.clone().outer(count);
            proof {
                if count == mine.len() {
                    assert(mine =~= other.subrange(0, mine.len() as int));
                }
                if count == other.len() {
                    assert(other =~= mine.subrange(0, other.len() as int));
                }
                assert(common@.names() =~= mine.subrange(0, count as int));
                assert(common@.names() =~= other.subrange(0, count as int));
                lemma_common_of_part(common@, old_entry.key@);
                lemma_common_of_part(common@, new_entry.key@);
            }
            let a = entry_below(old_entry, &common);
            let b = entry_below(new_entry, &common);
            assert(a@.key.key_count() + count == old_entry.key@.key_count());
            assert(b@.key.key_count() + count == new_entry.key@.key_count());
            let mut both: Vec<EntryNode> = Vec::new();
            both.push(a);
            both.push(b);
            let table = TableNode {
                syntax: old_entry.syntax.clone(),
                next_entry: None,
                array: false,
                pseudo: true,
                entries: Entries(both),
            };
            assert(table@.entries =~= seq![a@, b@]);
            proof {
                assert(a@.key.names() =~= mine.skip(count as int));
                assert(b@.key.names() =~= other.skip(count as int));
                assert(head(a@) == mine[count as int]);
                assert(head(b@) == other[count as int]);
                assert(entries_apart(table@.entries));
                assert(common@.names()[0] == mine[0]);
            }
            proof {
                reveal_with_fuel(entries_weight, 3);
            }
            let ghost was = old_entry@;
            old_entry.key = common;
            old_entry.value = ValueNode::Table(table);
            proof {
                assert(weight(table@.entries) == entry_weight(a@) + entry_weight(b@));
                assert(value_weight(old_entry@.value) == weight(table@.entries));
                assert(entry_weight(a@) + count == entry_weight(was));
                assert(entry_weight(b@) + count == entry_weight(new_entry@));
                assert(old_entry@.key.key_count() == count);
            }
            Ok(true)
        } else {
            Ok(false)
        }
    }
}

} // verus!
