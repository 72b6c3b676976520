//! Finding, among the merged entries, the one that takes a new entry in.

use vstd::prelude::*;
use crate::error::{errors_model, Error};
use crate::lift::errors_wf;
use crate::merge::{
    entries_apart, entry_seq, entry_weight, head, value_apart, lemma_weight_at,
    lemma_weight_update, merge_entry, merge_place, nodes_wf, weight, Merged,
};
use crate::merge_entry::merge_entry_nodes;
use crate::node::{entry_wf, EntryNode};

verus! {

/// Tries to merge `entry` into the entries of `done`, one after the other,
/// up to the first that takes it or fails. Whether one did.
pub(crate) fn place(
    done: &mut Vec<EntryNode>,
    entry: &EntryNode,
    errors: &mut Vec<Error>,
    Ghost(budget): Ghost<nat>,
) -> (placed: bool)
    requires
        nodes_wf(old(done)@),
        entry_wf(*entry),
        errors_wf(old(errors)@),
        weight(entry_seq(old(done)@)) + entry_weight(entry@) <= budget,
        entries_apart(entry_seq(old(done)@)),
        value_apart(entry@.value),
    ensures
        nodes_wf(final(done)@),
        errors_wf(final(errors)@),
        entries_apart(entry_seq(final(done)@)),
        !placed ==> forall|i: int|
            0 <= i < old(done)@.len() ==> head(#[trigger] entry_seq(old(done)@)[i]) != head(entry@),
        match merge_place(entry_seq(old(done)@), entry@, 0, budget) {
            Some((merged, more)) => placed && entry_seq(final(done)@) == merged
                && errors_model(final(errors)@) == errors_model(old(errors)@) + more,
            None => !placed && entry_seq(final(done)@) == entry_seq(old(done)@)
                && errors_model(final(errors)@) == errors_model(old(errors)@),
        },
        weight(entry_seq(final(done)@)) <= weight(entry_seq(old(done)@)) + (if placed {
            entry_weight(entry@)
        } else {
            0
        }),
    decreases budget, 2nat, 0nat,
{
    let ghost done0 = entry_seq(done@);
    let ghost errors0 = errors_model(errors@);
    let mut i: usize = 0;
    while i < done.len()
        invariant
            nodes_wf(done@),
            entry_wf(*entry),
            errors_wf(errors@),
            i <= done.len(),
            done0 == entry_seq(old(done)@),
            errors0 == errors_model(old(errors)@),
            entries_apart(done0),
            value_apart(entry@.value),
            forall|j: int| 0 <= j < i ==> head(#[trigger] done0[j]) != head(entry@),
            entry_seq(done@) == done0,
            errors_model(errors@) == errors0,
            weight(done0) + entry_weight(entry@) <= budget,
            merge_place(done0, entry@, 0, budget) == merge_place(done0, entry@, i as nat, budget),
        decreases done.len() - i,
    {
        proof {
            lemma_weight_at(done0, i as int);
        }
        let ghost held = done@;
        let ghost tried = merge_entry(done0[i as int], entry@);
        assert(held[i as int]@ == done0[i as int]);
        assert(value_apart(done0[i as int].value));
        assert(merge_place(done0, entry@, i as nat, budget) == match tried {
            Merged::Done(x, more) => Some((done0.update(i as int, x), more)),
            Merged::Failed(error) => Some((done0, seq![error])),
            Merged::Apart => merge_place(done0, entry@, (i + 1) as nat, budget),
        });
        let r = merge_entry_nodes(&mut done[i], entry, errors);
        proof {
            assert(done@ == held.update(i as int, done@[i as int]));
            assert(entry_seq(done@) =~= done0.update(i as int, done@[i as int]@));
            lemma_weight_update(done0, i as int, done@[i as int]@);
            let now = entry_seq(done@);
            assert forall|a: int, b: int| 0 <= a < b < now.len() implies head(#[trigger] now[a])
                != head(#[trigger] now[b]) by {
                assert(head(done0[a]) != head(done0[b]));
                assert(head(now[a]) == head(done0[a]));
                assert(head(now[b]) == head(done0[b]));
            }
            assert forall|a: int| 0 <= a < now.len() implies value_apart(
                (#[trigger] now[a]).value,
            ) by {
                if a != i {
                    assert(now[a] == done0[a]);
                }
            }
            assert forall|j: int| 0 <= j < done.len() implies entry_wf(#[trigger] done@[j]) by {
                if j != i {
                    assert(done@[j] == held[j]);
                }
            }
        }
        match r {
            Ok(true) => {
                assert(tried is Done);
                return true;
            },
            Ok(false) => {
                assert(tried is Apart);
                assert(entry_seq(done@) =~= done0);
            },
            Err(e) => {
                assert(tried is Failed);
                assert(entry_seq(done@) =~= done0);
                let ghost pushed = errors@;
                errors.push(e);
                assert(errors_model(errors@) =~= errors_model(pushed) + seq![e@]);
                return true;
            },
        }
        i += 1;
    }
    false
}

} // verus!
