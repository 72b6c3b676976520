//! The values of a document under their full keys, and what the passes do
//! to them.

use vstd::prelude::*;
use crate::key::{lemma_common_of_part, lemma_common_run};
use crate::lift::lift_spec;
use crate::merge::{
    below, entry_weight, is_inline, joins_array, lemma_item_weight, lemma_weight_push,
    merge_entry, merge_fold, merge_into, merge_list, merge_place, pseudo_table, standing,
    unindexed, weight, Merged,
};
use crate::node::{Entry, Table, Value};
use crate::normalize::{
    normalize_entry, normalize_items, normalize_list, normalize_upto, normalize_value, wrap_once,
};
use crate::root::{end_of_file, root_of};
use crate::spans::{entry_end, headers_of, span_items, span_upto, span_value, Header};
use crate::syntax::SyntaxElement;

verus! {

/// A leaf of a document under its full key: the segments of the keys that
/// lead to it, and the value.
pub type Pair = (Seq<Seq<char>>, Value);

/// How often the pair `want` stands in `v`, which stands under `path`: how
/// often its value stands there as a leaf under its key.
pub open spec fn value_pairs(v: Value, path: Seq<Seq<char>>, want: Pair) -> nat
    decreases v, 0nat,
{
    match v {
        Value::Table(t) => entries_pairs(t.entries, t.entries.len(), path, want),
        Value::Array(a) => items_pairs(a.items, a.items.len(), path, want),
        _ => if (path, v) == want {
            1
        } else {
            0
        },
    }
}

/// How often `want` stands in the first `n` of `items`, which stand under
/// `path`.
pub open spec fn items_pairs(items: Seq<Value>, n: nat, path: Seq<Seq<char>>, want: Pair) -> nat
    decreases items, n,
{
    if n == 0 || n > items.len() {
        0
    } else {
        items_pairs(items, (n - 1) as nat, path, want) + value_pairs(items[n - 1], path, want)
    }
}

/// How often `want` stands in the first `n` of `es`, each under `path` and
/// its own key.
pub open spec fn entries_pairs(es: Seq<Entry>, n: nat, path: Seq<Seq<char>>, want: Pair) -> nat
    decreases es, n,
{
    if n == 0 || n > es.len() {
        0
    } else {
        entries_pairs(es, (n - 1) as nat, path, want) + entry_pairs(es[n - 1], path, want)
    }
}

/// How often `want` stands in the entry `e`, which stands under `path`.
pub open spec fn entry_pairs(e: Entry, path: Seq<Seq<char>>, want: Pair) -> nat
    decreases e, 1nat,
{
    value_pairs(e.value, path + e.key.names(), want)
}

/// How often the pair `want` stands in the entries `es`, which stand under
/// `path`.
pub open spec fn pair_count(es: Seq<Entry>, path: Seq<Seq<char>>, want: Pair) -> nat {
    entries_pairs(es, es.len(), path, want)
}

/// Whether merging `new` into `old` nests it under a longer key: the key of
/// `new` has more segments than the key of `old`, and so on below.
pub open spec fn proper_into(old: Entry, new: Entry) -> bool
    decreases entry_weight(old) + entry_weight(new), 0nat, 0nat,
{
    if old.key.key_count() == 0 {
        true
    } else {
        match old.value {
            Value::Table(t) => is_inline(t) || {
                proof {
                    lemma_weight_push(t.entries, below(new, old.key));
                }
                old.key.key_count() < new.key.key_count() && proper_list(
                    t.entries.push(below(new, old.key)),
                )
            },
            Value::Array(a) => if !a.tables || joins_array(old, new) {
                true
            } else if a.items.len() > 0 && a.items.last() is Table {
                let last = a.items.last()->Table_0;
                proof {
                    lemma_weight_push(last.entries, below(new, old.key));
                    lemma_item_weight(a.items, a.items.len() - 1);
                }
                old.key.key_count() < new.key.key_count() && proper_list(
                    last.entries.push(below(new, old.key)),
                )
            } else {
                true
            },
            _ => true,
        }
    }
}

/// Whether trying to merge `new` into `old` nests no entry under a key as
/// long as its own.
pub open spec fn proper_entry(old: Entry, new: Entry) -> bool
    decreases entry_weight(old) + entry_weight(new), 1nat, 0nat,
{
    if old.key.is_part_of(new.key) {
        proper_into(old, new)
    } else if new.key.is_part_of(old.key) {
        proper_into(new, old)
    } else {
        true
    }
}

/// Whether taking `e` into the entries `done[i..]` nests no entry under a
/// key as long as its own.
pub open spec fn proper_place(done: Seq<Entry>, e: Entry, i: nat, budget: nat) -> bool
    decreases budget, 2nat, done.len() - i,
{
    if i >= done.len() {
        true
    } else if entry_weight(done[i as int]) + entry_weight(e) > budget {
        proper_place(done, e, i + 1, budget)
    } else {
        proper_entry(done[i as int], e) && (merge_entry(done[i as int], e) is Apart
            ==> proper_place(done, e, i + 1, budget))
    }
}

/// Whether merging the first `n` of `es` nests no entry under a key as
/// long as its own.
pub open spec fn proper_fold(es: Seq<Entry>, n: nat) -> bool
    decreases weight(es), 3nat, n,
{
    if n == 0 || n > es.len() {
        true
    } else {
        proper_fold(es, (n - 1) as nat) && proper_place(
            merge_fold(es, (n - 1) as nat).0,
            unindexed(es[n - 1]),
            0,
            weight(es),
        )
    }
}

/// Whether the merge pass on `es` nests every entry that it merges into a
/// table under a key that is shorter than its own. Where an entry meets a
/// table of its very key, it goes into the table under its last segment,
/// and its values stand under a longer key than they were written with.
pub open spec fn proper_list(es: Seq<Entry>) -> bool
    decreases weight(es), 4nat, 0nat,
{
    proper_fold(es, es.len())
}

/// The key of an entry that goes into a table under a shorter key: what is
/// left of its key there, after the key of the table, is its own key.
pub proof fn lemma_path_below(old: Entry, new: Entry)
    requires
        old.key.is_part_of(new.key),
        0 < old.key.key_count() < new.key.key_count(),
    ensures
        old.key.names() + below(new, old.key).key.names() == new.key.names(),
{
    lemma_common_of_part(old.key, new.key);
    let n = old.key.key_count();
    assert(below(new, old.key).key.idents =~= new.key.idents.skip(n as int));
    assert(below(new, old.key).key.names() =~= new.key.names().skip(n as int));
    assert(old.key.names() =~= new.key.names().subrange(0, n as int));
    assert(old.key.names() + new.key.names().skip(n as int) =~= new.key.names());
}

/// One more entry at the end changes no count among the entries before it.
pub proof fn lemma_pairs_prefix(es: Seq<Entry>, e: Entry, n: nat, path: Seq<Seq<char>>, want: Pair)
    requires
        n <= es.len(),
    ensures
        entries_pairs(es.push(e), n, path, want) == entries_pairs(es, n, path, want),
    decreases n,
{
    if n > 0 {
        lemma_pairs_prefix(es, e, (n - 1) as nat, path, want);
    }
}

/// One more entry adds its own pairs.
pub proof fn lemma_pairs_push(es: Seq<Entry>, e: Entry, path: Seq<Seq<char>>, want: Pair)
    ensures
        pair_count(es.push(e), path, want) == pair_count(es, path, want) + entry_pairs(
            e,
            path,
            want,
        ),
{
    lemma_pairs_prefix(es, e, es.len(), path, want);
}

/// Another entry in the place of one changes the count by the difference of
/// the two, where the place lies among the first `n`.
pub proof fn lemma_pairs_update_upto(
    es: Seq<Entry>,
    i: int,
    e: Entry,
    n: nat,
    path: Seq<Seq<char>>,
    want: Pair,
)
    requires
        0 <= i < es.len(),
        n <= es.len(),
    ensures
        entries_pairs(es.update(i, e), n, path, want) + (if i < n {
            entry_pairs(es[i], path, want)
        } else {
            0
        }) == entries_pairs(es, n, path, want) + (if i < n {
            entry_pairs(e, path, want)
        } else {
            0
        }),
    decreases n,
{
    if n > 0 {
        lemma_pairs_update_upto(es, i, e, (n - 1) as nat, path, want);
    }
}

/// Another entry in the place of one changes the count by the difference of
/// the two.
pub proof fn lemma_pairs_update(es: Seq<Entry>, i: int, e: Entry, path: Seq<Seq<char>>, want: Pair)
    requires
        0 <= i < es.len(),
    ensures
        pair_count(es.update(i, e), path, want) + entry_pairs(es[i], path, want) == pair_count(
            es,
            path,
            want,
        ) + entry_pairs(e, path, want),
{
    lemma_pairs_update_upto(es, i, e, es.len(), path, want);
}

/// One more item at the end changes no count among the items before it.
pub proof fn lemma_items_pairs_prefix(
    items: Seq<Value>,
    v: Value,
    n: nat,
    path: Seq<Seq<char>>,
    want: Pair,
)
    requires
        n <= items.len(),
    ensures
        items_pairs(items.push(v), n, path, want) == items_pairs(items, n, path, want),
    decreases n,
{
    if n > 0 {
        lemma_items_pairs_prefix(items, v, (n - 1) as nat, path, want);
    }
}

/// Another item in the place of the last changes the count by the
/// difference of the two.
pub proof fn lemma_items_pairs_last(items: Seq<Value>, v: Value, path: Seq<Seq<char>>, want: Pair)
    requires
        items.len() > 0,
    ensures
        items_pairs(items.update(items.len() - 1, v), items.len(), path, want) + value_pairs(
            items.last(),
            path,
            want,
        ) == items_pairs(items, items.len(), path, want) + value_pairs(v, path, want),
{
    let head = items.drop_last();
    assert(items =~= head.push(items.last()));
    assert(items.update(items.len() - 1, v) =~= head.push(v));
    lemma_items_pairs_prefix(head, items.last(), head.len(), path, want);
    lemma_items_pairs_prefix(head, v, head.len(), path, want);
}

/// Merging an entry into the table or array that its key leads into keeps
/// the pairs of both, where it nests under a longer key and meets no error.
pub proof fn lemma_merge_into_pairs(old: Entry, new: Entry, path: Seq<Seq<char>>, want: Pair)
    requires
        old.key.is_part_of(new.key),
        proper_into(old, new),
    ensures
        merge_into(old, new) matches Merged::Done(merged, errors) ==> (errors.len() == 0
            ==> entry_pairs(merged, path, want) == entry_pairs(old, path, want) + entry_pairs(
            new,
            path,
            want,
        )),
    decreases entry_weight(old) + entry_weight(new), 0nat, 0nat,
{
    if old.key.key_count() > 0 {
        let under = path + old.key.names();
        let add = below(new, old.key);
        match old.value {
            Value::Table(t) => {
                if !is_inline(t) {
                    lemma_weight_push(t.entries, add);
                    lemma_merge_list_pairs(t.entries.push(add), under, want);
                    lemma_pairs_push(t.entries, add, under, want);
                    lemma_path_below(old, new);
                    assert(under + add.key.names() =~= path + new.key.names());
                }
            },
            Value::Array(a) => {
                if !a.tables {
                } else if joins_array(old, new) {
                    let t = new.value->Table_0;
                    let item = Value::Table(Table { array: false, ..t });
                    lemma_items_pairs_prefix(a.items, item, a.items.len(), under, want);
                    assert(old.key.names() =~= new.key.names().subrange(
                        0,
                        old.key.names().len() as int,
                    ));
                    assert(old.key.names() =~= new.key.names());
                    assert(value_pairs(item, under, want) == entry_pairs(new, path, want));
                } else if a.items.len() > 0 && a.items.last() is Table {
                    let last = a.items.last()->Table_0;
                    lemma_weight_push(last.entries, add);
                    lemma_item_weight(a.items, a.items.len() - 1);
                    lemma_merge_list_pairs(last.entries.push(add), under, want);
                    lemma_pairs_push(last.entries, add, under, want);
                    lemma_path_below(old, new);
                    assert(under + add.key.names() =~= path + new.key.names());
                    let (entries, errors) = merge_list(last.entries.push(add));
                    lemma_items_pairs_last(
                        a.items,
                        Value::Table(Table { entries, ..last }),
                        under,
                        want,
                    );
                }
            },
            _ => {},
        }
    }
}

/// The table that is made of two entries with a common beginning holds the
/// pairs of both.
pub proof fn lemma_pseudo_pairs(old: Entry, new: Entry, path: Seq<Seq<char>>, want: Pair)
    requires
        !old.key.is_part_of(new.key),
        !new.key.is_part_of(old.key),
        old.key.common_prefix_count(new.key) > 0,
    ensures
        entry_pairs(
            pseudo_table(old, new, old.key.common_prefix_count(new.key)),
            path,
            want,
        ) == entry_pairs(old, path, want) + entry_pairs(new, path, want),
{
    let count = old.key.common_prefix_count(new.key);
    let merged = pseudo_table(old, new, count);
    let common = old.key.outer(count);
    let (mine, other) = (old.key.names(), new.key.names());
    lemma_common_run(mine, other, 0);
    if count == mine.len() {
        assert(mine =~= other.subrange(0, mine.len() as int));
    }
    if count == other.len() {
        assert(other =~= mine.subrange(0, other.len() as int));
    }
    assert(common.names() =~= mine.subrange(0, count as int));
    assert(common.names() =~= other.subrange(0, count as int));
    lemma_common_of_part(common, old.key);
    lemma_common_of_part(common, new.key);
    let (a, b) = (below(old, common), below(new, common));
    assert(a.key.names() =~= mine.skip(count as int));
    assert(b.key.names() =~= other.skip(count as int));
    let under = path + common.names();
    assert(under + a.key.names() =~= path + mine);
    assert(under + b.key.names() =~= path + other);
    let both = merged.value->Table_0.entries;
    assert(both.len() == 2 && both[0] == a && both[1] == b);
    assert(entries_pairs(both, 0, under, want) == 0);
    assert(entries_pairs(both, 1, under, want) == entry_pairs(a, under, want));
    assert(entries_pairs(both, 2, under, want) == entry_pairs(a, under, want) + entry_pairs(
        b,
        under,
        want,
    ));
}

/// Trying to merge one entry into another keeps the pairs of both, where it
/// merges them under longer keys and meets no error.
pub proof fn lemma_merge_entry_pairs(old: Entry, new: Entry, path: Seq<Seq<char>>, want: Pair)
    requires
        proper_entry(old, new),
    ensures
        merge_entry(old, new) matches Merged::Done(merged, errors) ==> (errors.len() == 0
            ==> entry_pairs(merged, path, want) == entry_pairs(old, path, want) + entry_pairs(
            new,
            path,
            want,
        )),
    decreases entry_weight(old) + entry_weight(new), 1nat, 0nat,
{
    if old.key.is_part_of(new.key) {
        lemma_merge_into_pairs(old, new, path, want);
    } else if new.key.is_part_of(old.key) {
        lemma_merge_into_pairs(new, old, path, want);
    } else if old.key.common_prefix_count(new.key) > 0 {
        lemma_pseudo_pairs(old, new, path, want);
    }
}

/// An entry that is taken in under longer keys and without an error adds
/// its pairs to those of the entries that take it in.
pub proof fn lemma_merge_place_pairs(
    done: Seq<Entry>,
    e: Entry,
    i: nat,
    budget: nat,
    path: Seq<Seq<char>>,
    want: Pair,
)
    requires
        proper_place(done, e, i, budget),
    ensures
        merge_place(done, e, i, budget) matches Some((merged, errors)) ==> (errors.len() == 0
            ==> pair_count(merged, path, want) == pair_count(done, path, want) + entry_pairs(
            e,
            path,
            want,
        )),
    decreases budget, 2nat, done.len() - i,
{
    if i < done.len() {
        if entry_weight(done[i as int]) + entry_weight(e) > budget {
            lemma_merge_place_pairs(done, e, i + 1, budget, path, want);
        } else {
            lemma_merge_entry_pairs(done[i as int], e, path, want);
            match merge_entry(done[i as int], e) {
                Merged::Done(merged, errors) => {
                    lemma_pairs_update(done, i as int, merged, path, want);
                },
                Merged::Failed(error) => {
                    assert(seq![error].len() == 1);
                },
                Merged::Apart => {
                    lemma_merge_place_pairs(done, e, i + 1, budget, path, want);
                },
            }
        }
    }
}

/// An entry that stands alone holds the pairs that it held.
pub proof fn lemma_standing_pairs(e: Entry, path: Seq<Seq<char>>, want: Pair)
    ensures
        entry_pairs(standing(e), path, want) == entry_pairs(e, path, want),
{
    let under = path + e.key.names();
    match e.value {
        Value::Table(t) => {
            if t.array {
                let item = Value::Table(Table { array: false, ..t });
                let items = standing(e).value->Array_0.items;
                assert(items.len() == 1 && items[0] == item);
                assert(items_pairs(items, 0, under, want) == 0);
                assert(items_pairs(items, 1, under, want) == value_pairs(item, under, want));
                assert(value_pairs(item, under, want) == value_pairs(e.value, under, want));
            }
        },
        _ => {},
    }
}

/// Merging the first `n` entries under longer keys and without an error
/// keeps their pairs.
pub proof fn lemma_merge_fold_pairs(es: Seq<Entry>, n: nat, path: Seq<Seq<char>>, want: Pair)
    requires
        proper_fold(es, n),
    ensures
        merge_fold(es, n).1.len() == 0 ==> pair_count(merge_fold(es, n).0, path, want)
            == entries_pairs(es, n, path, want),
    decreases weight(es), 3nat, n,
{
    if n > 0 && n <= es.len() {
        lemma_merge_fold_pairs(es, (n - 1) as nat, path, want);
        let (done, errors) = merge_fold(es, (n - 1) as nat);
        let e = unindexed(es[n - 1]);
        assert(entry_pairs(e, path, want) == entry_pairs(es[n - 1], path, want));
        lemma_merge_place_pairs(done, e, 0, weight(es), path, want);
        match merge_place(done, e, 0, weight(es)) {
            Some((merged, more)) => {},
            None => {
                lemma_pairs_push(done, standing(e), path, want);
                lemma_standing_pairs(e, path, want);
            },
        }
    }
}

/// The merge pass keeps every value under its full key, as long as it
/// meets no error and nests no entry under a key as long as its own.
pub proof fn lemma_merge_list_pairs(es: Seq<Entry>, path: Seq<Seq<char>>, want: Pair)
    requires
        proper_list(es),
    ensures
        merge_list(es).1.len() == 0 ==> pair_count(merge_list(es).0, path, want) == pair_count(
            es,
            path,
            want,
        ),
    decreases weight(es), 4nat, 0nat,
{
    lemma_merge_fold_pairs(es, es.len(), path, want);
}

/// Normalizing the key of an entry keeps its pairs: the nested tables spell
/// the same key.
pub proof fn lemma_normalize_entry_pairs(e: Entry, path: Seq<Seq<char>>, want: Pair)
    ensures
        entry_pairs(normalize_entry(e), path, want) == entry_pairs(e, path, want),
    decreases e.key.key_count(),
{
    if e.key.key_count() > 1 {
        let w = wrap_once(e);
        let inner = w.value->Table_0.entries;
        let under = path + w.key.names();
        assert(inner.len() == 1 && inner[0].value == e.value);
        assert(w.key.names() + inner[0].key.names() =~= e.key.names());
        assert(under + inner[0].key.names() =~= path + e.key.names());
        assert(entries_pairs(inner, 0, under, want) == 0);
        assert(entries_pairs(inner, 1, under, want) == entry_pairs(inner[0], under, want));
        lemma_normalize_entry_pairs(w, path, want);
    }
}

/// Normalizing a value keeps its pairs.
pub proof fn lemma_normalize_value_pairs(v: Value, path: Seq<Seq<char>>, want: Pair)
    ensures
        value_pairs(normalize_value(v), path, want) == value_pairs(v, path, want),
    decreases v, 0nat,
{
    match v {
        Value::Table(t) => {
            lemma_normalize_upto_pairs(t.entries, t.entries.len(), path, want);
        },
        Value::Array(a) => {
            lemma_normalize_items_pairs(a.items, a.items.len(), path, want);
        },
        _ => {},
    }
}

/// Normalizing the first `n` items keeps their pairs.
pub proof fn lemma_normalize_items_pairs(
    items: Seq<Value>,
    n: nat,
    path: Seq<Seq<char>>,
    want: Pair,
)
    requires
        n <= items.len(),
    ensures
        normalize_items(items, n).len() == n,
        items_pairs(normalize_items(items, n), n, path, want) == items_pairs(
            items,
            n,
            path,
            want,
        ),
    decreases items, n,
{
    if n > 0 {
        lemma_normalize_items_pairs(items, (n - 1) as nat, path, want);
        lemma_normalize_value_pairs(items[n - 1], path, want);
        let before = normalize_items(items, (n - 1) as nat);
        lemma_items_pairs_prefix(before, normalize_value(items[n - 1]), (n - 1) as nat, path, want);
    }
}

/// Normalizing the first `n` entries keeps their pairs.
pub proof fn lemma_normalize_upto_pairs(es: Seq<Entry>, n: nat, path: Seq<Seq<char>>, want: Pair)
    requires
        n <= es.len(),
    ensures
        normalize_upto(es, n).len() == n,
        entries_pairs(normalize_upto(es, n), n, path, want) == entries_pairs(es, n, path, want),
    decreases es, n,
{
    if n > 0 {
        lemma_normalize_upto_pairs(es, (n - 1) as nat, path, want);
        let e = es[n - 1];
        lemma_normalize_value_pairs(e.value, path + e.key.names(), want);
        let inner = Entry { value: normalize_value(e.value), ..e };
        lemma_normalize_entry_pairs(inner, path, want);
        let before = normalize_upto(es, (n - 1) as nat);
        let out = normalize_upto(es, n);
        lemma_pairs_prefix(before, normalize_entry(inner), (n - 1) as nat, path, want);
        assert(out == before.push(normalize_entry(inner)));
        assert(entry_pairs(out[n - 1], path, want) == entry_pairs(inner, path, want));
        assert(entry_pairs(inner, path, want) == entry_pairs(e, path, want));
    }
}

/// The span pass keeps the pairs of a value.
pub proof fn lemma_span_value_pairs(
    v: Value,
    next: Option<u32>,
    headers: Seq<Header>,
    end: Option<u32>,
    path: Seq<Seq<char>>,
    want: Pair,
)
    ensures
        value_pairs(span_value(v, next, headers, end), path, want) == value_pairs(v, path, want),
    decreases v, 0nat,
{
    match v {
        Value::Table(t) => {
            lemma_span_upto_pairs(t.entries, t.entries.len(), headers, end, path, want);
        },
        Value::Array(a) => {
            if a.tables {
                lemma_span_items_pairs(a.items, a.items.len(), headers, end, path, want);
            }
        },
        _ => {},
    }
}

/// The span pass keeps the pairs of the first `n` items.
pub proof fn lemma_span_items_pairs(
    items: Seq<Value>,
    n: nat,
    headers: Seq<Header>,
    end: Option<u32>,
    path: Seq<Seq<char>>,
    want: Pair,
)
    requires
        n <= items.len(),
    ensures
        span_items(items, n, headers, end).len() == n,
        items_pairs(span_items(items, n, headers, end), n, path, want) == items_pairs(
            items,
            n,
            path,
            want,
        ),
    decreases items, n,
{
    if n > 0 {
        lemma_span_items_pairs(items, (n - 1) as nat, headers, end, path, want);
        let before = span_items(items, (n - 1) as nat, headers, end);
        let out = span_items(items, n, headers, end);
        lemma_items_pairs_prefix(before, out[n - 1], (n - 1) as nat, path, want);
        assert(out == before.push(out[n - 1]));
        match items[n - 1] {
            Value::Table(t) => {
                lemma_span_upto_pairs(t.entries, t.entries.len(), headers, end, path, want);
                let spanned = out[n - 1]->Table_0;
                assert(spanned.entries == span_upto(t.entries, t.entries.len(), headers, end));
                assert(value_pairs(out[n - 1], path, want) == value_pairs(items[n - 1], path, want));
            },
            _ => {
                assert(out[n - 1] == items[n - 1]);
            },
        }
    }
}

/// The span pass keeps the pairs of the first `n` entries.
pub proof fn lemma_span_upto_pairs(
    es: Seq<Entry>,
    n: nat,
    headers: Seq<Header>,
    end: Option<u32>,
    path: Seq<Seq<char>>,
    want: Pair,
)
    requires
        n <= es.len(),
    ensures
        span_upto(es, n, headers, end).len() == n,
        entries_pairs(span_upto(es, n, headers, end), n, path, want) == entries_pairs(
            es,
            n,
            path,
            want,
        ),
    decreases es, n,
{
    if n > 0 {
        lemma_span_upto_pairs(es, (n - 1) as nat, headers, end, path, want);
        let e = es[n - 1];
        lemma_span_value_pairs(
            e.value,
            entry_end(e, headers, end),
            headers,
            end,
            path + e.key.names(),
            want,
        );
        let before = span_upto(es, (n - 1) as nat, headers, end);
        let out = span_upto(es, n, headers, end);
        lemma_pairs_prefix(before, out[n - 1], (n - 1) as nat, path, want);
        assert(out == before.push(out[n - 1]));
        assert(out[n - 1].key == e.key);
        assert(out[n - 1].value == span_value(
            e.value,
            entry_end(e, headers, end),
            headers,
            end,
        ));
        assert(entry_pairs(out[n - 1], path, want) == entry_pairs(e, path, want));
    }
}

/// A document that is lifted without any error holds every value under the
/// full key that it was written with, as often as the flat entries of its
/// source hold it, as long as merging nests no entry under a key as long as
/// its own: the pairs of full key and value are those of the flat entries.
pub proof fn lemma_document_pairs(root: SyntaxElement, want: Pair)
    requires
        root_of(root) is Some,
        root_of(root)->Some_0.errors.len() == 0,
        proper_list(lift_spec(root).0),
    ensures
        pair_count(root_of(root)->Some_0.entries, Seq::empty(), want) == pair_count(
            lift_spec(root).0,
            Seq::empty(),
            want,
        ),
{
    let (flat, errors) = lift_spec(root);
    let merged = merge_list(flat).0;
    let path = Seq::<Seq<char>>::empty();
    lemma_merge_list_pairs(flat, path, want);
    lemma_normalize_upto_pairs(merged, merged.len(), path, want);
    let shaped = normalize_list(merged);
    lemma_span_upto_pairs(shaped, shaped.len(), headers_of(root), end_of_file(root), path, want);
}

} // verus!
