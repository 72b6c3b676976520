//! The lift pass: the children of the root become a flat, ordered collection
//! of entries under their full keys, and the conflicts between them become
//! errors.

use vstd::prelude::*;
use indexmap::IndexMap;
use crate::cast::{cast_entry, cast_table, entry_of, eq_range_of, find_eq_range, table_of};
use crate::error::{errors_model, Error, ErrorModel};
use crate::flat::{
    flat_pairs, id_of, key_opt, map_get, map_get_index, map_insert, map_into_values, map_len,
    map_new, Flat, FlatItem,
};
use crate::key::{key_of, Key, KeyNode};
use crate::merge::{below_apart, value_apart};
use crate::node::{
    entries_plain, entries_wf, entry_wf, table_wf, value_plain, Entries, Entry, EntryNode, Table,
    TableNode, Value, ValueNode,
};
use crate::range::TextRange;
use crate::syntax::{first_node_from, SyntaxElement, SyntaxKind};

verus! {

/// What the lift pass has gathered so far.
pub ghost struct LiftState {
    /// The entries under their full keys, in the order of the source.
    pub items: Seq<Flat>,
    /// The key of the table that the next entries stand in.
    pub prefix: Option<Key>,
    /// The keys of the headers seen so far, grouped by their index.
    pub tables: Seq<Seq<Key>>,
    pub errors: Seq<ErrorModel>,
}

/// Whether a value is a table that stands under an array-of-tables header.
pub open spec fn is_array_table(v: Value) -> bool {
    v matches Value::Table(t) && t.array
}

/// The index after `i`.
pub open spec fn bump(i: usize) -> usize {
    if i < usize::MAX {
        (i + 1) as usize
    } else {
        i
    }
}

/// The position of the last of the first `n` entries whose key has the
/// segments of `key`.
pub open spec fn find_last_eq(items: Seq<Flat>, key: Key, n: nat) -> Option<int>
    decreases n,
{
    if n == 0 || n > items.len() {
        None
    } else if items[n - 1].key.eq_keys(key) {
        Some(n - 1)
    } else {
        find_last_eq(items, key, (n - 1) as nat)
    }
}

/// The position of the last of the first `n` entries whose key has the
/// segments and the index of `key`.
pub open spec fn find_same(items: Seq<Flat>, key: Key, n: nat) -> Option<int>
    decreases n,
{
    if n == 0 || n > items.len() {
        None
    } else if items[n - 1].key.identity() == key.identity() {
        Some(n - 1)
    } else {
        find_same(items, key, (n - 1) as nat)
    }
}

/// The entries with `item` put in: in the place of the entry with the same
/// full key, or last where there is none.
pub open spec fn put(items: Seq<Flat>, item: Flat) -> Seq<Flat> {
    match find_same(items, item.key, items.len()) {
        Some(i) => items.update(i, item),
        None => items.push(item),
    }
}

/// The entry that stands for the header of `table` under `key`.
pub open spec fn header_flat(key: Key, table: Table, eq_range: Option<TextRange>) -> Flat {
    Flat {
        key,
        entry: Entry {
            syntax: table.syntax,
            key,
            value: Value::Table(table),
            next_entry: None,
            eq_range,
        },
        prefix: None,
    }
}

/// What becomes of a header with `key`: the key that it goes by from here
/// on, and either the error that it raises or nothing, in which case the
/// header is put among the entries.
///
/// A header whose segments no entry has is put in with index 0. One that
/// meets an array of tables, being one itself, is put in with the next
/// index. A table that meets an array of tables, or the other way round,
/// and a table that meets anything else, are errors.
pub open spec fn header_verdict(items: Seq<Flat>, key: Key, array: bool) -> (Key, Option<
    ErrorModel,
>) {
    match find_last_eq(items, key, items.len()) {
        Some(i) => {
            let found = items[i];
            let found_array = is_array_table(found.entry.value);
            if found_array && !array {
                (key, Some(ErrorModel::ExpectedTableArray { target: found.entry.key, key }))
            } else if !found_array && array {
                (key, Some(ErrorModel::ExpectedTableArray { target: key, key: found.entry.key }))
            } else if !found_array && !array {
                (key, Some(ErrorModel::DuplicateKey { first: found.entry.key, second: key }))
            } else {
                (key.with_index(bump(found.key.index)), None)
            }
        },
        None => (key, None),
    }
}

/// The number of segments of the table key that an entry stands under.
pub open spec fn prefix_count(p: Option<Key>) -> nat {
    match p {
        Some(p) => p.key_count(),
        None => 0,
    }
}

/// Whether an entry written with dotted keys has made, on the way, the
/// table that the header `key` now defines: the entry came from an `ENTRY`
/// node, its full key contains `key`, and the table it stands in has fewer
/// segments than `key`.
pub open spec fn clashes(item: Flat, key: Key) -> bool {
    &&& item.entry.syntax.kind == SyntaxKind::ENTRY
    &&& item.key.contains(key)
    &&& prefix_count(item.prefix) < key.key_count()
}

/// `errors`, and after them one error for each of the first `n` entries
/// that clashes with the header `key`, the last entry first.
pub open spec fn clash_walk(items: Seq<Flat>, key: Key, n: nat, errors: Seq<ErrorModel>) -> Seq<
    ErrorModel,
>
    decreases n,
{
    if n == 0 || n > items.len() {
        errors
    } else if clashes(items[n - 1], key) {
        clash_walk(
            items,
            key,
            (n - 1) as nat,
            errors.push(ErrorModel::TopLevelTableDefined { table: key, key: items[n - 1].entry.key }),
        )
    } else {
        clash_walk(items, key, (n - 1) as nat, errors)
    }
}

/// The header keys with `key` added to the group of its index; a group is
/// opened where there is none for that index.
pub open spec fn register(tables: Seq<Seq<Key>>, key: Key) -> Seq<Seq<Key>> {
    if key.index < tables.len() {
        tables.update(key.index as int, tables[key.index as int].push(key))
    } else {
        tables.push(seq![key])
    }
}

/// The state after a header with `key`, for the table `table`.
pub open spec fn lift_header(
    st: LiftState,
    key: Key,
    table: Table,
    eq_range: Option<TextRange>,
) -> LiftState {
    let (k, error) = header_verdict(st.items, key, table.array);
    let errors = match error {
        Some(e) => st.errors.push(e),
        None => st.errors,
    };
    LiftState {
        items: if error is None {
            put(st.items, header_flat(k, table, eq_range))
        } else {
            st.items
        },
        prefix: Some(k),
        tables: register(st.tables, k),
        errors: clash_walk(st.items, k, st.items.len(), errors),
    }
}

/// The position, from `from` on, of the first header key of `group` that
/// the entry key `full` lies under, both taken without the prefix `p`.
pub open spec fn find_owner(group: Seq<Key>, full: Key, p: Key, from: nat) -> Option<int>
    decreases group.len() - from,
{
    if from >= group.len() {
        None
    } else if full.without_prefix(p).contains(group[from as int].without_prefix(p)) {
        Some(from as int)
    } else {
        find_owner(group, full, p, from + 1)
    }
}

/// The header that an entry with the full key `full` would write into
/// although a later header of the same index has taken its place.
pub open spec fn superseded_owner(st: LiftState, full: Key) -> Option<Key> {
    match st.prefix {
        None => None,
        Some(p) => if full.index < st.tables.len() {
            let group = st.tables[full.index as int];
            match find_owner(group, full, p, 0) {
                Some(i) => if !group[i].same(group.last()) {
                    Some(group[i])
                } else {
                    None
                },
                None => None,
            }
        } else {
            None
        },
    }
}

/// The full key of an entry with `key` under the table key `prefix`.
pub open spec fn full_key(prefix: Option<Key>, key: Key) -> Key {
    match prefix {
        None => key,
        Some(p) => key.with_prefix(p),
    }
}

/// The state after an entry.
pub open spec fn lift_entry(st: LiftState, entry: Entry) -> LiftState {
    let full = full_key(st.prefix, entry.key);
    match superseded_owner(st, full) {
        Some(table) => LiftState {
            errors: st.errors.push(ErrorModel::TopLevelTableDefined { table, key: entry.key }),
            ..st
        },
        None => match find_same(st.items, full, st.items.len()) {
            Some(i) => LiftState {
                errors: st.errors.push(
                    ErrorModel::DuplicateKey { first: st.items[i].entry.key, second: entry.key },
                ),
                ..st
            },
            None => LiftState {
                items: st.items.push(Flat { key: full, entry, prefix: st.prefix }),
                ..st
            },
        },
    }
}

/// The key of a header: what the first node below it stands for.
pub open spec fn header_key_of(e: SyntaxElement) -> Option<Key> {
    match first_node_from(e.children@, 0) {
        Some(i) => key_of(e.children[i as int]),
        None => None,
    }
}

/// The message of the error for a header without a key.
pub open spec fn no_key_message() -> Seq<char> {
    "table has no key"@
}

/// The state after one child of the root. A header without a key is an
/// error and leaves the rest as it was; what is neither a header nor an
/// entry is passed over.
pub open spec fn lift_child(st: LiftState, child: SyntaxElement) -> LiftState {
    match child.kind {
        SyntaxKind::TABLE_HEADER | SyntaxKind::TABLE_ARRAY_HEADER => match (
            header_key_of(child),
            table_of(child),
        ) {
            (Some(key), Some(table)) => lift_header(
                st,
                key,
                table,
                eq_range_of(child, child.children.len() as nat),
            ),
            _ => LiftState {
                errors: st.errors.push(
                    ErrorModel::Spanned { range: child.range, message: no_key_message() },
                ),
                ..st
            },
        },
        SyntaxKind::ENTRY => match entry_of(child) {
            Some(entry) => lift_entry(st, entry),
            None => st,
        },
        _ => st,
    }
}

/// The state after the first `n` children of the root.
pub open spec fn lift_children(root: SyntaxElement, n: nat) -> LiftState
    decreases n,
{
    if n == 0 || n > root.children.len() {
        LiftState {
            items: Seq::empty(),
            prefix: None,
            tables: Seq::empty(),
            errors: Seq::empty(),
        }
    } else {
        lift_child(lift_children(root, (n - 1) as nat), root.children[n - 1])
    }
}

/// The position, from `from` on, of the first array-of-tables header of
/// index 0 whose key is part of the key of the first entry.
pub open spec fn find_array_above(items: Seq<Flat>, from: nat) -> Option<int>
    decreases items.len() - from,
{
    if from >= items.len() {
        None
    } else if (from == 0 || items[from as int].key.index == 0) && is_array_table(
        items[from as int].entry.value,
    ) && items[from as int].key.is_part_of(items[0].key) {
        Some(from as int)
    } else {
        find_array_above(items, from + 1)
    }
}

/// The error of a document whose first entry stands below an array of
/// tables that is defined after it.
pub open spec fn first_entry_error(items: Seq<Flat>) -> Option<ErrorModel> {
    if items.len() == 0 || is_array_table(items[0].entry.value) {
        None
    } else {
        match find_array_above(items, 0) {
            Some(j) => Some(
                ErrorModel::ExpectedTableArray { target: items[j].key, key: items[0].key },
            ),
            None => None,
        }
    }
}

/// The entries of the flat collection, each under its full key.
pub open spec fn flat_entries(items: Seq<Flat>) -> Seq<Entry> {
    items.map_values(|f: Flat| Entry { key: f.key, ..f.entry })
}

/// What the lift pass makes of the children of `root`: the entries under
/// their full keys, and the errors.
pub open spec fn lift_spec(root: SyntaxElement) -> (Seq<Entry>, Seq<ErrorModel>) {
    let st = lift_children(root, root.children.len() as nat);
    let errors = match first_entry_error(st.items) {
        Some(e) => st.errors.push(e),
        None => st.errors,
    };
    (flat_entries(st.items), errors)
}

/// The entries that the pairs of the flat collection hold.
pub open spec fn items_of(pairs: Seq<((Seq<Seq<char>>, usize), FlatItem)>) -> Seq<Flat> {
    pairs.map_values(|p: ((Seq<Seq<char>>, usize), FlatItem)| p.1@)
}

/// Every pair stands under what its full key is compared by, and no two
/// pairs stand under the same.
pub open spec fn pairs_ok(pairs: Seq<((Seq<Seq<char>>, usize), FlatItem)>) -> bool {
    &&& forall|i: int|
        0 <= i < pairs.len() ==> (#[trigger] pairs[i]).1.wf() && pairs[i].0
            == pairs[i].1.key@.identity()
    &&& forall|i: int, j: int|
        0 <= i < j < pairs.len() ==> (#[trigger] pairs[i]).0 != (#[trigger] pairs[j]).0
}

/// The views of a list of keys.
pub open spec fn keys_model(v: Seq<KeyNode>) -> Seq<Key> {
    v.map_values(|k: KeyNode| k@)
}

/// The views of the groups of header keys.
pub open spec fn tables_model(t: Seq<Vec<KeyNode>>) -> Seq<Seq<Key>> {
    t.map_values(|g: Vec<KeyNode>| keys_model(g@))
}

/// Every key has a proper window of identifiers.
pub open spec fn keys_wf(v: Seq<KeyNode>) -> bool {
    forall|i: int| 0 <= i < v.len() ==> (#[trigger] v[i]).wf()
}

/// Every header key has a proper window of identifiers.
pub open spec fn tables_wf(t: Seq<Vec<KeyNode>>) -> bool {
    forall|i: int| 0 <= i < t.len() ==> keys_wf((#[trigger] t[i])@)
}

/// Every key of every error has a proper window of identifiers.
pub open spec fn errors_wf(v: Seq<Error>) -> bool {
    forall|i: int| 0 <= i < v.len() ==> (#[trigger] v[i]).wf()
}

/// The state of the lift pass.
pub struct Lifter {
    pub entries: IndexMap<(Vec<String>, usize), FlatItem>,
    pub prefix: Option<KeyNode>,
    pub tables: Vec<Vec<KeyNode>>,
    pub errors: Vec<Error>,
}

impl View for Lifter {
    type V = LiftState;

    open spec fn view(&self) -> LiftState {
        LiftState {
            items: items_of(flat_pairs(self.entries)),
            prefix: key_opt(self.prefix),
            tables: tables_model(self.tables@),
            errors: errors_model(self.errors@),
        }
    }
}

/// Where no pair stands under the identity of `key`, none is found.
proof fn lemma_find_same_none(pairs: Seq<((Seq<Seq<char>>, usize), FlatItem)>, key: Key, n: nat)
    requires
        pairs_ok(pairs),
        n <= pairs.len(),
        forall|i: int| 0 <= i < pairs.len() ==> (#[trigger] pairs[i]).0 != key.identity(),
    ensures
        find_same(items_of(pairs), key, n) is None,
    decreases n,
{
    if n > 0 {
        assert(pairs[n - 1].0 != key.identity());
        lemma_find_same_none(pairs, key, (n - 1) as nat);
    }
}

/// The pair that stands under the identity of `key` is the one found.
proof fn lemma_find_same_some(
    pairs: Seq<((Seq<Seq<char>>, usize), FlatItem)>,
    key: Key,
    at: int,
    n: nat,
)
    requires
        pairs_ok(pairs),
        0 <= at < n <= pairs.len(),
        pairs[at].0 == key.identity(),
    ensures
        find_same(items_of(pairs), key, n) == Some(at),
    decreases n,
{
    if n - 1 > at {
        assert(pairs[at].0 != pairs[n - 1].0);
        lemma_find_same_some(pairs, key, at, (n - 1) as nat);
    }
}

impl Lifter {
    /// The state is sound: the entries stand under their own full keys, and
    /// every key has a proper window of identifiers.
    pub open spec fn inv(&self) -> bool {
        &&& pairs_ok(flat_pairs(self.entries))
        &&& self.prefix matches Some(p) ==> p.wf()
        &&& tables_wf(self.tables@)
        &&& errors_wf(self.errors@)
    }

    fn new() -> (st: Lifter)
        ensures
            st.inv(),
            st@ == (LiftState {
                items: Seq::empty(),
                prefix: None,
                tables: Seq::empty(),
                errors: Seq::empty(),
            }),
    {
        let st = Lifter {
            entries: map_new(),
            prefix: None,
            tables: Vec::new(),
            errors: Vec::new(),
        };
        assert(st@.items =~= Seq::<Flat>::empty());
        assert(st@.tables =~= Seq::<Seq<Key>>::empty());
        assert(st@.errors =~= Seq::<ErrorModel>::empty());
        st
    }
}

/// The last entry of the map whose key has the segments of `key`.
fn last_eq(m: &IndexMap<(Vec<String>, usize), FlatItem>, key: &KeyNode) -> (r: Option<usize>)
    requires
        pairs_ok(flat_pairs(*m)),
        key.wf(),
    ensures
        match r {
            Some(i) => i < flat_pairs(*m).len() && find_last_eq(
                items_of(flat_pairs(*m)),
                key@,
                flat_pairs(*m).len(),
            ) == Some(i as int),
            None => find_last_eq(items_of(flat_pairs(*m)), key@, flat_pairs(*m).len()) is None,
        },
{
    let n = map_len(m);
    let mut i: usize = n;
    while i > 0
        invariant
            pairs_ok(flat_pairs(*m)),
            key.wf(),
            n == flat_pairs(*m).len(),
            i <= n,
            find_last_eq(items_of(flat_pairs(*m)), key@, n as nat) == find_last_eq(
                items_of(flat_pairs(*m)),
                key@,
                i as nat,
            ),
        decreases i,
    {
        i -= 1;
        match map_get_index(m, i) {
            Some(item) => {
                assert(flat_pairs(*m)[i as int].1.wf());
                if item.key.eq_keys(key) {
                    return Some(i);
                }
            },
            None => {},
        }
    }
    None
}

/// Adds an error for each entry of the map that clashes with the header
/// `key`, the last entry first.
fn push_clashes(
    m: &IndexMap<(Vec<String>, usize), FlatItem>,
    key: &KeyNode,
    errors: &mut Vec<Error>,
)
    requires
        pairs_ok(flat_pairs(*m)),
        key.wf(),
        errors_wf(old(errors)@),
    ensures
        errors_wf(final(errors)@),
        errors_model(final(errors)@) == clash_walk(
            items_of(flat_pairs(*m)),
            key@,
            flat_pairs(*m).len(),
            errors_model(old(errors)@),
        ),
{
    let n = map_len(m);
    let mut i: usize = n;
    while i > 0
        invariant
            pairs_ok(flat_pairs(*m)),
            key.wf(),
            errors_wf(errors@),
            n == flat_pairs(*m).len(),
            i <= n,
            clash_walk(items_of(flat_pairs(*m)), key@, n as nat, errors_model(old(errors)@))
                == clash_walk(items_of(flat_pairs(*m)), key@, i as nat, errors_model(errors@)),
        decreases i,
    {
        i -= 1;
        match map_get_index(m, i) {
            Some(item) => {
                assert(flat_pairs(*m)[i as int].1.wf());
                let under: usize = match &item.prefix {
                    Some(p) => p.key_count(),
                    None => 0,
                };
                let from_entry = match item.entry.syntax.kind {
                    SyntaxKind::ENTRY => true,
                    _ => false,
                };
                if from_entry && item.key.contains(key) && under < key.key_count() {
                    let ghost before = errors@;
                    let e = Error::TopLevelTableDefined {
                        table: key.clone(),
                        key: item.entry.key.clone(),
                    };
                    errors.push(e);
                    assert(errors_model(errors@) =~= errors_model(before).push(e@));
                }
            },
            None => {},
        }
    }
}

/// Adds `key` to the group of its index.
fn register_header(tables: &mut Vec<Vec<KeyNode>>, key: KeyNode)
    requires
        tables_wf(old(tables)@),
        key.wf(),
    ensures
        tables_wf(final(tables)@),
        tables_model(final(tables)@) == register(tables_model(old(tables)@), key@),
{
    let ghost before = tables@;
    if key.index < tables.len() {
        let at = key.index;
        let mut group: Vec<KeyNode> = Vec::new();
        let mut i: usize = 0;
        while i < tables[at].len()
            invariant
                at < tables.len(),
                tables@ == before,
                tables_wf(before),
                i <= tables[at as int].len(),
                group.len() == i,
                keys_wf(group@),
                forall|j: int| 0 <= j < i ==> (#[trigger] group[j])@ == tables[at as int][j]@,
            decreases tables[at as int].len() - i,
        {
            assert(keys_wf(tables[at as int]@));
            group.push(tables[at][i].clone());
            i += 1;
        }
        group.push(key);
        assert(keys_model(group@) =~= keys_model(before[at as int]@).push(key@));
        tables.set(at, group);
        assert(tables_model(tables@) =~= register(tables_model(before), key@));
    } else {
        let mut group: Vec<KeyNode> = Vec::new();
        group.push(key);
        assert(keys_model(group@) =~= seq![key@]);
        tables.push(group);
        assert(tables_model(tables@) =~= register(tables_model(before), key@));
    }
}

/// Takes in a header with its key and the table that it stands for.
fn lift_header_step(
    st: Lifter,
    key: KeyNode,
    table: TableNode,
    eq_range: Option<TextRange>,
) -> (r: Lifter)
    requires
        st.inv(),
        key.wf(),
        table_wf(table),
        value_plain(Value::Table(table@)),
        value_apart(Value::Table(table@)),
    ensures
        r.inv(),
        r@ == lift_header(st@, key@, table@, eq_range),
{
    let Lifter { entries, prefix, tables, errors } = st;
    let mut entries = entries;
    let mut tables = tables;
    let mut errors = errors;
    let ghost pairs = flat_pairs(entries);
    let ghost items = items_of(pairs);
    let ghost errors0 = errors_model(errors@);
    let mut key = key;
    let ghost key0 = key@;
    let mut insert = true;
    match last_eq(&entries, &key) {
        Some(i) => {
            match map_get_index(&entries, i) {
                Some(found) => {
                    assert(pairs[i as int].1.wf());
                    let found_array = match &found.entry.value {
                        ValueNode::Table(t) => t.array,
                        _ => false,
                    };
                    if found_array && !table.array {
                        let e = Error::ExpectedTableArray {
                            target: found.entry.key.clone(),
                            key: key.clone(),
                        };
                        errors.push(e);
                        assert(errors_model(errors@) =~= errors0.push(e@));
                        insert = false;
                    } else if !found_array && table.array {
                        let e = Error::ExpectedTableArray {
                            target: key.clone(),
                            key: found.entry.key.clone(),
                        };
                        errors.push(e);
                        assert(errors_model(errors@) =~= errors0.push(e@));
                        insert = false;
                    } else if !found_array && !table.array {
                        let e = Error::DuplicateKey {
                            first: found.entry.key.clone(),
                            second: key.clone(),
                        };
                        errors.push(e);
                        assert(errors_model(errors@) =~= errors0.push(e@));
                        insert = false;
                    } else {
                        let next: usize = if found.key.index < usize::MAX {
                            found.key.index + 1
                        } else {
                            found.key.index
                        };
                        key = key.with_index(next);
                    }
                },
                None => {},
            }
        },
        None => {},
    }
    assert((key@, insert) == (
        header_verdict(items, key0, table.array).0,
        header_verdict(items, key0, table.array).1 is None,
    ));
    push_clashes(&entries, &key, &mut errors);
    if insert {
        let id = key.identity();
        let item = FlatItem {
            key: key.clone(),
            entry: EntryNode {
                syntax: table.syntax.clone(),
                key: key.clone(),
                value: ValueNode::Table(table),
                next_entry: None,
                eq_range,
            },
            prefix: None,
        };
        assert(item@ == header_flat(key@, table@, eq_range));
        proof {
            if exists|i: int| 0 <= i < pairs.len() && (#[trigger] pairs[i]).0 == id_of(id) {
                let at = choose|i: int| 0 <= i < pairs.len() && (#[trigger] pairs[i]).0 == id_of(id);
                lemma_find_same_some(pairs, key@, at, pairs.len());
            } else {
                lemma_find_same_none(pairs, key@, pairs.len());
            }
        }
        map_insert(&mut entries, id, item);
        proof {
            let after = flat_pairs(entries);
            if exists|i: int| 0 <= i < pairs.len() && (#[trigger] pairs[i]).0 == id_of(id) {
                let at = choose|i: int|
                    0 <= i < pairs.len() && (#[trigger] pairs[i]).0 == id_of(id) && after
                        == pairs.update(i, (id_of(id), item));
                lemma_find_same_some(pairs, key@, at, pairs.len());
                assert(items_of(after) =~= items.update(at, item@));
                assert(pairs_ok(after));
            } else {
                assert(after == pairs.push((id_of(id), item)));
                assert(items_of(after) =~= items.push(item@));
                assert(pairs_ok(after));
            }
        }
    }
    register_header(&mut tables, key.clone());
    Lifter { entries, prefix: Some(key), tables, errors }
}

/// The header of the group of `full` that the entry would write into
/// although a later header has taken its place.
fn find_superseded(tables: &Vec<Vec<KeyNode>>, p: &KeyNode, full: &KeyNode) -> (r: Option<KeyNode>)
    requires
        tables_wf(tables@),
        p.wf(),
        full.wf(),
    ensures
        r matches Some(k) ==> k.wf(),
        key_opt(r) == superseded_owner(
            LiftState {
                items: Seq::empty(),
                prefix: Some(p@),
                tables: tables_model(tables@),
                errors: Seq::empty(),
            },
            full@,
        ),
{
    if full.index >= tables.len() {
        return None;
    }
    let group = &tables[full.index];
    assert(keys_wf(group@));
    let local = full.clone().without_prefix(p);
    let mut i: usize = 0;
    while i < group.len()
        invariant
            full.index < tables.len(),
            *group == tables[full.index as int],
            keys_wf(group@),
            p.wf(),
            full.wf(),
            local.wf(),
            local@ == full@.without_prefix(p@),
            i <= group.len(),
            find_owner(keys_model(group@), full@, p@, 0) == find_owner(
                keys_model(group@),
                full@,
                p@,
                i as nat,
            ),
        decreases group.len() - i,
    {
        let under = group[i].clone().without_prefix(p);
        if local.contains(&under) {
            let last = &group[group.len() - 1];
            assert(tables_model(tables@)[full.index as int] == keys_model(group@));
            assert(keys_model(group@).last() == last@);
            if !group[i].same(last) {
                return Some(group[i].clone());
            } else {
                return None;
            }
        }
        i += 1;
    }
    None
}

/// Takes in an entry.
fn lift_entry_step(st: Lifter, entry: EntryNode) -> (r: Lifter)
    requires
        st.inv(),
        entry_wf(entry),
        value_plain(entry@.value),
        value_apart(entry@.value),
    ensures
        r.inv(),
        r@ == lift_entry(st@, entry@),
{
    let Lifter { entries, prefix, tables, errors } = st;
    let mut entries = entries;
    let mut errors = errors;
    let ghost pairs = flat_pairs(entries);
    let ghost errors0 = errors_model(errors@);
    let full = match &prefix {
        None => entry.key.clone(),
        Some(p) => entry.key.clone().with_prefix(p),
    };
    let owner = match &prefix {
        Some(p) => find_superseded(&tables, p, &full),
        None => None,
    };
    match owner {
        Some(table) => {
            let e = Error::TopLevelTableDefined { table, key: entry.key.clone() };
            errors.push(e);
            assert(errors_model(errors@) =~= errors0.push(e@));
            return Lifter { entries, prefix, tables, errors };
        },
        None => {},
    }
    let id = full.identity();
    match map_get(&entries, &id) {
        Some(found) => {
            proof {
                let at = choose|i: int|
                    0 <= i < pairs.len() && (#[trigger] pairs[i]).0 == id_of(id) && pairs[i].1
                        == *found;
                lemma_find_same_some(pairs, full@, at, pairs.len());
                assert(pairs[at].1.wf());
            }
            let e = Error::DuplicateKey { first: found.entry.key.clone(), second: entry.key.clone() };
            errors.push(e);
            assert(errors_model(errors@) =~= errors0.push(e@));
            return Lifter { entries, prefix, tables, errors };
        },
        None => {},
    }
    proof {
        lemma_find_same_none(pairs, full@, pairs.len());
    }
    let kept = match &prefix {
        Some(p) => Some(p.clone()),
        None => None,
    };
    let item = FlatItem { key: full, entry, prefix: kept };
    map_insert(&mut entries, id, item);
    proof {
        let after = flat_pairs(entries);
        assert(after == pairs.push((id_of(id), item)));
        assert(items_of(after) =~= items_of(pairs).push(item@));
        assert(pairs_ok(after));
    }
    Lifter { entries, prefix, tables, errors }
}

/// Takes in one child of the root.
fn lift_child_step(st: Lifter, child: &SyntaxElement) -> (r: Lifter)
    requires
        st.inv(),
    ensures
        r.inv(),
        r@ == lift_child(st@, *child),
{
    match child.kind {
        SyntaxKind::TABLE_HEADER | SyntaxKind::TABLE_ARRAY_HEADER => {
            let key = match child.first_child() {
                Some(i) => KeyNode::cast(&child.children[i]),
                None => None,
            };
            let table = cast_table(child);
            match (key, table) {
                (Some(key), Some(table)) => lift_header_step(
                    st,
                    key,
                    table,
                    find_eq_range(child),
                ),
                _ => {
                    let Lifter { entries, prefix, tables, errors } = st;
                    let mut errors = errors;
                    let ghost before = errors@;
                    let e = Error::Spanned {
                        range: child.range,
                        message: "table has no key".to_owned(),
                    };
                    errors.push(e);
                    assert(errors_model(errors@) =~= errors_model(before).push(e@));
                    Lifter { entries, prefix, tables, errors }
                },
            }
        },
        SyntaxKind::ENTRY => match cast_entry(child) {
            Some(entry) => lift_entry_step(st, entry),
            None => st,
        },
        _ => st,
    }
}

/// The error of a document whose first entry stands below an array of
/// tables that is defined after it.
fn first_entry_check(m: &IndexMap<(Vec<String>, usize), FlatItem>) -> (r: Option<Error>)
    requires
        pairs_ok(flat_pairs(*m)),
    ensures
        r matches Some(e) ==> e.wf(),
        match r {
            Some(e) => first_entry_error(items_of(flat_pairs(*m))) == Some(e@),
            None => first_entry_error(items_of(flat_pairs(*m))) is None,
        },
{
    let n = map_len(m);
    let ghost pairs = flat_pairs(*m);
    let first = match map_get_index(m, 0) {
        Some(first) => first,
        None => {
            return None;
        },
    };
    assert(pairs[0].1.wf());
    let first_array = match &first.entry.value {
        ValueNode::Table(t) => t.array,
        _ => false,
    };
    if first_array {
        return None;
    }
    let mut j: usize = 0;
    while j < n
        invariant
            pairs == flat_pairs(*m),
            pairs_ok(pairs),
            n == pairs.len(),
            n > 0,
            *first == pairs[0].1,
            first.wf(),
            !is_array_table(first.entry@.value),
            j <= n,
            find_array_above(items_of(pairs), 0) == find_array_above(items_of(pairs), j as nat),
        decreases n - j,
    {
        match map_get_index(m, j) {
            Some(item) => {
                assert(pairs[j as int].1.wf());
                let array = match &item.entry.value {
                    ValueNode::Table(t) => t.array,
                    _ => false,
                };
                if (j == 0 || item.key.index == 0) && array && item.key.is_part_of(&first.key) {
                    return Some(
                        Error::ExpectedTableArray {
                            target: item.key.clone(),
                            key: first.key.clone(),
                        },
                    );
                }
            },
            None => {},
        }
        j += 1;
    }
    None
}

/// The entries of the flat collection, each under its full key.
fn from_map(m: IndexMap<(Vec<String>, usize), FlatItem>) -> (r: Entries)
    requires
        pairs_ok(flat_pairs(m)),
    ensures
        entries_wf(r),
        entries_plain(r@),
        below_apart(r@),
        r@ == flat_entries(items_of(flat_pairs(m))),
{
    let ghost pairs = flat_pairs(m);
    let values = map_into_values(m);
    let ghost all = values@;
    let mut out: Vec<EntryNode> = Vec::new();
    for item in it: values
        invariant
            it.seq() == all,
            all.len() == pairs.len(),
            forall|j: int| 0 <= j < all.len() ==> all[j] == (#[trigger] pairs[j]).1,
            pairs_ok(pairs),
            out.len() == it.index(),
            forall|j: int| 0 <= j < out.len() ==> entry_wf(#[trigger] out[j]),
            forall|j: int|
                0 <= j < out.len() ==> (#[trigger] out[j])@ == flat_entries(items_of(pairs))[j],
    {
        let ghost at = out.len() as int;
        assert(pairs[at].1.wf());
        let FlatItem { key, entry, prefix } = item;
        let mut entry = entry;
        entry.key = key;
        out.push(entry);
    }
    let r = Entries(out);
    assert(r@ =~= flat_entries(items_of(pairs)));
    r
}

/// The lift pass: the entries of the document under their full keys, in
/// the order of the source, and the errors among them.
pub fn lift(root: &SyntaxElement) -> (r: (Entries, Vec<Error>))
    ensures
        entries_wf(r.0),
        entries_plain(r.0@),
        below_apart(r.0@),
        errors_wf(r.1@),
        (r.0@, errors_model(r.1@)) == lift_spec(*root),
{
    let mut st = Lifter::new();
    let mut i: usize = 0;
    while i < root.children.len()
        invariant
            i <= root.children.len(),
            st.inv(),
            st@ == lift_children(*root, i as nat),
        decreases root.children.len() - i,
    {
        st = lift_child_step(st, &root.children[i]);
        i += 1;
    }
    let Lifter { entries, prefix, tables, errors } = st;
    let mut errors = errors;
    match first_entry_check(&entries) {
        Some(e) => {
            let ghost before = errors@;
            errors.push(e);
            assert(errors_model(errors@) =~= errors_model(before).push(e@));
        },
        None => {},
    }
    (from_map(entries), errors)
}

} // verus!
