//! The flat, ordered collection of entries that the lift pass fills: every
//! entry under its full key, in the order of the source.

use vstd::prelude::*;
use indexmap::IndexMap;
use crate::key::{strings_of, Key, KeyNode};
use crate::merge::value_apart;
use crate::node::{entry_wf, value_plain, Entry, EntryNode};

verus! {

/// `indexmap::IndexMap`, a hash map that keeps its pairs in the order in
/// which they were put in. Its inside is not seen here: what it holds is
/// named by [`flat_pairs`], and the functions below say what each call does
/// to that.
#[verifier::external_type_specification]
#[verifier::external_body]
#[verifier::reject_recursive_types(K)]
#[verifier::reject_recursive_types(V)]
#[verifier::reject_recursive_types(S)]
pub struct ExIndexMap<K, V, S>(IndexMap<K, V, S>);

/// One entry of the flat collection.
#[derive(Debug)]
pub struct FlatItem {
    /// The full key of the entry: the key of its table, then its own.
    pub key: KeyNode,
    pub entry: EntryNode,
    /// The key of the table that the entry stands in; a header has none.
    pub prefix: Option<KeyNode>,
}

/// The mathematical value of a [`FlatItem`].
pub ghost struct Flat {
    pub key: Key,
    pub entry: Entry,
    pub prefix: Option<Key>,
}

/// The view of an optional key.
pub open spec fn key_opt(k: Option<KeyNode>) -> Option<Key> {
    match k {
        Some(k) => Some(k@),
        None => None,
    }
}

impl View for FlatItem {
    type V = Flat;

    open spec fn view(&self) -> Flat {
        Flat { key: self.key@, entry: self.entry@, prefix: key_opt(self.prefix) }
    }
}

impl FlatItem {
    /// The keys of the item have proper windows of identifiers, and its
    /// value is as it was lifted: no table in it was made from dotted keys,
    /// and none but the inline tables has an entry.
    pub open spec fn wf(&self) -> bool {
        &&& self.key.wf()
        &&& entry_wf(self.entry)
        &&& value_plain(self.entry@.value)
        &&& value_apart(self.entry@.value)
        &&& self.prefix matches Some(p) ==> p.wf()
    }
}

/// What an `IndexMap` holds: its pairs in their order, each key by the
/// strings and the number that it is compared by.
pub uninterp spec fn flat_pairs(m: IndexMap<(Vec<String>, usize), FlatItem>) -> Seq<
    ((Seq<Seq<char>>, usize), FlatItem),
>;

/// What a key of the map is compared by.
pub open spec fn id_of(k: (Vec<String>, usize)) -> (Seq<Seq<char>>, usize) {
    (strings_of(k.0@), k.1)
}

/// Calls `IndexMap::new`: a map that holds nothing.
#[verifier::external_body]
pub(crate) fn map_new() -> (m: IndexMap<(Vec<String>, usize), FlatItem>)
    ensures
        flat_pairs(m) == Seq::<((Seq<Seq<char>>, usize), FlatItem)>::empty(),
{
    IndexMap::new()
}

/// Calls `IndexMap::len`: the number of pairs.
#[verifier::external_body]
pub(crate) fn map_len(m: &IndexMap<(Vec<String>, usize), FlatItem>) -> (n: usize)
    ensures
        n == flat_pairs(*m).len(),
{
    m.len()
}

/// Calls `IndexMap::get_index`: the value of the pair at position `i`, and
/// `None` past the end.
#[verifier::external_body]
pub(crate) fn map_get_index(m: &IndexMap<(Vec<String>, usize), FlatItem>, i: usize) -> (r: Option<
    &FlatItem,
>)
    ensures
        match r {
            Some(v) => i < flat_pairs(*m).len() && *v == flat_pairs(*m)[i as int].1,
            None => i >= flat_pairs(*m).len(),
        },
{
    m.get_index(i).map(|(_, v)| v)
}

/// Calls `IndexMap::get`: the value of a pair with an equal key, and `None`
/// where no pair has one.
#[verifier::external_body]
pub(crate) fn map_get<'a>(
    m: &'a IndexMap<(Vec<String>, usize), FlatItem>,
    k: &(Vec<String>, usize),
) -> (r: Option<&'a FlatItem>)
    ensures
        match r {
            Some(v) => exists|i: int|
                0 <= i < flat_pairs(*m).len() && (#[trigger] flat_pairs(*m)[i]).0 == id_of(*k)
                    && flat_pairs(*m)[i].1 == *v,
            None => forall|i: int|
                0 <= i < flat_pairs(*m).len() ==> (#[trigger] flat_pairs(*m)[i]).0 != id_of(*k),
        },
{
    m.get(k)
}

/// Calls `IndexMap::insert`: where a pair has an equal key, its value is
/// replaced and it keeps its place; where none has, the pair is added last.
#[verifier::external_body]
pub(crate) fn map_insert(
    m: &mut IndexMap<(Vec<String>, usize), FlatItem>,
    k: (Vec<String>, usize),
    v: FlatItem,
)
    ensures
        (forall|i: int|
            0 <= i < flat_pairs(*old(m)).len() ==> (#[trigger] flat_pairs(*old(m))[i]).0 != id_of(
                k,
            )) ==> flat_pairs(*final(m)) == flat_pairs(*old(m)).push((id_of(k), v)),
        (exists|i: int|
            0 <= i < flat_pairs(*old(m)).len() && (#[trigger] flat_pairs(*old(m))[i]).0 == id_of(
                k,
            )) ==> exists|i: int|
            0 <= i < flat_pairs(*old(m)).len() && (#[trigger] flat_pairs(*old(m))[i]).0 == id_of(k)
                && flat_pairs(*final(m)) == flat_pairs(*old(m)).update(i, (id_of(k), v)),
{
    m.insert(k, v);
}

/// Calls `IndexMap::into_values`: the values of the pairs, in their order.
#[verifier::external_body]
pub(crate) fn map_into_values(m: IndexMap<(Vec<String>, usize), FlatItem>) -> (r: Vec<FlatItem>)
    ensures
        r@ == flat_pairs(m).map_values(|p: ((Seq<Seq<char>>, usize), FlatItem)| p.1),
{
    m.into_values().collect()
}

} // verus!
