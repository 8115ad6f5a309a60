//! The ordered map from tab identifiers to tabs, as the `indexmap` crate
//! provides it. Its contents are named by `tab_entries`: the entries in their
//! order, each as its key, the tab's identifier and the tab's title.

use indexmap::IndexMap;
use vstd::prelude::*;

use crate::model::Tab;

verus! {

#[verifier::external_type_specification]
#[verifier::external_body]
#[verifier::reject_recursive_types(K)]
#[verifier::reject_recursive_types(V)]
#[verifier::reject_recursive_types(S)]
pub struct ExIndexMap<K, V, S>(IndexMap<K, V, S>);

/// The entries of an ordered tab map, in order: key, tab identifier, tab title.
pub uninterp spec fn tab_entries(m: IndexMap<String, Tab>) -> Seq<(Seq<char>, Seq<char>, Seq<char>)>;

/// How one stored key and tab appear among the entries.
pub open spec fn entry_of(k: String, v: Tab) -> (Seq<char>, Seq<char>, Seq<char>) {
    (k@, v.id@, v.title@)
}

/// `IndexMap::new`: a map with no entries.
#[verifier::external_body]
pub(crate) fn tab_map_new() -> (m: IndexMap<String, Tab>)
    ensures
        tab_entries(m) == Seq::<(Seq<char>, Seq<char>, Seq<char>)>::empty(),
{
    IndexMap::new()
}

/// `IndexMap::len`: the number of entries.
#[verifier::external_body]
pub(crate) fn tab_map_len(m: &IndexMap<String, Tab>) -> (n: usize)
    ensures
        n == tab_entries(*m).len(),
{
    m.len()
}

/// `IndexMap::get_full`: the position, key and tab of the entry whose key
/// equals `key`, or `None` where no entry has that key.
#[verifier::external_body]
pub(crate) fn tab_map_get_full<'a>(m: &'a IndexMap<String, Tab>, key: &str) -> (r: Option<(usize, &'a String, &'a Tab)>)
    ensures
        match r {
            Some((i, k, v)) => {
                &&& i < tab_entries(*m).len()
                &&& tab_entries(*m)[i as int] == entry_of(*k, *v)
                &&& k@ == key@
            },
            None => forall|j: int| 0 <= j < tab_entries(*m).len() ==> tab_entries(*m)[j].0 != key@,
        },
{
    m.get_full(key)
}

/// `IndexMap::get_index`: the key and tab at position `i`, present exactly
/// when `i` is below the number of entries.
#[verifier::external_body]
pub(crate) fn tab_map_get_index<'a>(m: &'a IndexMap<String, Tab>, i: usize) -> (r: Option<(&'a String, &'a Tab)>)
    ensures
        i < tab_entries(*m).len() <==> r is Some,
        match r {
            Some((k, v)) => tab_entries(*m)[i as int] == entry_of(*k, *v),
            None => true,
        },
{
    m.get_index(i)
}

/// `IndexMap::insert_full`: where an entry has the key, its tab is replaced in
/// place and the old tab returned with its position; otherwise the entry is
/// appended last and its position returned.
#[verifier::external_body]
pub(crate) fn tab_map_insert_full(m: &mut IndexMap<String, Tab>, key: String, value: Tab) -> (r: (usize, Option<Tab>))
    ensures
        match r.1 {
            Some(old_v) => {
                &&& r.0 < tab_entries(*old(m)).len()
                &&& tab_entries(*old(m))[r.0 as int] == entry_of(key, old_v)
                &&& tab_entries(*final(m)) == tab_entries(*old(m)).update(r.0 as int, entry_of(key, value))
            },
            None => {
                &&& r.0 == tab_entries(*old(m)).len()
                &&& forall|j: int| 0 <= j < tab_entries(*old(m)).len() ==> tab_entries(*old(m))[j].0 != key@
                &&& tab_entries(*final(m)) == tab_entries(*old(m)).push(entry_of(key, value))
            },
        },
{
    m.insert_full(key, value)
}

/// `IndexMap::shift_remove_full`: removes the entry whose key equals `key`,
/// shifting the later entries down, and returns its position, key and tab;
/// `None`, with the map unchanged, where no entry has that key.
#[verifier::external_body]
pub(crate) fn tab_map_shift_remove_full(m: &mut IndexMap<String, Tab>, key: &str) -> (r: Option<(usize, String, Tab)>)
    ensures
        match r {
            Some((i, k, v)) => {
                &&& i < tab_entries(*old(m)).len()
                &&& tab_entries(*old(m))[i as int] == entry_of(k, v)
                &&& k@ == key@
                &&& tab_entries(*final(m)) == tab_entries(*old(m)).remove(i as int)
            },
            None => {
                &&& forall|j: int| 0 <= j < tab_entries(*old(m)).len() ==> tab_entries(*old(m))[j].0 != key@
                &&& tab_entries(*final(m)) == tab_entries(*old(m))
            },
        },
{
    m.shift_remove_full(key)
}

/// `IndexMap::clear`: removes every entry.
#[verifier::external_body]
pub(crate) fn tab_map_clear(m: &mut IndexMap<String, Tab>)
    ensures
        tab_entries(*final(m)) == Seq::<(Seq<char>, Seq<char>, Seq<char>)>::empty(),
{
    m.clear()
}

} // verus!
