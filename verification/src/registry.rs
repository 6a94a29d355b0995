//! The ordered mod registry is an `indexmap::IndexMap` from mod name to
//! [`ManagedMod`](crate::game::ManagedMod); its sequence order is the load
//! order.  Verified code sees the map only through `registry_entries`, the
//! sequence of its entries in order, and the small trusted operations below.
//!
//! Every operation that adds a key requires the key to be absent, so callers
//! keep the registry's keys provably distinct without relying on hashing.

use vstd::prelude::*;

use crate::game::ManagedMod;
use indexmap::IndexMap;
use std::collections::hash_map::RandomState;

verus! {

/// `indexmap::IndexMap`, declared so that it can stand in fields and
/// signatures; its contents are visible only through `registry_entries`.
#[verifier::external_type_specification]
#[verifier::external_body]
#[verifier::reject_recursive_types(K)]
#[verifier::reject_recursive_types(V)]
#[verifier::reject_recursive_types(S)]
pub struct ExIndexMap<K, V, S>(IndexMap<K, V, S>);

/// The entries of the registry, in load order.
pub uninterp spec fn registry_entries(m: IndexMap<String, ManagedMod, RandomState>) -> Seq<
    (String, ManagedMod),
>;

/// Relies on `IndexMap::new`: a new map is empty.
#[verifier::external_body]
pub(crate) fn reg_new() -> (r: IndexMap<String, ManagedMod, RandomState>)
    ensures
        registry_entries(r) == Seq::<(String, ManagedMod)>::empty(),
{
    IndexMap::new()
}

/// Relies on `IndexMap::len`: the number of entries.
#[verifier::external_body]
pub(crate) fn reg_len(m: &IndexMap<String, ManagedMod, RandomState>) -> (r: usize)
    ensures
        r == registry_entries(*m).len(),
{
    m.len()
}

/// Relies on `IndexMap::get_index`: the pair at a position, here cloned.
/// The clone's strings equal the stored ones; of the parts only the view is
/// claimed, since the copy is a fresh vector.
#[verifier::external_body]
pub(crate) fn reg_entry_at(m: &IndexMap<String, ManagedMod, RandomState>, i: usize) -> (r: (
    String,
    ManagedMod,
))
    requires
        i < registry_entries(*m).len(),
    ensures
        r.0 == registry_entries(*m)[i as int].0,
        r.1.enabled == registry_entries(*m)[i as int].1.enabled,
        r.1.extracted == registry_entries(*m)[i as int].1.extracted,
        r.1.archive == registry_entries(*m)[i as int].1.archive,
        r.1.parts@ == registry_entries(*m)[i as int].1.parts@,
{
    let (k, v) = m.get_index(i).unwrap();
    (k.clone(), v.clone())
}

/// Relies on `IndexMap::get_index_mut`: sets the enable flag of the value at
/// a position in place, leaving everything else unchanged.
#[verifier::external_body]
pub(crate) fn reg_set_enabled_at(
    m: &mut IndexMap<String, ManagedMod, RandomState>,
    i: usize,
    enabled: bool,
)
    requires
        i < registry_entries(*old(m)).len(),
    ensures
        registry_entries(*final(m)) == registry_entries(*old(m)).update(
            i as int,
            (
                registry_entries(*old(m))[i as int].0,
                crate::game::with_enabled(registry_entries(*old(m))[i as int].1, enabled),
            ),
        ),
{
    if let Some((_, v)) = m.get_index_mut(i) {
        v.enabled = enabled;
    }
}

/// Relies on `IndexMap::get_index_mut`: disables the value at a position and
/// clears its extraction record in place, leaving everything else unchanged.
#[verifier::external_body]
pub(crate) fn reg_mark_uninstalled_at(m: &mut IndexMap<String, ManagedMod, RandomState>, i: usize)
    requires
        i < registry_entries(*old(m)).len(),
    ensures
        registry_entries(*final(m)) == registry_entries(*old(m)).update(
            i as int,
            (
                registry_entries(*old(m))[i as int].0,
                crate::game::uninstalled(registry_entries(*old(m))[i as int].1),
            ),
        ),
{
    if let Some((_, v)) = m.get_index_mut(i) {
        v.enabled = false;
        v.extracted = None;
    }
}

/// Relies on `IndexMap::insert`: with no equivalent key present, the new pair
/// is appended last in order.
#[verifier::external_body]
pub(crate) fn reg_push(
    m: &mut IndexMap<String, ManagedMod, RandomState>,
    name: String,
    mm: ManagedMod,
)
    requires
        forall|j: int|
            0 <= j < registry_entries(*old(m)).len() ==> #[trigger] registry_entries(
                *old(m),
            )[j].0@ != name@,
    ensures
        registry_entries(*final(m)) == registry_entries(*old(m)).push((name, mm)),
{
    m.insert(name, mm);
}

/// Relies on `IndexMap::shift_insert`: with no equivalent key present, the
/// new pair is inserted at the position, shifting the pairs that follow.
#[verifier::external_body]
pub(crate) fn reg_shift_insert(
    m: &mut IndexMap<String, ManagedMod, RandomState>,
    i: usize,
    name: String,
    mm: ManagedMod,
)
    requires
        i <= registry_entries(*old(m)).len(),
        forall|j: int|
            0 <= j < registry_entries(*old(m)).len() ==> #[trigger] registry_entries(
                *old(m),
            )[j].0@ != name@,
    ensures
        registry_entries(*final(m)) == registry_entries(*old(m)).insert(i as int, (name, mm)),
{
    m.shift_insert(i, name, mm);
}

/// Relies on `IndexMap::shift_remove_index`: removes the pair at the
/// position, shifting the pairs that follow and preserving their order.
#[verifier::external_body]
pub(crate) fn reg_shift_remove_at(m: &mut IndexMap<String, ManagedMod, RandomState>, i: usize) -> (r:
    (String, ManagedMod))
    requires
        i < registry_entries(*old(m)).len(),
    ensures
        registry_entries(*final(m)) == registry_entries(*old(m)).remove(i as int),
        r == registry_entries(*old(m))[i as int],
{
    m.shift_remove_index(i).unwrap()
}

/// Relies on `IndexMap::clear`: removes every entry.
#[verifier::external_body]
pub(crate) fn reg_clear(m: &mut IndexMap<String, ManagedMod, RandomState>)
    ensures
        registry_entries(*final(m)) == Seq::<(String, ManagedMod)>::empty(),
{
    m.clear();
}

} // verus!
