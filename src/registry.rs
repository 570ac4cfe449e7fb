use vstd::prelude::*;
use std::collections::HashMap;
use slab::Slab;

verus! {

broadcast use vstd::std_specs::hash::group_hash_axioms;

#[verifier::external_type_specification]
#[verifier::external_body]
#[verifier::reject_recursive_types(T)]
pub struct ExSlab<T>(Slab<T>);

/// The shards a slab holds: each occupied key with the bindings of the
/// shard stored under it.
pub uninterp spec fn slab_shards(s: Slab<HashMap<u64, String>>) -> Map<usize, Map<u64, String>>;

/// Relies on `Slab::new`: a new slab has no occupied key.
#[verifier::external_body]
pub(crate) fn slab_new() -> (r: Slab<HashMap<u64, String>>)
    ensures
        slab_shards(r).dom().is_empty(),
{
    Slab::new()
}

/// Relies on `Slab::insert`: the value goes under a key that was vacant,
/// and every other key keeps its value.
#[verifier::external_body]
pub(crate) fn slab_insert(s: &mut Slab<HashMap<u64, String>>, shard: HashMap<u64, String>) -> (key: usize)
    ensures
        !slab_shards(*old(s)).contains_key(key),
        slab_shards(*final(s)) == slab_shards(*old(s)).insert(key, shard@),
{
    s.insert(shard)
}

/// Relies on `Slab::remove`: the key becomes vacant and its value is handed
/// back; it panics on a vacant key, which `requires` rules out.
#[verifier::external_body]
pub(crate) fn slab_remove(s: &mut Slab<HashMap<u64, String>>, key: usize) -> (r: HashMap<u64, String>)
    requires
        slab_shards(*old(s)).contains_key(key),
    ensures
        r@ == slab_shards(*old(s))[key],
        slab_shards(*final(s)) == slab_shards(*old(s)).remove(key),
{
    s.remove(key)
}

/// Relies on `Slab`'s `Index`: the value under an occupied key; it panics
/// on a vacant key, which `requires` rules out.
#[verifier::external_body]
pub(crate) fn slab_get(s: &Slab<HashMap<u64, String>>, key: usize) -> (r: &HashMap<u64, String>)
    requires
        slab_shards(*s).contains_key(key),
    ensures
        r@ == slab_shards(*s)[key],
{
    &s[key]
}

/// Relies on `Slab`'s `IndexMut`: a mutable reference to the value under an
/// occupied key, whose final value the slab then holds there; it panics on
/// a vacant key, which `requires` rules out.
#[verifier::external_body]
pub(crate) fn slab_get_mut(s: &mut Slab<HashMap<u64, String>>, key: usize) -> (r: &mut HashMap<u64, String>)
    requires
        slab_shards(*old(s)).contains_key(key),
    ensures
        (*r)@ == slab_shards(*old(s))[key],
        slab_shards(*final(s)) == slab_shards(*old(s)).insert(key, (*final(r))@),
{
    &mut s[key]
}

/// Relies on `Slab::iter`: it visits each occupied key once.
#[verifier::external_body]
pub(crate) fn slab_keys(s: &Slab<HashMap<u64, String>>) -> (r: Vec<usize>)
    ensures
        r@.no_duplicates(),
        forall|i: int| 0 <= i < r@.len() ==> slab_shards(*s).contains_key(#[trigger] r@[i]),
        forall|k: usize| #[trigger] slab_shards(*s).contains_key(k) ==> r@.contains(k),
{
    s.iter().map(|(k, _)| k).collect()
}

} // verus!
