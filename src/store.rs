//! The persistent maps that hold a board, from the `im` crate.
use vstd::prelude::*;

use crate::actor::Actor;

verus! {

#[verifier::external_type_specification]
#[verifier::external_body]
#[verifier::reject_recursive_types(K)]
#[verifier::reject_recursive_types(V)]
#[verifier::reject_recursive_types(S)]
pub struct ExImHashMap<K, V, S>(im::HashMap<K, V, S>);

/// What an actor table holds: actor ids to actors.
pub uninterp spec fn actor_entries(m: im::HashMap<usize, Actor>) -> Map<usize, Actor>;

/// What a cell index holds: positions `(x, y)` to actor ids.
pub uninterp spec fn cell_entries(m: im::HashMap<(i32, i32), usize>) -> Map<(i32, i32), usize>;

/// Relies on im::HashMap::new: it makes an empty map.
#[verifier::external_body]
pub(crate) fn actor_table_new() -> (r: im::HashMap<usize, Actor>)
    ensures
        actor_entries(r).dom().is_empty(),
{
    im::HashMap::new()
}

/// Relies on im::HashMap::get: the value stored under the key, if any.
#[verifier::external_body]
pub(crate) fn actor_table_get<'a>(m: &'a im::HashMap<usize, Actor>, k: usize) -> (r: Option<&'a Actor>)
    ensures
        r is Some <==> actor_entries(*m).contains_key(k),
        r is Some ==> *r->0 == actor_entries(*m)[k],
{
    m.get(&k)
}

/// Relies on im::HashMap::insert: the key maps to the value afterwards, and
/// every other key keeps its value.
#[verifier::external_body]
pub(crate) fn actor_table_insert(m: &mut im::HashMap<usize, Actor>, k: usize, v: Actor)
    ensures
        actor_entries(*final(m)) == actor_entries(*old(m)).insert(k, v),
{
    m.insert(k, v);
}

/// Relies on im::HashMap::keys: each key of the map comes out once, in some order.
#[verifier::external_body]
pub(crate) fn actor_table_keys(m: &im::HashMap<usize, Actor>) -> (r: Vec<usize>)
    ensures
        r@.no_duplicates(),
        r@.to_set() == actor_entries(*m).dom(),
{
    m.keys().copied().collect()
}

/// Relies on im::HashMap's Clone: the copy holds the same entries.
#[verifier::external_body]
pub(crate) fn actor_table_clone(m: &im::HashMap<usize, Actor>) -> (r: im::HashMap<usize, Actor>)
    ensures
        actor_entries(r) == actor_entries(*m),
{
    m.clone()
}

/// Relies on im::HashMap::new: it makes an empty map.
#[verifier::external_body]
pub(crate) fn cell_index_new() -> (r: im::HashMap<(i32, i32), usize>)
    ensures
        cell_entries(r).dom().is_empty(),
{
    im::HashMap::new()
}

/// Relies on im::HashMap::get: the value stored under the key, if any.
#[verifier::external_body]
pub(crate) fn cell_index_get(m: &im::HashMap<(i32, i32), usize>, k: (i32, i32)) -> (r: Option<usize>)
    ensures
        r is Some <==> cell_entries(*m).contains_key(k),
        r is Some ==> r->0 == cell_entries(*m)[k],
{
    m.get(&k).copied()
}

/// Relies on im::HashMap::insert: the key maps to the value afterwards, and
/// every other key keeps its value.
#[verifier::external_body]
pub(crate) fn cell_index_insert(m: &mut im::HashMap<(i32, i32), usize>, k: (i32, i32), v: usize)
    ensures
        cell_entries(*final(m)) == cell_entries(*old(m)).insert(k, v),
{
    m.insert(k, v);
}

/// Relies on im::HashMap::remove: the key is gone afterwards, and every other
/// key keeps its value.
#[verifier::external_body]
pub(crate) fn cell_index_remove(m: &mut im::HashMap<(i32, i32), usize>, k: (i32, i32))
    ensures
        cell_entries(*final(m)) == cell_entries(*old(m)).remove(k),
{
    m.remove(&k);
}

/// Relies on im::HashMap's Clone: the copy holds the same entries.
#[verifier::external_body]
pub(crate) fn cell_index_clone(m: &im::HashMap<(i32, i32), usize>) -> (r: im::HashMap<(i32, i32), usize>)
    ensures
        cell_entries(r) == cell_entries(*m),
{
    m.clone()
}

} // verus!
