//! The table of drawn strokes, kept in the engine's hash map.
//!
//! `bevy::utils::HashMap` is hashbrown's `HashMap` with a fixed hasher. Verus
//! cannot look inside it, so this file states, without proof, what each map
//! operation used here does to the table's contents. The rest of the crate
//! reasons from these statements alone.

use vstd::prelude::*;
use crate::geometry::Point;

verus! {

/// Strokes by handle, stored in a `bevy::utils::HashMap`. Nothing is known
/// of a table but what `table_strokes` says it holds.
#[verifier::external_body]
pub struct StrokeTable {
    map: bevy::utils::HashMap<u64, Vec<Point>>,
}

/// The strokes a table holds: each live handle with its points in drawing
/// order.
pub uninterp spec fn table_strokes(table: StrokeTable) -> Map<u64, Seq<Point>>;

/// `HashMap::default`: the new map has no entries.
#[verifier::external_body]
pub(crate) fn table_new() -> (table: StrokeTable)
    ensures
        forall|id: u64| !table_strokes(table).contains_key(id),
{
    StrokeTable { map: bevy::utils::HashMap::default() }
}

/// `HashMap::insert`: afterwards `id` maps to `points`, every other entry is
/// as before. A value previously stored under `id` is dropped.
#[verifier::external_body]
pub(crate) fn table_insert(table: &mut StrokeTable, id: u64, points: Vec<Point>)
    ensures
        table_strokes(*final(table)) == table_strokes(*old(table)).insert(id, points@),
{
    table.map.insert(id, points);
}

/// `HashMap::remove`: afterwards `id` has no entry, every other entry is as
/// before; the removed points are returned when there were any.
#[verifier::external_body]
pub(crate) fn table_remove(table: &mut StrokeTable, id: u64) -> (removed: Option<Vec<Point>>)
    ensures
        table_strokes(*final(table)) == table_strokes(*old(table)).remove(id),
        removed is Some == table_strokes(*old(table)).contains_key(id),
        removed is Some ==> removed->0@ == table_strokes(*old(table))[id],
{
    table.map.remove(&id)
}

/// `HashMap::get`: returns the points stored under `id` exactly when `id`
/// has an entry.
#[verifier::external_body]
pub(crate) fn table_get(table: &StrokeTable, id: u64) -> (found: Option<&Vec<Point>>)
    ensures
        found is Some == table_strokes(*table).contains_key(id),
        found is Some ==> found->0@ == table_strokes(*table)[id],
{
    table.map.get(&id)
}

/// `HashMap::get_mut`: a mutable borrow of the points stored under `id`, if
/// it has an entry. Whatever the borrower leaves there is what `id` maps to
/// afterwards; no other entry changes.
#[verifier::external_body]
pub(crate) fn table_get_mut(table: &mut StrokeTable, id: u64) -> (found: Option<&mut Vec<Point>>)
    ensures
        found is Some == table_strokes(*old(table)).contains_key(id),
        found is None ==> table_strokes(*final(table)) == table_strokes(*old(table)),
        found is Some ==> found->0@ == table_strokes(*old(table))[id]
            && table_strokes(*final(table)) == table_strokes(*old(table)).insert(
            id,
            final(found->0)@,
        ),
{
    table.map.get_mut(&id)
}

/// `HashMap::keys`, copied into a vector: every handle that has an entry,
/// exactly once. The order is the one in which the map happens to walk its
/// entries; nothing is claimed of it.
#[verifier::external_body]
pub(crate) fn table_ids(table: &StrokeTable) -> (ids: Vec<u64>)
    ensures
        ids@.no_duplicates(),
        forall|id: u64| ids@.contains(id) <==> table_strokes(*table).contains_key(id),
{
    table.map.keys().copied().collect()
}

/// `HashMap::clear`: afterwards the table has no entries.
#[verifier::external_body]
pub(crate) fn table_clear(table: &mut StrokeTable)
    ensures
        forall|id: u64| !table_strokes(*final(table)).contains_key(id),
{
    table.map.clear();
}

} // verus!
