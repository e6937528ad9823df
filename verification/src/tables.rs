//! The two hash maps the collider builder works with.
//!
//! Both are `bevy::utils::HashMap`s, which are the `HashMap` of `hashbrown`
//! with a hasher of `ahash`. That type has an allocator parameter whose
//! trait cannot be named from here, so it cannot be declared to the verifier;
//! each map is kept in a struct that the verifier does not look into. Every
//! function in this file makes one call of the map and states what that
//! call does to the entries of the map, as the documentation of `hashbrown`
//! has it. These statements are taken on trust.
//!
//! The keys are tuples of integers: their equality and their hash are those
//! of the standard library.

use crate::rect::Rect;
use vstd::prelude::*;

verus! {

/// Wall markers of one level region: marker kind by cell `(x, y)`.
#[verifier::external_body]
pub struct MarkerMap {
    inner: bevy::utils::HashMap<(u32, u32), i32>,
}

/// The entries that a [`MarkerMap`] holds.
pub uninterp spec fn marker_entries(map: MarkerMap) -> Map<(u32, u32), i32>;

/// Calls `hashbrown::HashMap::new`: the new map has no entry.
#[verifier::external_body]
pub(crate) fn marker_map_new() -> (map: MarkerMap)
    ensures
        marker_entries(map) == (Map::<(u32, u32), i32>::empty()),
{
    MarkerMap { inner: bevy::utils::HashMap::new() }
}

/// Calls `hashbrown::HashMap::insert` with the key `(x, y)`: afterwards the
/// key maps to `kind` and every other entry is as before; the value that the
/// key had before, if any, is returned.
#[verifier::external_body]
pub(crate) fn marker_map_insert(map: &mut MarkerMap, x: u32, y: u32, kind: i32) -> (previous:
    Option<i32>)
    ensures
        marker_entries(*final(map)) == marker_entries(*old(map)).insert((x, y), kind),
        previous == (if marker_entries(*old(map)).contains_key((x, y)) {
            Some(marker_entries(*old(map))[(x, y)])
        } else {
            None
        }),
{
    map.inner.insert((x, y), kind)
}

/// Calls `hashbrown::HashMap::get` with the key `(x, y)` and copies the
/// value out: the value of the key if the map has it, else `None`.
#[verifier::external_body]
pub(crate) fn marker_map_get(map: &MarkerMap, x: u32, y: u32) -> (found: Option<i32>)
    ensures
        found == (if marker_entries(*map).contains_key((x, y)) {
            Some(marker_entries(*map)[(x, y)])
        } else {
            None
        }),
{
    map.inner.get(&(x, y)).copied()
}

/// Rectangles still growing while rows are stacked, by the run
/// `(left, right, kind)` that each of them repeats.
#[verifier::external_body]
pub struct OpenMap {
    inner: bevy::utils::HashMap<(u32, u32, i32), Rect>,
}

/// The entries that an [`OpenMap`] holds.
pub uninterp spec fn open_entries(map: OpenMap) -> Map<(u32, u32, i32), Rect>;

/// Calls `hashbrown::HashMap::new`: the new map has no entry.
#[verifier::external_body]
pub(crate) fn open_map_new() -> (map: OpenMap)
    ensures
        open_entries(map) == (Map::<(u32, u32, i32), Rect>::empty()),
{
    OpenMap { inner: bevy::utils::HashMap::new() }
}

/// Calls `hashbrown::HashMap::get` and copies the value out: the value of
/// `key` if the map has it, else `None`.
#[verifier::external_body]
pub(crate) fn open_map_get(map: &OpenMap, key: (u32, u32, i32)) -> (found: Option<Rect>)
    ensures
        found == (if open_entries(*map).contains_key(key) {
            Some(open_entries(*map)[key])
        } else {
            None
        }),
{
    map.inner.get(&key).copied()
}

/// Calls `hashbrown::HashMap::insert`: afterwards `key` maps to `rect` and
/// every other entry is as before; the value that `key` had before, if any,
/// is returned.
#[verifier::external_body]
pub(crate) fn open_map_insert(map: &mut OpenMap, key: (u32, u32, i32), rect: Rect) -> (previous:
    Option<Rect>)
    ensures
        open_entries(*final(map)) == open_entries(*old(map)).insert(key, rect),
        previous == (if open_entries(*old(map)).contains_key(key) {
            Some(open_entries(*old(map))[key])
        } else {
            None
        }),
{
    map.inner.insert(key, rect)
}

/// Calls `hashbrown::HashMap::remove`: afterwards the map has no entry for
/// `key` and every other entry is as before; the value that `key` had, if
/// any, is returned.
#[verifier::external_body]
pub(crate) fn open_map_remove(map: &mut OpenMap, key: (u32, u32, i32)) -> (removed: Option<Rect>)
    ensures
        open_entries(*final(map)) == open_entries(*old(map)).remove(key),
        removed == (if open_entries(*old(map)).contains_key(key) {
            Some(open_entries(*old(map))[key])
        } else {
            None
        }),
{
    map.inner.remove(&key)
}

} // verus!
