//! The sparse store of cells: a hash map with the FNV hasher, keyed by cell
//! coordinates. The map's contents are spoken of through its view, a
//! mathematical map from coordinates to cells. Nothing here is proved: each
//! function states what the map's method does to that view.

use vstd::prelude::*;
use fnv::FnvHashMap;
use crate::pixel::Pixel;

verus! {

/// `fnv::FnvHasher`, the hasher of the store: carried, never looked into.
#[verifier::external_type_specification]
#[verifier::external_body]
pub struct ExFnvHasher(fnv::FnvHasher);

/// `std::hash::BuildHasherDefault`, which makes the store's hashers:
/// carried, never looked into.
#[verifier::external_type_specification]
#[verifier::external_body]
#[verifier::reject_recursive_types(H)]
pub struct ExBuildHasherDefault<H>(std::hash::BuildHasherDefault<H>);

/// The store without any cell.
pub open spec fn no_cells() -> Map<(u16, u16), Pixel> {
    Map::empty()
}

/// `FnvHashMap::default`: a map that holds nothing.
#[verifier::external_body]
pub(crate) fn empty_cells() -> (m: FnvHashMap<(u16, u16), Pixel>)
    ensures
        m@ == no_cells(),
{
    FnvHashMap::default()
}

/// `HashMap::clear`: afterwards the map holds nothing.
#[verifier::external_body]
pub(crate) fn clear_cells(m: &mut FnvHashMap<(u16, u16), Pixel>)
    ensures
        final(m)@ == no_cells(),
{
    m.clear();
}

/// `HashMap::get`: the cell stored under `key`, if there is one.
#[verifier::external_body]
pub(crate) fn cell_at<'a>(m: &'a FnvHashMap<(u16, u16), Pixel>, key: (u16, u16)) -> (r: Option<
    &'a Pixel,
>)
    ensures
        match r {
            Some(p) => m@.contains_key(key) && *p == m@[key],
            None => !m@.contains_key(key),
        },
{
    m.get(&key)
}

/// `HashMap::remove`: takes out and returns the cell stored under `key`, if
/// there is one; the other entries stay.
#[verifier::external_body]
pub(crate) fn take_cell(m: &mut FnvHashMap<(u16, u16), Pixel>, key: (u16, u16)) -> (r: Option<
    Pixel,
>)
    ensures
        final(m)@ == old(m)@.remove(key),
        match r {
            Some(p) => old(m)@.contains_key(key) && p == old(m)@[key],
            None => !old(m)@.contains_key(key),
        },
{
    m.remove(&key)
}

/// `HashMap::insert`: stores the cell under `key`, in place of what was
/// there; the other entries stay.
#[verifier::external_body]
pub(crate) fn put_cell(m: &mut FnvHashMap<(u16, u16), Pixel>, key: (u16, u16), cell: Pixel)
    ensures
        final(m)@ == old(m)@.insert(key, cell),
{
    m.insert(key, cell);
}

/// `HashMap::keys`: the coordinates that hold a cell, in no particular
/// order.
#[verifier::external_body]
pub(crate) fn cell_keys(m: &FnvHashMap<(u16, u16), Pixel>) -> (keys: Vec<(u16, u16)>)
    ensures
        forall|k: (u16, u16)| keys@.contains(k) <==> #[trigger] m@.contains_key(k),
{
    m.keys().copied().collect()
}

} // verus!
