use vstd::prelude::*;
use vec_map::VecMap;

verus! {

#[verifier::external_type_specification]
#[verifier::external_body]
#[verifier::reject_recursive_types(V)]
pub struct ExVecMap<V>(VecMap<V>);

/// What a bucket map holds: for each occupied bucket index, the positions
/// (into the sorted entry vector) of the entries that fell into that bucket.
pub uninterp spec fn vm_view(m: VecMap<Vec<usize>>) -> Map<int, Seq<usize>>;

/// The contents of a map with no keys.
pub open spec fn vm_empty_view() -> Map<int, Seq<usize>> {
    Map::empty()
}

/// Relies on vec_map::VecMap::new: the new map holds no keys.
#[verifier::external_body]
pub(crate) fn vm_new() -> (r: VecMap<Vec<usize>>)
    ensures
        vm_view(r) == vm_empty_view(),
{
    VecMap::new()
}

/// Relies on vec_map::VecMap::insert: the value is stored under the key,
/// replacing whatever was there before.  The map grows to `key + 1` slots,
/// so the largest key is excluded and storage is proportional to the key.
#[verifier::external_body]
pub(crate) fn vm_insert(m: &mut VecMap<Vec<usize>>, key: usize, value: Vec<usize>)
    requires
        key < usize::MAX,
    ensures
        vm_view(*final(m)) == vm_view(*old(m)).insert(key as int, value@),
{
    m.insert(key, value);
}

/// Relies on vec_map::VecMap::remove: takes the value at the key out of the
/// map and hands it back, or returns `None` when the key is unoccupied.
#[verifier::external_body]
pub(crate) fn vm_remove(m: &mut VecMap<Vec<usize>>, key: usize) -> (r: Option<Vec<usize>>)
    ensures
        vm_view(*old(m)).dom().contains(key as int) ==> {
            &&& r matches Some(v) && v@ == vm_view(*old(m))[key as int]
            &&& vm_view(*final(m)) == vm_view(*old(m)).remove(key as int)
        },
        !vm_view(*old(m)).dom().contains(key as int) ==> {
            &&& r is None
            &&& vm_view(*final(m)) == vm_view(*old(m))
        },
{
    m.remove(key)
}

} // verus!
