//! The bidirectional maps of the `bimap` crate, as seen by the verified code:
//! the pairs a map holds, and the operations the colour ranking uses.
use vstd::prelude::*;

use bimap::BiHashMap;

verus! {

/// A bidirectional map between indices.
pub type IndexBimap = BiHashMap<usize, usize>;

#[verifier::external_type_specification]
#[verifier::external_body]
#[verifier::reject_recursive_types(L)]
#[verifier::reject_recursive_types(R)]
#[verifier::reject_recursive_types(LS)]
#[verifier::reject_recursive_types(RS)]
pub struct ExBiHashMap<L, R, LS, RS>(BiHashMap<L, R, LS, RS>);

/// The left-right pairs held by a bidirectional map, as a map from each left
/// value to its right value.
pub uninterp spec fn bimap_pairs(m: IndexBimap) -> Map<usize, usize>;

/// The pairs left after inserting `(left, right)`: the pair with left value
/// `left` and the pair with right value `right` are removed, then the new pair
/// is added.
pub open spec fn pairs_after_insert(p: Map<usize, usize>, left: usize, right: usize) -> Map<
    usize,
    usize,
> {
    p.restrict(p.dom().filter(|k: usize| k != left && p[k] != right)).insert(left, right)
}

/// `BiHashMap::new`: the new map holds no pairs.
#[verifier::external_body]
pub(crate) fn bimap_new() -> (res: IndexBimap)
    ensures
        bimap_pairs(res).dom() == Set::<usize>::empty(),
{
    BiHashMap::new()
}

/// `BiHashMap::len`: the number of pairs held.
#[verifier::external_body]
pub(crate) fn bimap_len(m: &IndexBimap) -> (n: usize)
    ensures
        n == bimap_pairs(*m).dom().len(),
{
    m.len()
}

/// `BiHashMap::clear`: afterwards the map holds no pairs.
#[verifier::external_body]
pub(crate) fn bimap_clear(m: &mut IndexBimap)
    ensures
        bimap_pairs(*final(m)).dom() == Set::<usize>::empty(),
{
    m.clear()
}

/// `BiHashMap::get_by_left`: the right value paired with `left`, if any.
#[verifier::external_body]
pub(crate) fn bimap_get_by_left(m: &IndexBimap, left: usize) -> (res: Option<usize>)
    ensures
        res == (if bimap_pairs(*m).contains_key(left) {
            Some(bimap_pairs(*m)[left])
        } else {
            None
        }),
{
    m.get_by_left(&left).copied()
}

/// `BiHashMap::get_by_right`: a left value paired with `right`, or `None`
/// when no pair has the right value `right`.
#[verifier::external_body]
pub(crate) fn bimap_get_by_right(m: &IndexBimap, right: usize) -> (res: Option<usize>)
    ensures
        match res {
            Some(left) => bimap_pairs(*m).contains_key(left) && bimap_pairs(*m)[left] == right,
            None => forall|left: usize| #[trigger]
                bimap_pairs(*m).contains_key(left) ==> bimap_pairs(*m)[left] != right,
        },
{
    m.get_by_right(&right).copied()
}

/// `BiHashMap::insert`: the pairs with left value `left` or right value
/// `right` are removed and `(left, right)` is added. What was overwritten is
/// not returned.
#[verifier::external_body]
pub(crate) fn bimap_insert(m: &mut IndexBimap, left: usize, right: usize)
    ensures
        bimap_pairs(*final(m)) == pairs_after_insert(bimap_pairs(*old(m)), left, right),
{
    m.insert(left, right);
}

} // verus!
