//! Trusted boundary around the roaring bitmap type that the index
//! store trades in. Contracts speak of a bitmap through `rb_contents`,
//! the set of values it holds.

use vstd::prelude::*;

verus! {

#[verifier::external_type_specification]
#[verifier::external_body]
pub struct ExRoaringBitmap(roaring::RoaringBitmap);

/// The set of values a roaring bitmap holds.
pub uninterp spec fn rb_contents(b: roaring::RoaringBitmap) -> Set<u32>;

/// Relies on roaring::RoaringBitmap::new: a fresh bitmap is empty.
#[verifier::external_body]
pub fn rb_new() -> (r: roaring::RoaringBitmap)
    ensures
        rb_contents(r) == Set::<u32>::empty(),
        rb_contents(r).finite(),
{
    roaring::RoaringBitmap::new()
}

/// Relies on roaring::RoaringBitmap::insert: adds the value to the set.
#[verifier::external_body]
pub fn rb_insert(b: &mut roaring::RoaringBitmap, v: u32)
    ensures
        rb_contents(*final(b)) == rb_contents(*old(b)).insert(v),
        rb_contents(*final(b)).finite(),
{
    b.insert(v);
}

/// Relies on roaring::RoaringBitmap::contains.
#[verifier::external_body]
pub fn rb_contains(b: &roaring::RoaringBitmap, v: u32) -> (r: bool)
    ensures
        r == rb_contents(*b).contains(v),
{
    b.contains(v)
}

/// Relies on roaring::RoaringBitmap::len: the number of stored values.
#[verifier::external_body]
pub fn rb_len(b: &roaring::RoaringBitmap) -> (r: u64)
    ensures
        r == rb_contents(*b).len(),
{
    b.len()
}

/// Relies on roaring::RoaringBitmap::is_empty.
#[verifier::external_body]
pub fn rb_is_empty(b: &roaring::RoaringBitmap) -> (r: bool)
    ensures
        r == (rb_contents(*b) == Set::<u32>::empty()),
{
    b.is_empty()
}

/// Relies on roaring's BitAndAssign: set intersection.
#[verifier::external_body]
pub fn rb_and_assign(a: &mut roaring::RoaringBitmap, b: &roaring::RoaringBitmap)
    ensures
        rb_contents(*final(a)) == rb_contents(*old(a)).intersect(rb_contents(*b)),
        rb_contents(*final(a)).finite(),
{
    *a &= b;
}

/// Relies on roaring's BitOrAssign: set union.
#[verifier::external_body]
pub fn rb_or_assign(a: &mut roaring::RoaringBitmap, b: &roaring::RoaringBitmap)
    ensures
        rb_contents(*final(a)) == rb_contents(*old(a)).union(rb_contents(*b)),
        rb_contents(*final(a)).finite(),
{
    *a |= b;
}

/// Relies on roaring's SubAssign: set difference.
#[verifier::external_body]
pub fn rb_sub_assign(a: &mut roaring::RoaringBitmap, b: &roaring::RoaringBitmap)
    ensures
        rb_contents(*final(a)) == rb_contents(*old(a)).difference(rb_contents(*b)),
        rb_contents(*final(a)).finite(),
{
    *a -= b;
}

/// Relies on roaring::RoaringBitmap::clone: an equal copy.
#[verifier::external_body]
pub fn rb_clone(b: &roaring::RoaringBitmap) -> (r: roaring::RoaringBitmap)
    ensures
        rb_contents(r) == rb_contents(*b),
        rb_contents(r).finite(),
{
    b.clone()
}

/// Relies on roaring::RoaringBitmap::iter, whose values come ordered
/// by value: the stored values as a strictly increasing vector.
#[verifier::external_body]
pub fn rb_to_vec(b: &roaring::RoaringBitmap) -> (r: Vec<u32>)
    ensures
        forall|i: int, j: int| 0 <= i < j < r@.len() ==> r@[i] < r@[j],
        forall|i: int| 0 <= i < r@.len() ==> rb_contents(*b).contains(#[trigger] r@[i]),
        forall|v: u32| rb_contents(*b).contains(v) ==> exists|i: int|
            0 <= i < r@.len() && r@[i] == v,
{
    b.iter().collect()
}

} // verus!
