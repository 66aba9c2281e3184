//! Sets of record numbers.

use roaring::RoaringBitmap;
use vstd::prelude::*;

verus! {

/// `roaring::RoaringBitmap`, a set of numbers.
#[verifier::external_type_specification]
#[verifier::external_body]
pub struct ExRoaringBitmap(roaring::RoaringBitmap);

/// The numbers in the bitmap, in ascending order.
pub uninterp spec fn bitmap_values(bitmap: roaring::RoaringBitmap) -> Seq<u32>;

/// `RoaringBitmap::new`: a bitmap without numbers.
#[verifier::external_body]
pub(crate) fn bitmap_new() -> (r: RoaringBitmap)
    ensures
        bitmap_values(r) == Seq::<u32>::empty(),
{
    RoaringBitmap::new()
}

/// `RoaringBitmap::try_push`: adds a number that is greater than all in the bitmap, and refuses any
/// other.
#[verifier::external_body]
pub(crate) fn bitmap_try_push(bitmap: &mut RoaringBitmap, value: u32) -> (r: bool)
    ensures
        r == (bitmap_values(*old(bitmap)).len() == 0 || bitmap_values(*old(bitmap)).last() < value),
        r ==> bitmap_values(*final(bitmap)) == bitmap_values(*old(bitmap)).push(value),
        !r ==> bitmap_values(*final(bitmap)) == bitmap_values(*old(bitmap)),
{
    bitmap.try_push(value).is_ok()
}

/// `RoaringBitmap::iter`: the numbers, in ascending order.
#[verifier::external_body]
pub(crate) fn bitmap_to_vec(bitmap: &RoaringBitmap) -> (r: Vec<u32>)
    ensures
        r@ == bitmap_values(*bitmap),
        forall|i: int, j: int| 0 <= i < j < r@.len() ==> r@[i] < r@[j],
{
    bitmap.iter().collect()
}

/// `RoaringBitmap::contains`: whether the number is in the bitmap.
#[verifier::external_body]
pub(crate) fn bitmap_contains(bitmap: &RoaringBitmap, value: u32) -> (r: bool)
    ensures
        r == bitmap_values(*bitmap).contains(value),
{
    bitmap.contains(value)
}

}
