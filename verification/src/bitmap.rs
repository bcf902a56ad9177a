//! Document-id bitmaps.
//!
//! A document set is a `roaring::RoaringBitmap`, a compressed set of `u32`
//! document ids. The library never looks inside one: it only creates empty
//! bitmaps and unions them, and every contract speaks of the abstract set of
//! ids that a bitmap holds, named by `bitmap_set`.

use vstd::prelude::*;
use roaring::RoaringBitmap;

verus! {

#[verifier::external_type_specification]
#[verifier::external_body]
pub struct ExRoaringBitmap(RoaringBitmap);

/// The set of document ids that a bitmap holds.
pub uninterp spec fn bitmap_set(b: RoaringBitmap) -> Set<u32>;

/// Relies on roaring::RoaringBitmap::new: a fresh bitmap holds no ids.
#[verifier::external_body]
pub(crate) fn bitmap_new() -> (r: RoaringBitmap)
    ensures
        bitmap_set(r) == Set::<u32>::empty(),
{
    RoaringBitmap::new()
}

/// Relies on BitOrAssign<&RoaringBitmap> for roaring::RoaringBitmap:
/// in-place union of the two sets of ids.
#[verifier::external_body]
pub(crate) fn bitmap_union_with(a: &mut RoaringBitmap, b: &RoaringBitmap)
    ensures
        bitmap_set(*final(a)) == bitmap_set(*old(a)).union(bitmap_set(*b)),
{
    *a |= b;
}

/// The sets of ids held by a sequence of bitmaps, one per bitmap.
pub open spec fn sets_of(rows: Seq<RoaringBitmap>) -> Seq<Set<u32>> {
    rows.map(|i: int, b: RoaringBitmap| bitmap_set(b))
}

/// Union of the sets `sets[lo], ..., sets[hi - 1]`.
pub open spec fn union_range(sets: Seq<Set<u32>>, lo: int, hi: int) -> Set<u32>
    decreases hi - lo,
{
    if lo >= hi {
        Set::empty()
    } else {
        union_range(sets, lo, hi - 1).union(sets[hi - 1])
    }
}

/// Splitting a union of adjacent ranges: `[lo, mid)` joined with `[mid, hi)`
/// covers `[lo, hi)`.
pub proof fn lemma_union_range_split(sets: Seq<Set<u32>>, lo: int, mid: int, hi: int)
    requires
        lo <= mid <= hi,
    ensures
        union_range(sets, lo, hi) == union_range(sets, lo, mid).union(union_range(sets, mid, hi)),
    decreases hi - mid,
{
    if mid == hi {
        assert(union_range(sets, mid, hi) == Set::<u32>::empty());
        assert(union_range(sets, lo, hi) == union_range(sets, lo, mid).union(
            union_range(sets, mid, hi),
        )) by {
            assert(union_range(sets, lo, mid).union(Set::<u32>::empty()) =~= union_range(
                sets,
                lo,
                mid,
            ));
        }
    } else {
        lemma_union_range_split(sets, lo, mid, hi - 1);
        assert(union_range(sets, lo, mid).union(union_range(sets, mid, hi - 1)).union(
            sets[hi - 1],
        ) =~= union_range(sets, lo, mid).union(union_range(sets, mid, hi - 1).union(
            sets[hi - 1],
        )));
    }
}

/// Union of the ids of the first `n` bitmaps of `rows`; `n == rows.len()`
/// gives the whole union.
pub fn union_of_bitmaps(rows: &Vec<RoaringBitmap>, n: usize) -> (r: RoaringBitmap)
    requires
        n <= rows@.len(),
    ensures
        bitmap_set(r) == union_range(sets_of(rows@), 0, n as int),
{
    let mut acc = bitmap_new();
    let mut j: usize = 0;
    while j < n
        invariant
            j <= n <= rows@.len(),
            bitmap_set(acc) == union_range(sets_of(rows@), 0, j as int),
        decreases n - j,
    {
        bitmap_union_with(&mut acc, &rows[j]);
        j += 1;
    }
    acc
}

} // verus!
