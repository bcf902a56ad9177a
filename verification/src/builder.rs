//! Recursive level builder, restated bottom-up as one pass per level.
//!
//! Levels are built over the positions of the base entries: the level-`L`
//! group with index `i` covers the base entries at positions
//! `i * level_group_size^L .. (i + 1) * level_group_size^L` (clipped to the
//! base size for the trailing remainder group), and holds the union of their
//! document bitmaps. The caller maps positions back to the facet's native
//! bounds, numeric or textual.

use vstd::prelude::*;
use roaring::RoaringBitmap;
use vstd::arithmetic::power::pow;
use vstd::arithmetic::power::lemma_pow_adds;
use vstd::arithmetic::power::lemma_pow_increases;
use vstd::arithmetic::power::lemma_pow_positive;
use vstd::arithmetic::div_mod::lemma_fundamental_div_mod;
use vstd::arithmetic::div_mod::lemma_mod_division_less_than_divisor;
use vstd::arithmetic::mul::lemma_mul_inequality;
use vstd::arithmetic::mul::lemma_mul_is_commutative;
use vstd::arithmetic::mul::lemma_mul_is_distributive_add_other_way;
use crate::bitmap::bitmap_new;
use crate::bitmap::bitmap_set;
use crate::bitmap::bitmap_union_with;
use crate::bitmap::sets_of;
use crate::bitmap::union_range;

verus! {

/// One group of a built level: the base entries at positions
/// `first ..= last` and the union of their document bitmaps.
pub struct FacetGroup {
    /// Position of the first base entry the group covers.
    pub first: usize,
    /// Position of the last base entry the group covers (inclusive).
    pub last: usize,
    /// Union of the document bitmaps of the covered base entries.
    pub docids: RoaringBitmap,
}

/// Number of groups a level of group size `gl` cuts `n` base entries into:
/// `n / gl` rounded up.
pub open spec fn group_count(n: int, gl: int) -> int {
    if n <= 0 {
        0
    } else {
        (n - 1) / gl + 1
    }
}

/// The group with index `i` of a level with group size `gl` covers base
/// positions `i * gl ..= min((i + 1) * gl, n) - 1` and unions their sets.
pub open spec fn group_ok(sets: Seq<Set<u32>>, gl: int, i: int, e: FacetGroup) -> bool {
    &&& e.first == i * gl
    &&& e.last + 1 == if (i + 1) * gl <= sets.len() {
        (i + 1) * gl
    } else {
        sets.len() as int
    }
    &&& bitmap_set(e.docids) == union_range(sets, e.first as int, e.last + 1)
}

/// A whole level of group size `gl` over `sets` base entries: the right
/// number of groups, each covering its own slice of base positions.
pub open spec fn level_ok(sets: Seq<Set<u32>>, gl: int, level: Seq<FacetGroup>) -> bool {
    &&& level.len() == group_count(sets.len() as int, gl)
    &&& forall|i: int| 0 <= i < level.len() ==> #[trigger] group_ok(sets, gl, i, level[i])
}

/// A group index below the group count starts strictly inside the base
/// entries.
pub proof fn lemma_group_start_in_bounds(n: int, gl: int, i: int)
    requires
        1 <= gl,
        0 <= i < group_count(n, gl),
    ensures
        i * gl <= n - 1,
{
    lemma_mul_inequality(i, (n - 1) / gl, gl);
    lemma_fundamental_div_mod(n - 1, gl);
    lemma_mod_division_less_than_divisor(n - 1, gl);
    lemma_mul_is_commutative((n - 1) / gl, gl);
}

/// Build one level of group size `gl` over the base bitmaps: walk the base
/// positions in batches of `gl`, unioning each batch into one group.
pub fn build_one_level(docids: &Vec<RoaringBitmap>, gl: usize) -> (level: Vec<FacetGroup>)
    requires
        gl >= 1,
    ensures
        level_ok(sets_of(docids@), gl as int, level@),
{
    let ghost sets = sets_of(docids@);
    let n = docids.len();
    let count: usize = if n == 0 {
        0
    } else {
        (n - 1) / gl + 1
    };
    let mut level: Vec<FacetGroup> = Vec::new();
    let mut i: usize = 0;
    while i < count
        invariant
            gl >= 1,
            n == docids@.len(),
            sets == sets_of(docids@),
            count as int == group_count(n as int, gl as int),
            i <= count,
            level@.len() == i,
            forall|j: int| 0 <= j < i ==> #[trigger] group_ok(sets, gl as int, j, level@[j]),
        decreases count - i,
    {
        proof {
            lemma_group_start_in_bounds(n as int, gl as int, i as int);
        }
        let start = i * gl;
        let end = if gl <= n - start {
            start + gl
        } else {
            n
        };
        proof {
            lemma_mul_is_distributive_add_other_way(gl as int, i as int, 1);
            assert((i + 1) * gl == i * gl + gl);
        }
        let mut acc = bitmap_new();
        let mut j = start;
        while j < end
            invariant
                start <= j <= end,
                end <= docids@.len(),
                sets == sets_of(docids@),
                bitmap_set(acc) == union_range(sets, start as int, j as int),
            decreases end - j,
        {
            bitmap_union_with(&mut acc, &docids[j]);
            j += 1;
        }
        level.push(FacetGroup { first: start, last: end - 1, docids: acc });
        i += 1;
    }
    level
}

/// Build every level from `1` up to `top_level` over the base bitmaps, in
/// level-ascending order; the group size of level `L` is
/// `level_group_size^L`. A `top_level` of `0` builds nothing.
pub fn compute_levels(docids: &Vec<RoaringBitmap>, level_group_size: usize, top_level: u8) -> (r:
    Vec<Vec<FacetGroup>>)
    requires
        level_group_size >= 1,
        top_level >= 1 ==> pow(level_group_size as int, top_level as nat) <= docids@.len(),
    ensures
        r@.len() == top_level,
        forall|l: int|
            0 <= l < top_level ==> level_ok(
                sets_of(docids@),
                pow(level_group_size as int, (l + 1) as nat),
                #[trigger] r@[l]@,
            ),
{
    let g = level_group_size;
    let n = docids.len();
    let mut result: Vec<Vec<FacetGroup>> = Vec::new();
    let mut gl: usize = 1;
    let mut l: u8 = 0;
    proof {
        assert(pow(g as int, 0) == 1) by {
            vstd::arithmetic::power::lemma_pow0(g as int);
        }
    }
    while l < top_level
        invariant
            g >= 1,
            n == docids@.len(),
            l <= top_level,
            top_level >= 1 ==> pow(g as int, top_level as nat) <= n as int,
            result@.len() == l,
            gl as int == pow(g as int, l as nat),
            forall|k: int|
                0 <= k < l ==> level_ok(
                    sets_of(docids@),
                    pow(g as int, (k + 1) as nat),
                    #[trigger] result@[k]@,
                ),
        decreases top_level - l,
    {
        proof {
            lemma_pow_adds(g as int, l as nat, 1);
            assert(pow(g as int, 1) == g) by {
                vstd::arithmetic::power::lemma_pow1(g as int);
            }
            lemma_pow_increases(g as nat, (l + 1) as nat, top_level as nat);
            lemma_pow_positive(g as int, (l + 1) as nat);
        }
        let gl_next = gl * g;
        let built = build_one_level(docids, gl_next);
        result.push(built);
        gl = gl_next;
        l += 1;
    }
    result
}

} // verus!
