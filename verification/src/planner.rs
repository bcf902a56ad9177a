//! Per-field level-count planner.
//!
//! From the number of base entries of a field, the grouping factor, and the
//! minimum worthwhile level size, decide how many aggregated levels to build:
//! the top level is the largest `L` with
//! `level_0_size / level_group_size^L >= min_level_size`, and `0` means that
//! no level is worth building.

use vstd::prelude::*;
use vstd::arithmetic::power::pow;
use vstd::arithmetic::power::lemma_pow_adds;
use vstd::arithmetic::power::lemma_pow_increases;
use vstd::arithmetic::power::lemma_pow_positive;
use vstd::arithmetic::power2::pow2;
use vstd::arithmetic::power2::lemma_pow2;
use vstd::arithmetic::power2::lemma_pow2_strictly_increases;
use vstd::arithmetic::power2::lemma2_to64;
use vstd::arithmetic::div_mod::lemma_div_denominator;
use vstd::arithmetic::div_mod::lemma_div_is_ordered_by_denominator;
use vstd::arithmetic::div_mod::lemma_fundamental_div_mod;
use vstd::arithmetic::mul::lemma_mul_inequality;

verus! {

/// Division by a power of the grouping factor never grows when the exponent
/// grows, so the levels that satisfy the planner's inequality form a prefix
/// of 1, 2, 3, ...
pub proof fn lemma_shrinking_levels(n: int, g: int, l1: nat, l2: nat)
    requires
        0 <= n,
        2 <= g,
        l1 <= l2,
    ensures
        n / pow(g, l2) <= n / pow(g, l1),
{
    lemma_pow_positive(g, l1);
    lemma_pow_positive(g, l2);
    lemma_pow_increases(g as nat, l1, l2);
    lemma_div_is_ordered_by_denominator(n, pow(g, l1), pow(g, l2));
}

/// A denominator that leaves a non-zero quotient is at most the dividend.
proof fn lemma_quotient_pos_bounds_denominator(n: int, d: int)
    requires
        0 <= n,
        0 < d,
        n / d >= 1,
    ensures
        d <= n,
{
    lemma_fundamental_div_mod(n, d);
    lemma_mul_inequality(1, n / d, d);
}

/// `top` is the number of levels worth building over `n` base entries with
/// grouping factor `g` and minimum level size `m`: the largest `L >= 1` with
/// `n / g^L >= m`, or `0` when no `L` satisfies that inequality.
pub open spec fn is_highest_level(n: int, g: int, m: int, top: int) -> bool {
    &&& top >= 0
    &&& forall|l: nat| 1 <= l <= top ==> n / pow(g, l) >= m
    &&& forall|l: nat| l > top ==> n / pow(g, l) < m
}

/// The top level to build for a field: the largest `L >= 1` such that
/// `level_0_size / level_group_size^L >= min_level_size`, or `0` when even
/// `L = 1` fails that inequality and no level is built.
pub fn highest_level(level_0_size: usize, level_group_size: usize, min_level_size: usize) -> (r:
    u8)
    requires
        level_group_size >= 2,
        min_level_size >= 1,
    ensures
        is_highest_level(
            level_0_size as int,
            level_group_size as int,
            min_level_size as int,
            r as int,
        ),
        r >= 1 ==> pow(level_group_size as int, r as nat) <= level_0_size as int,
{
    let n = level_0_size;
    let g = level_group_size;
    let m = min_level_size;
    let mut level: u8 = 0;
    let mut size: usize = 1;
    proof {
        assert(pow(g as int, 0) == 1) by {
            vstd::arithmetic::power::lemma_pow0(g as int);
        }
        assert(pow2(0) == 1) by {
            lemma2_to64();
        }
    }
    while n / size / g >= m
        invariant
            g >= 2,
            m >= 1,
            size >= 1,
            size as int == pow(g as int, level as nat),
            pow2(level as nat) <= size as nat,
            level >= 1 ==> size <= n,
            forall|l: nat|
                1 <= l <= level ==> n as int / pow(g as int, l) >= m as int,
        decreases n - size,
    {
        proof {
            lemma_div_denominator(n as int, size as int, g as int);
            lemma_pow_adds(g as int, level as nat, 1);
            assert(pow(g as int, 1) == g) by {
                vstd::arithmetic::power::lemma_pow1(g as int);
            }
            // the next group size still leaves at least one group, so it
            // fits in the base size and in usize
            assert(n as int / (size as int * g as int) >= m as int);
            lemma_quotient_pos_bounds_denominator(n as int, size as int * g as int);
            // the level index stays far below the u8 bound: group sizes at
            // least double at each level, and stay at most the base size
            lemma_pow2(level as nat);
            lemma_pow2((level + 1) as nat);
            assert(pow2((level + 1) as nat) == 2 * pow2(level as nat)) by {
                vstd::arithmetic::power2::lemma_pow2_unfold((level + 1) as nat);
            }
            assert(2 * size as int <= size as int * g as int) by {
                lemma_mul_inequality(2, g as int, size as int);
                vstd::arithmetic::mul::lemma_mul_is_commutative(2, size as int);
                vstd::arithmetic::mul::lemma_mul_is_commutative(g as int, size as int);
            }
            assert(2 * pow2(level as nat) <= 2 * size as nat);
            assert(level < 64) by {
                if level >= 64 {
                    lemma2_to64();
                    if level > 64 {
                        lemma_pow2_strictly_increases(64, level as nat);
                    }
                    assert(pow2(level as nat) >= pow2(64));
                    assert(size as nat >= 0x10000000000000000nat);
                }
            }
        }
        size = size * g;
        level = level + 1;
    }
    proof {
        // the first level past the chosen one already fails the inequality,
        // and with it every later level
        lemma_div_denominator(n as int, size as int, g as int);
        lemma_pow_adds(g as int, level as nat, 1);
        assert(pow(g as int, 1) == g) by {
            vstd::arithmetic::power::lemma_pow1(g as int);
        }
        assert(n as int / pow(g as int, (level + 1) as nat) < m as int);
        assert forall|l: nat| l > level implies n as int / pow(g as int, l) < m as int by {
            lemma_shrinking_levels(n as int, g as int, (level + 1) as nat, l);
        }
    }
    level
}

} // verus!
