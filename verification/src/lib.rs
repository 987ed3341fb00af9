//! Verified core of a Smoothed Particle Hydrodynamics (SPH) fluid simulator.
//!
//! The library models the per-frame simulation pipeline on plain integer
//! values: a radix sort over 32-bit keys with paired particle indices, a
//! uniform-grid spatial lookup (cell keys, sorted table, per-cell start
//! index), and a fixed-point physics solver (density, force, integration,
//! display). Host-side plumbing that drives a GPU lives outside the library.

pub mod fluid_simulation;
pub mod numeric;
pub mod radix_sort;
pub mod schedule;
pub mod spatial_lookup;

use vstd::prelude::*;

verus! {

/// Ceiling division used for workgroup counts: the number of groups of
/// `group_size` threads needed to cover `n` items. Rounding up (never down)
/// guarantees every item is covered by some thread.
pub fn workgroup_count(n: usize, group_size: usize) -> (r: usize)
    requires
        group_size > 0,
        n < usize::MAX,
    ensures
        r * group_size >= n,
        n > 0 ==> (r - 1) * group_size < n,
        n == 0 ==> r == 0,
{
    let mut r: usize = n / group_size;
    assert(r * group_size <= n) by {
        vstd::arithmetic::div_mod::lemma_fundamental_div_mod(n as int, group_size as int);
        vstd::arithmetic::mul::lemma_mul_is_commutative(r as int, group_size as int);
    };
    if n % group_size != 0 {
        proof {
            vstd::arithmetic::div_mod::lemma_fundamental_div_mod(n as int, group_size as int);
            vstd::arithmetic::mul::lemma_mul_is_distributive_add_other_way(
                group_size as int, r as int, 1);
        }
        r = r + 1;
    } else {
        proof {
            vstd::arithmetic::div_mod::lemma_fundamental_div_mod(n as int, group_size as int);
            if n > 0 {
                vstd::arithmetic::mul::lemma_mul_is_distributive_sub_other_way(
                    group_size as int, r as int, 1);
            }
        }
    }
    r
}

} // verus!
