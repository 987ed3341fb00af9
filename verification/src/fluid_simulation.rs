//! The SPH solver: per-frame density, force, integration and display
//! passes over fixed-point particle state, driven by the grid-accelerated
//! neighbor search.
//!
//! All quantities are fixed-point integers. The kernel normalization
//! constants of the continuous formulation (which involve pi) enter as
//! precomputed integer divisors in the configuration; the shapes of the
//! kernels — a poly6-style falloff for density, its squared-falloff
//! gradient for pressure and a linear falloff for viscosity — are computed
//! exactly in integer arithmetic.

use rand::Rng;
use vstd::prelude::*;
use crate::numeric::{
    clamp_spec, clamp_i128, div_q, div_trunc_spec, lemma_div_trunc_bound, lemma_div_trunc_nonneg,
    lemma_seq_sum_by_membership, lemma_seq_sum_element_lower, range_sum, seq_sum,
};
use crate::spatial_lookup::{
    GridDims, Pos, dist2_spec, dims_wf, pos_bounded, lookup_table_wf, dist2, neighbors_within,
};

verus! {

/// Most particles a configuration may ask for.
pub const N_MAX: usize = 0x10000;

/// Largest smoothing radius, in fixed-point length units.
pub const H_MAX: i64 = 0x1000;

/// Largest particle mass.
pub const MASS_MAX: i64 = 0x10000;

/// Largest gas constant.
pub const GAS_MAX: i64 = 0x10000;

/// Largest viscosity coefficient.
pub const VISC_MAX: i64 = 0x10000;

/// Largest rest density.
pub const REST_MAX: i64 = 0x1_0000_0000;

/// Largest magnitude of a gravity component.
pub const GRAV_MAX: i64 = 0x10000;

/// Largest bounding-box extent per axis.
pub const BBOX_MAX: i64 = 0x4000_0000;

/// Fixed-point denominator of the damping factor.
pub const DAMPING_DEN: i64 = 0x10000;

/// Fixed-point denominator of the time step.
pub const DT_DEN: i64 = 0x10000;

/// Largest time-step numerator accepted per frame.
pub const DT_NUM_MAX: i64 = 0x10000;

/// Velocity components saturate at this magnitude.
pub const V_MAX: i64 = 0x100_0000_0000;

/// Acceleration components saturate at this magnitude.
pub const ACCEL_MAX: i128 = 0x100_0000_0000;

/// Largest density value any pass can produce.
pub const DENSITY_MAX: i64 = 0x1_0000_0000_0000;

/// Largest magnitude of a force component any pass can produce.
pub const FORCE_MAX: i128 = 0x1000_0000_0000_0000_0000_0000_0000_0000;

/// A force accumulator vector; wider than positions because pressure terms
/// scale with density times pressure.
#[derive(Clone, Copy, PartialEq, Eq, Structural, Debug)]
pub struct WideVec3 {
    pub x: i128,
    pub y: i128,
    pub z: i128,
}

/// One draw-ready vertex: a particle position and its density color.
#[derive(Clone, Copy, PartialEq, Eq, Structural, Debug)]
pub struct ColoredVertex {
    pub position: Pos,
    pub red: u8,
    pub green: u8,
    pub blue: u8,
}

/// The immutable per-run simulation configuration, in fixed point.
#[derive(Clone, Copy, PartialEq, Eq, Structural, Debug)]
pub struct FluidSimulationConfig {
    pub particle_cnt: usize,
    pub smoothing_radius: i64,
    pub mass: i64,
    /// Boundary damping as a fraction of `DAMPING_DEN`.
    pub damping: i64,
    pub gas_const: i64,
    pub rest_density: i64,
    pub viscosity: i64,
    pub gravity: Pos,
    pub bbox_dimensions: Pos,
    /// Divisor normalizing the density kernel.
    pub kernel_norm: i64,
    /// Divisor normalizing the pressure kernel gradient.
    pub grad_norm: i64,
    /// Divisor normalizing the viscosity kernel.
    pub lapl_norm: i64,
}

/// The squared smoothing radius.
pub open spec fn h2_spec(c: FluidSimulationConfig) -> int {
    (c.smoothing_radius as int) * (c.smoothing_radius as int)
}

/// Ceiling division of positive quantities.
pub open spec fn ceil_div_spec(a: int, b: int) -> int {
    (a + b - 1) / b
}

/// Cells per axis: the box extent over the smoothing radius, rounded up.
pub open spec fn grid_dims_spec(c: FluidSimulationConfig) -> GridDims {
    GridDims {
        x: ceil_div_spec(c.bbox_dimensions.x as int, c.smoothing_radius as int) as u32,
        y: ceil_div_spec(c.bbox_dimensions.y as int, c.smoothing_radius as int) as u32,
        z: ceil_div_spec(c.bbox_dimensions.z as int, c.smoothing_radius as int) as u32,
    }
}

/// The numeric soundness conditions on a configuration: positive sizes,
/// bounded magnitudes, and kernel divisors scaled to the smoothing radius
/// so that no pass can overflow and every particle's self-contribution to
/// its own density is at least one unit.
pub open spec fn config_wf(c: FluidSimulationConfig) -> bool {
    let h = c.smoothing_radius as int;
    let h2 = h * h;
    let h4 = h2 * h2;
    let h6 = h4 * h2;
    &&& 0 < c.particle_cnt <= N_MAX
    &&& 2 <= c.smoothing_radius <= H_MAX
    &&& 0 < c.mass <= MASS_MAX
    &&& 0 <= c.damping <= DAMPING_DEN
    &&& 0 <= c.gas_const <= GAS_MAX
    &&& 1 <= c.rest_density <= REST_MAX
    &&& 0 <= c.viscosity <= VISC_MAX
    &&& -GRAV_MAX <= c.gravity.x <= GRAV_MAX
    &&& -GRAV_MAX <= c.gravity.y <= GRAV_MAX
    &&& -GRAV_MAX <= c.gravity.z <= GRAV_MAX
    &&& c.smoothing_radius <= c.bbox_dimensions.x <= BBOX_MAX
    &&& c.smoothing_radius <= c.bbox_dimensions.y <= BBOX_MAX
    &&& c.smoothing_radius <= c.bbox_dimensions.z <= BBOX_MAX
    &&& 1 <= c.kernel_norm
    &&& c.kernel_norm <= c.mass * h6
    &&& h6 <= c.kernel_norm * 0x10000
    &&& 1 <= c.grad_norm
    &&& h4 <= c.grad_norm * 0x1000
    &&& 1 <= c.lapl_norm
    &&& h2 <= c.lapl_norm * 0x1000
    &&& ceil_div_spec(c.bbox_dimensions.x as int, h) * ceil_div_spec(
        c.bbox_dimensions.y as int,
        h,
    ) * ceil_div_spec(c.bbox_dimensions.z as int, h) <= u32::MAX
}

/// A position lies inside the simulation box.
pub open spec fn pos_in_box(p: Pos, bbox: Pos) -> bool {
    0 <= p.x <= bbox.x && 0 <= p.y <= bbox.y && 0 <= p.z <= bbox.z
}

/// A well-formed grid follows from a well-formed configuration.
pub proof fn lemma_grid_dims_wf(c: FluidSimulationConfig)
    requires
        config_wf(c),
    ensures
        dims_wf(grid_dims_spec(c)),
        grid_dims_spec(c).x as int == ceil_div_spec(c.bbox_dimensions.x as int, c.smoothing_radius as int),
        grid_dims_spec(c).y as int == ceil_div_spec(c.bbox_dimensions.y as int, c.smoothing_radius as int),
        grid_dims_spec(c).z as int == ceil_div_spec(c.bbox_dimensions.z as int, c.smoothing_radius as int),
{
    let h = c.smoothing_radius as int;
    let d = grid_dims_spec(c);
    let cx = ceil_div_spec(c.bbox_dimensions.x as int, h);
    let cy = ceil_div_spec(c.bbox_dimensions.y as int, h);
    let cz = ceil_div_spec(c.bbox_dimensions.z as int, h);
    assert(1 <= cx && cx <= c.bbox_dimensions.x) by {
        lemma_ceil_div_bounds(c.bbox_dimensions.x as int, h);
    }
    assert(1 <= cy && cy <= c.bbox_dimensions.y) by {
        lemma_ceil_div_bounds(c.bbox_dimensions.y as int, h);
    }
    assert(1 <= cz && cz <= c.bbox_dimensions.z) by {
        lemma_ceil_div_bounds(c.bbox_dimensions.z as int, h);
    }
    assert(cx * cy >= 1 && cx * cy * cz >= cx && cx * cy * cz >= cy && cx * cy * cz >= cz)
        by (nonlinear_arith)
        requires
            1 <= cx && 1 <= cy && 1 <= cz,
    ;
    assert(d.x as int == cx && d.y as int == cy && d.z as int == cz);
    assert(d.x * d.y * d.z <= u32::MAX) by (nonlinear_arith)
        requires
            d.x as int == cx,
            d.y as int == cy,
            d.z as int == cz,
            cx * cy * cz <= u32::MAX,
    ;
}

/// Bounds of ceiling division: for `a >= b >= 1` the quotient lies in
/// `[1, a]`, and the last lattice step stays below `a`.
pub proof fn lemma_ceil_div_bounds(a: int, b: int)
    requires
        1 <= b <= a,
    ensures
        1 <= ceil_div_spec(a, b) <= a,
        (ceil_div_spec(a, b) - 1) * b < a,
        ceil_div_spec(a, b) * b >= a,
{
    let q = (a + b - 1) / b;
    vstd::arithmetic::div_mod::lemma_fundamental_div_mod(a + b - 1, b);
    vstd::arithmetic::div_mod::lemma_mod_bound(a + b - 1, b);
    assert(b * q == a + b - 1 - ((a + b - 1) % b));
    vstd::arithmetic::mul::lemma_mul_is_commutative(b, q);
    vstd::arithmetic::mul::lemma_mul_is_distributive_sub_other_way(b, q, 1);
    vstd::arithmetic::div_mod::lemma_div_is_ordered(b, a + b - 1, b);
    vstd::arithmetic::div_mod::lemma_div_by_self(b);
    assert(q <= a) by {
        assert(a + b - 1 <= a * b) by (nonlinear_arith)
            requires
                1 <= b,
                b <= a,
        ;
        vstd::arithmetic::div_mod::lemma_div_is_ordered(a + b - 1, a * b, b);
        vstd::arithmetic::div_mod::lemma_div_by_multiple(a, b);
    }
}

/// The density kernel weight of a squared distance: mass times the cubed
/// falloff `(h^2 - d^2)^3`, over the kernel divisor. Zero at the radius,
/// maximal at distance zero.
pub open spec fn density_term(c: FluidSimulationConfig, d2: int) -> int {
    let w = h2_spec(c) - d2;
    div_trunc_spec(c.mass * ((w * w) * w), c.kernel_norm as int)
}

/// The summand of particle `j`'s density from candidate `v`.
pub open spec fn density_f(c: FluidSimulationConfig, ps: Seq<Pos>, j: int) -> spec_fn(int) -> int {
    |v: int| density_term(c, dist2_spec(ps[j], ps[v]))
}

/// Whether candidate `v` lies within the smoothing radius of particle `j`.
pub open spec fn neighbor_pred(c: FluidSimulationConfig, ps: Seq<Pos>, j: int) -> spec_fn(
    int,
) -> bool {
    |v: int| dist2_spec(ps[j], ps[v]) <= h2_spec(c)
}

/// Particle `j`'s density: the kernel-weighted mass of every particle
/// within the smoothing radius, itself included.
pub open spec fn density_at(c: FluidSimulationConfig, ps: Seq<Pos>, j: int) -> int {
    range_sum(ps.len() as int, density_f(c, ps, j), neighbor_pred(c, ps, j))
}

/// The density buffer after the density pass: boundary particles keep
/// their fixed density, fluid particles get the kernel sum.
pub open spec fn density_pass_spec(
    c: FluidSimulationConfig,
    ghost_cnt: int,
    ps: Seq<Pos>,
    old_d: Seq<i64>,
) -> Seq<i64> {
    Seq::new(
        old_d.len(),
        |j: int|
            if j < ghost_cnt {
                old_d[j]
            } else {
                density_at(c, ps, j) as i64
            },
    )
}

/// Each density term is nonnegative and bounded by the mass times the
/// kernel headroom; the self term is at least one unit.
pub proof fn lemma_density_term_bounds(c: FluidSimulationConfig, d2: int)
    requires
        config_wf(c),
        0 <= d2 <= h2_spec(c),
    ensures
        0 <= density_term(c, d2) <= c.mass * 0x10000,
        d2 == 0 ==> density_term(c, d2) >= 1,
{
    let h = c.smoothing_radius as int;
    let h2 = h * h;
    let h6 = (h2 * h2) * h2;
    let w = h2 - d2;
    let num = c.mass * ((w * w) * w);
    assert(0 <= w * w && w * w <= h2 * h2) by (nonlinear_arith)
        requires
            0 <= w <= h2,
    ;
    assert(0 <= (w * w) * w && (w * w) * w <= (h2 * h2) * h2) by (nonlinear_arith)
        requires
            0 <= w * w <= h2 * h2,
            0 <= w <= h2,
    ;
    assert(0 <= num && num <= c.mass * h6) by (nonlinear_arith)
        requires
            num == c.mass * ((w * w) * w),
            0 <= (w * w) * w <= h6,
            0 < c.mass,
    ;
    assert(num <= (c.mass * 0x10000) * c.kernel_norm && 0 <= (c.mass * 0x10000) * c.kernel_norm)
        by (nonlinear_arith)
        requires
            num <= c.mass * h6,
            h6 <= c.kernel_norm * 0x10000,
            0 < c.mass,
            1 <= c.kernel_norm,
    ;
    lemma_div_trunc_bound(num, c.kernel_norm as int, c.mass * 0x10000);
    lemma_div_trunc_nonneg(num, c.kernel_norm as int);
    vstd::arithmetic::div_mod::lemma_div_pos_is_pos(num, c.kernel_norm as int);
    if d2 == 0 {
        assert((w * w) * w == h6) by (nonlinear_arith)
            requires
                w == h2,
                h6 == (h2 * h2) * h2,
        ;
        assert(num >= c.kernel_norm);
        assert(num / (c.kernel_norm as int) >= 1) by {
            vstd::arithmetic::div_mod::lemma_div_is_ordered(
                c.kernel_norm as int,
                num,
                c.kernel_norm as int,
            );
            vstd::arithmetic::div_mod::lemma_div_by_self(c.kernel_norm as int);
        }
    }
}

/// The squared smoothing radius of a sound configuration is small.
pub proof fn lemma_h2_bound(c: FluidSimulationConfig)
    requires
        config_wf(c),
    ensures
        4 <= h2_spec(c) <= 0x100_0000,
{
    assert(4 <= (c.smoothing_radius as int) * (c.smoothing_radius as int) <= 0x100_0000)
        by (nonlinear_arith)
        requires
            2 <= c.smoothing_radius <= 0x1000,
    ;
}

/// A fluid particle's density is at least one unit (its own contribution)
/// and at most the bound every pass maintains.
pub proof fn lemma_density_at_bounds(c: FluidSimulationConfig, ps: Seq<Pos>, j: int)
    requires
        config_wf(c),
        ps.len() <= N_MAX,
        0 <= j < ps.len(),
    ensures
        0 <= density_at(c, ps, j) <= DENSITY_MAX,
{
    lemma_range_sum_density_bounds(c, ps, j, ps.len() as int);
    assert((ps.len() as int) * (c.mass * 0x10000) <= DENSITY_MAX) by (nonlinear_arith)
        requires
            ps.len() <= 0x10000,
            0 < c.mass <= 0x10000,
    ;
}

/// Pointwise bounds on the density range sum.
pub proof fn lemma_range_sum_density_bounds(c: FluidSimulationConfig, ps: Seq<Pos>, j: int, n: int)
    requires
        config_wf(c),
        0 <= j < ps.len(),
        0 <= n <= ps.len(),
    ensures
        0 <= range_sum(n, density_f(c, ps, j), neighbor_pred(c, ps, j)) <= n * (c.mass * 0x10000),
    decreases n,
{
    if n > 0 {
        lemma_range_sum_density_bounds(c, ps, j, n - 1);
        if neighbor_pred(c, ps, j)(n - 1) {
            let d2 = dist2_spec(ps[j], ps[n - 1]);
            crate::spatial_lookup::lemma_dist2_nonneg(ps[j], ps[n - 1]);
            lemma_density_term_bounds(c, d2);
        }
        assert((n - 1) * (c.mass * 0x10000) + (c.mass * 0x10000) == n * (c.mass * 0x10000))
            by (nonlinear_arith);
    }
}

/// Density pass: one pass per fluid particle over its grid neighborhood,
/// accumulating the kernel-weighted mass of every particle within the
/// smoothing radius, the particle's own distance-zero term included.
/// Boundary particles keep their fixed density.
pub fn compute_density_pass(
    config: &FluidSimulationConfig,
    ghost_particle_cnt: usize,
    positions: &Vec<Pos>,
    pairs: &Vec<crate::radix_sort::KeyVal>,
    index: &Vec<u32>,
    densities: &mut Vec<i64>,
)
    requires
        config_wf(*config),
        ghost_particle_cnt < config.particle_cnt,
        positions@.len() == config.particle_cnt,
        old(densities)@.len() == config.particle_cnt,
        forall|j: int|
            0 <= j < positions@.len() ==> pos_in_box(#[trigger] positions@[j], config.bbox_dimensions),
        lookup_table_wf(
            positions@,
            config.smoothing_radius,
            grid_dims_spec(*config),
            pairs@,
            index@,
        ),
    ensures
        final(densities)@ == density_pass_spec(
            *config,
            ghost_particle_cnt as int,
            positions@,
            old(densities)@,
        ),
        forall|j: int|
            ghost_particle_cnt <= j < final(densities)@.len() ==> 1 <= (#[trigger] final(
                densities
            )@[j]) <= DENSITY_MAX,
{
    let ghost ps = positions@;
    let ghost old_d = densities@;
    let n = positions.len();
    let h = config.smoothing_radius;
    proof {
        lemma_grid_dims_wf(*config);
        lemma_h2_bound(*config);
        assert(2 <= h <= H_MAX);
        assert forall|j: int| 0 <= j < ps.len() implies pos_bounded(#[trigger] ps[j]) by {
            assert(pos_in_box(ps[j], config.bbox_dimensions));
        }
    }
    let h2: i64 = h * h;
    let mut j: usize = ghost_particle_cnt;
    while j < n
        invariant
            config_wf(*config),
            ghost_particle_cnt <= j <= n,
            n == ps.len() == config.particle_cnt,
            positions@ == ps,
            densities@.len() == n == old_d.len(),
            h == config.smoothing_radius,
            h2 as int == h2_spec(*config),
            forall|jj: int|
                0 <= jj < ps.len() ==> pos_in_box(#[trigger] ps[jj], config.bbox_dimensions),
            forall|jj: int| 0 <= jj < ps.len() ==> pos_bounded(#[trigger] ps[jj]),
            lookup_table_wf(ps, h, grid_dims_spec(*config), pairs@, index@),
            forall|jj: int| 0 <= jj < j ==> densities@[jj] == density_pass_spec(
                *config,
                ghost_particle_cnt as int,
                ps,
                old_d,
            )[jj],
            forall|jj: int| j <= jj < n ==> densities@[jj] == old_d[jj],
            forall|jj: int|
                ghost_particle_cnt <= jj < j ==> 1 <= #[trigger] densities@[jj] <= DENSITY_MAX,
        decreases n - j,
    {
        let nb = neighbors_within(positions, pairs, index, h, grid_dims(config), j);
        let ghost fd = density_f(*config, ps, j as int);
        let ghost pd = neighbor_pred(*config, ps, j as int);
        proof {
            assert forall|u: int|
                0 <= u < nb@.len() implies ((#[trigger] nb@[u]) as int) < n && dist2_spec(
                ps[j as int],
                ps[nb@[u] as int],
            ) <= h2_spec(*config) by {
                assert(nb@.contains(nb@[u]));
            }
            crate::numeric::lemma_bounded_distinct_len(nb@, n as int);
            lemma_h2_bound(*config);
        }
        let mut acc: i64 = 0;
        let mut t: usize = 0;
        while t < nb.len()
            invariant
                config_wf(*config),
                n == ps.len() == config.particle_cnt,
                positions@ == ps,
                j < n,
                h == config.smoothing_radius,
                h2 as int == h2_spec(*config),
                forall|jj: int| 0 <= jj < ps.len() ==> pos_bounded(#[trigger] ps[jj]),
                t <= nb@.len() <= n,
                forall|u: int| 0 <= u < nb@.len() ==> (#[trigger] nb@[u] as int) < n,
                forall|u: int|
                    0 <= u < nb@.len() ==> dist2_spec(ps[j as int], ps[nb@[u] as int]) <= h2_spec(
                        *config,
                    ),
                fd == density_f(*config, ps, j as int),
                acc as int == seq_sum(nb@.take(t as int), fd),
                0 <= acc as int <= (t as int) * (c_mass_headroom(*config)),
            decreases nb@.len() - t,
        {
            let v = nb[t] as usize;
            let d2 = dist2(positions[j], positions[v]);
            proof {
                crate::spatial_lookup::lemma_dist2_nonneg(ps[j as int], ps[v as int]);
                lemma_h2_bound(*config);
            }
            let w: i128 = (h2 as i128) - d2;
            proof {
                assert(0 <= w * w <= 0x1_0000_0000_0000 && 0 <= (w * w) * w
                    <= 0x1_0000_0000_0000_0000_0000 && config.mass * ((w * w) * w)
                    <= 0x1_0000_0000_0000_0000_0000_0000_0000) by (nonlinear_arith)
                    requires
                        0 <= w <= 0x100_0000,
                        0 < config.mass <= 0x10000,
                ;
            }
            let num: i128 = (config.mass as i128) * ((w * w) * w);
            let term = div_q(num, config.kernel_norm as i128);
            proof {
                lemma_density_term_bounds(*config, d2 as int);
                assert(term as int == density_term(*config, d2 as int));
                assert(fd(v as int) == term as int);
                assert(nb@.take(t + 1int).drop_last() =~= nb@.take(t as int));
                assert(nb@.take(t + 1int).last() == nb@[t as int]);
                assert((t as int) * c_mass_headroom(*config) + c_mass_headroom(*config) == (t
                    + 1int) * c_mass_headroom(*config)) by (nonlinear_arith);
                assert(acc as int + term as int <= 0x2_0000_0000_0000) by (nonlinear_arith)
                    requires
                        0 <= acc as int <= (t as int) * c_mass_headroom(*config),
                        0 <= term as int <= c_mass_headroom(*config),
                        c_mass_headroom(*config) <= 0x1_0000_0000,
                        0 <= (t as int) && (t as int) < 0x10001,
                ;
            }
            acc = acc + (term as i64);
            t = t + 1;
        }
        proof {
            assert(nb@.take(nb@.len() as int) =~= nb@);
            assert forall|v: u32| nb@.contains(v) <==> ((v as int) < n && pd(v as int)) by {}
            lemma_seq_sum_by_membership(nb@, n as int, fd, pd);
            lemma_density_at_bounds(*config, ps, j as int);
            // the particle's own zero-distance term makes the sum positive
            crate::spatial_lookup::lemma_dist2_nonneg(ps[j as int], ps[j as int]);
            assert(nb@.contains(j as u32));
            assert forall|u: int| 0 <= u < nb@.len() implies #[trigger] fd(nb@[u] as int) >= 0 by {
                crate::spatial_lookup::lemma_dist2_nonneg(ps[j as int], ps[nb@[u] as int]);
                lemma_density_term_bounds(*config, dist2_spec(ps[j as int], ps[nb@[u] as int]));
            }
            lemma_seq_sum_element_lower(nb@, fd, j as u32);
            assert(fd(j as int) >= 1) by {
                lemma_density_term_bounds(*config, 0);
            }
        }
        densities.set(j, acc);
        j = j + 1;
    }
    proof {
        assert(densities@ =~= density_pass_spec(
            *config,
            ghost_particle_cnt as int,
            ps,
            old_d,
        ));
    }
}

/// Largest magnitude of one pressure-plus-viscosity force term.
pub const FTERM_MAX: i128 = 0x800_0000_0000_0000_0000_0000_0000;

/// A particle's pressure: the gas constant times its density excess over
/// the rest density. Negative below rest density (suction), by design.
pub open spec fn pressure_of(c: FluidSimulationConfig, rho: int) -> int {
    c.gas_const * (rho - c.rest_density)
}

/// One neighbor's contribution to one force component: a symmetric
/// pressure-gradient term along the displacement, weighted by the squared
/// kernel falloff, plus a viscosity term along the velocity difference,
/// weighted by the linear falloff. `diff` and `dv` are the position and
/// velocity differences along the component; `rho_i` and `rho_v` the two
/// densities.
pub open spec fn force_term_comp(
    c: FluidSimulationConfig,
    d2: int,
    diff: int,
    rho_i: int,
    rho_v: int,
    dv: int,
) -> int {
    let w = h2_spec(c) - d2;
    let a = div_trunc_spec((w * w) * diff, c.grad_norm as int);
    let pterm = div_trunc_spec(
        ((pressure_of(c, rho_i) + pressure_of(c, rho_v)) * c.mass) * a,
        2 * rho_v,
    );
    let lw = div_trunc_spec(w, c.lapl_norm as int);
    let vterm = div_trunc_spec(((c.viscosity * dv) * lw) * c.mass, rho_v);
    pterm + vterm
}

/// The x-component summand of particle `j`'s force from candidate `v`.
pub open spec fn force_f_x(
    c: FluidSimulationConfig,
    ps: Seq<Pos>,
    vels: Seq<Pos>,
    dens: Seq<i64>,
    j: int,
) -> spec_fn(int) -> int {
    |v: int|
        if v == j {
            0
        } else {
            force_term_comp(
                c,
                dist2_spec(ps[j], ps[v]),
                ps[j].x - ps[v].x,
                dens[j] as int,
                dens[v] as int,
                vels[v].x - vels[j].x,
            )
        }
}

/// The y-component summand of particle `j`'s force from candidate `v`.
pub open spec fn force_f_y(
    c: FluidSimulationConfig,
    ps: Seq<Pos>,
    vels: Seq<Pos>,
    dens: Seq<i64>,
    j: int,
) -> spec_fn(int) -> int {
    |v: int|
        if v == j {
            0
        } else {
            force_term_comp(
                c,
                dist2_spec(ps[j], ps[v]),
                ps[j].y - ps[v].y,
                dens[j] as int,
                dens[v] as int,
                vels[v].y - vels[j].y,
            )
        }
}

/// The z-component summand of particle `j`'s force from candidate `v`.
pub open spec fn force_f_z(
    c: FluidSimulationConfig,
    ps: Seq<Pos>,
    vels: Seq<Pos>,
    dens: Seq<i64>,
    j: int,
) -> spec_fn(int) -> int {
    |v: int|
        if v == j {
            0
        } else {
            force_term_comp(
                c,
                dist2_spec(ps[j], ps[v]),
                ps[j].z - ps[v].z,
                dens[j] as int,
                dens[v] as int,
                vels[v].z - vels[j].z,
            )
        }
}

/// Particle `j`'s total force: gravity plus the pressure and viscosity
/// contributions of every neighbor within the smoothing radius.
pub open spec fn force_at(
    c: FluidSimulationConfig,
    ps: Seq<Pos>,
    vels: Seq<Pos>,
    dens: Seq<i64>,
    j: int,
) -> (int, int, int) {
    (
        c.mass * c.gravity.x + range_sum(
            ps.len() as int,
            force_f_x(c, ps, vels, dens, j),
            neighbor_pred(c, ps, j),
        ),
        c.mass * c.gravity.y + range_sum(
            ps.len() as int,
            force_f_y(c, ps, vels, dens, j),
            neighbor_pred(c, ps, j),
        ),
        c.mass * c.gravity.z + range_sum(
            ps.len() as int,
            force_f_z(c, ps, vels, dens, j),
            neighbor_pred(c, ps, j),
        ),
    )
}

/// The force buffer after the force pass: boundary particles keep their
/// never-written accumulators, fluid particles get gravity plus the
/// neighbor terms.
pub open spec fn force_pass_spec(
    c: FluidSimulationConfig,
    ghost_cnt: int,
    ps: Seq<Pos>,
    vels: Seq<Pos>,
    dens: Seq<i64>,
    old_f: Seq<WideVec3>,
) -> Seq<WideVec3> {
    Seq::new(
        old_f.len(),
        |j: int|
            if j < ghost_cnt {
                old_f[j]
            } else {
                WideVec3 {
                    x: force_at(c, ps, vels, dens, j).0 as i128,
                    y: force_at(c, ps, vels, dens, j).1 as i128,
                    z: force_at(c, ps, vels, dens, j).2 as i128,
                }
            },
    )
}

/// One force term of two in-range particles and densities is bounded.
pub proof fn lemma_force_term_bound(
    c: FluidSimulationConfig,
    d2: int,
    diff: int,
    rho_i: int,
    rho_v: int,
    dv: int,
)
    requires
        config_wf(c),
        0 <= d2 <= h2_spec(c),
        diff * diff <= d2,
        1 <= rho_i <= DENSITY_MAX,
        1 <= rho_v <= DENSITY_MAX,
        -2 * V_MAX <= dv <= 2 * V_MAX,
    ensures
        -FTERM_MAX <= force_term_comp(c, d2, diff, rho_i, rho_v, dv) <= FTERM_MAX,
{
    let h = c.smoothing_radius as int;
    let h2 = h * h;
    let h4 = h2 * h2;
    let w = h2_spec(c) - d2;
    lemma_h2_bound(c);
    assert(-h <= diff <= h) by (nonlinear_arith)
        requires
            diff * diff <= d2,
            d2 <= h * h,
            0 < h,
    ;
    assert(0 <= w * w && w * w <= h4) by (nonlinear_arith)
        requires
            0 <= w <= h2,
            h4 == h2 * h2,
    ;
    let anum = (w * w) * diff;
    let abound = 0x1000 * h;
    assert(-(abound * c.grad_norm) <= anum <= abound * c.grad_norm) by (nonlinear_arith)
        requires
            anum == (w * w) * diff,
            0 <= w * w <= h4,
            -h <= diff <= h,
            0 < h,
            h4 <= c.grad_norm * 0x1000,
            abound == 0x1000 * h,
            1 <= c.grad_norm,
    ;
    lemma_div_trunc_bound(anum, c.grad_norm as int, abound);
    let a = div_trunc_spec(anum, c.grad_norm as int);
    assert(-0x100_0000 <= a <= 0x100_0000) by (nonlinear_arith)
        requires
            -abound <= a <= abound,
            abound == 0x1000 * h,
            0 < h <= 0x1000,
    ;
    let psum = pressure_of(c, rho_i) + pressure_of(c, rho_v);
    assert(-0x4_0000_0000_0000_0000 <= psum <= 0x4_0000_0000_0000_0000) by (nonlinear_arith)
        requires
            psum == c.gas_const * (rho_i - c.rest_density) + c.gas_const * (rho_v
                - c.rest_density),
            0 <= c.gas_const <= 0x10000,
            1 <= rho_i <= 0x1_0000_0000_0000,
            1 <= rho_v <= 0x1_0000_0000_0000,
            1 <= c.rest_density <= 0x1_0000_0000,
    ;
    let pnum = (psum * c.mass) * a;
    assert(-0x400_0000_0000_0000_0000_0000_0000 <= pnum <= 0x400_0000_0000_0000_0000_0000_0000)
        by (nonlinear_arith)
        requires
            pnum == (psum * c.mass) * a,
            -0x4_0000_0000_0000_0000 <= psum <= 0x4_0000_0000_0000_0000,
            0 < c.mass <= 0x10000,
            -0x100_0000 <= a <= 0x100_0000,
    ;
    assert(0x400_0000_0000_0000_0000_0000_0000 * (2 * rho_v)
        >= 0x400_0000_0000_0000_0000_0000_0000) by (nonlinear_arith)
        requires
            1 <= rho_v,
    ;
    lemma_div_trunc_bound(pnum, 2 * rho_v, 0x400_0000_0000_0000_0000_0000_0000);
    assert(0x1000 * c.lapl_norm >= h2) by (nonlinear_arith)
        requires
            h2 <= c.lapl_norm * 0x1000,
    ;
    lemma_div_trunc_bound(w, c.lapl_norm as int, 0x1000);
    let lw = div_trunc_spec(w, c.lapl_norm as int);
    let vnum = ((c.viscosity * dv) * lw) * c.mass;
    assert(-0x20_0000_0000_0000_0000_0000 <= vnum <= 0x20_0000_0000_0000_0000_0000)
        by (nonlinear_arith)
        requires
            vnum == ((c.viscosity * dv) * lw) * c.mass,
            0 <= c.viscosity <= 0x10000,
            -0x200_0000_0000 <= dv <= 0x200_0000_0000,
            -0x1000 <= lw <= 0x1000,
            0 < c.mass <= 0x10000,
    ;
    assert(0x20_0000_0000_0000_0000_0000 * rho_v >= 0x20_0000_0000_0000_0000_0000)
        by (nonlinear_arith)
        requires
            1 <= rho_v,
    ;
    lemma_div_trunc_bound(vnum, rho_v, 0x20_0000_0000_0000_0000_0000);
}

/// One neighbor's force contribution along one component, in fixed point.
fn force_term_exec(
    config: &FluidSimulationConfig,
    d2: i128,
    diff: i64,
    rho_i: i64,
    rho_v: i64,
    dv: i64,
) -> (t: i128)
    requires
        config_wf(*config),
        0 <= d2 <= h2_spec(*config),
        (diff as int) * (diff as int) <= d2 as int,
        1 <= rho_i <= DENSITY_MAX,
        1 <= rho_v <= DENSITY_MAX,
        -2 * V_MAX <= dv <= 2 * V_MAX,
    ensures
        t as int == force_term_comp(*config, d2 as int, diff as int, rho_i as int, rho_v as int, dv as int),
        -FTERM_MAX <= t <= FTERM_MAX,
{
    proof {
        lemma_h2_bound(*config);
        lemma_force_term_bound(
            *config,
            d2 as int,
            diff as int,
            rho_i as int,
            rho_v as int,
            dv as int,
        );
        assert(-0x1000 <= diff as int <= 0x1000 && 0 <= (h2_spec(*config) - d2) * (h2_spec(
            *config,
        ) - d2) <= 0x1_0000_0000_0000) by (nonlinear_arith)
            requires
                (diff as int) * (diff as int) <= d2 as int,
                0 <= d2 as int <= h2_spec(*config),
                4 <= h2_spec(*config) <= 0x100_0000,
                2 <= config.smoothing_radius <= 0x1000,
    ;
    }
    let h2: i64 = config.smoothing_radius * config.smoothing_radius;
    let w: i128 = (h2 as i128) - d2;
    proof {
        assert(-0x10_0000_0000_0000_0000 <= ((w as int) * (w as int)) * (diff as int)
            <= 0x10_0000_0000_0000_0000) by (nonlinear_arith)
            requires
                0 <= (w as int) * (w as int) <= 0x1_0000_0000_0000,
                -0x1000 <= diff as int <= 0x1000,
        ;
    }
    let anum: i128 = (w * w) * (diff as i128);
    let a = div_q(anum, config.grad_norm as i128);
    proof {
        assert(-0x2_0000_0000_0000_0000 <= (config.gas_const as int) * ((rho_i as int) - (
        config.rest_density as int)) <= 0x2_0000_0000_0000_0000 && -0x2_0000_0000_0000_0000 <= (
        config.gas_const as int) * ((rho_v as int) - (config.rest_density as int))
            <= 0x2_0000_0000_0000_0000) by (nonlinear_arith)
            requires
                0 <= config.gas_const <= 0x10000,
                1 <= rho_i <= 0x1_0000_0000_0000,
                1 <= rho_v <= 0x1_0000_0000_0000,
                1 <= config.rest_density <= 0x1_0000_0000,
        ;
    }
    let pi: i128 = (config.gas_const as i128) * ((rho_i as i128) - (config.rest_density as i128));
    let pv: i128 = (config.gas_const as i128) * ((rho_v as i128) - (config.rest_density as i128));
    proof {
        let hh = config.smoothing_radius as int;
        assert(-(0x100_0000 * (config.grad_norm as int)) <= anum as int && anum as int
            <= 0x100_0000 * (config.grad_norm as int)) by (nonlinear_arith)
            requires
                anum as int == ((w as int) * (w as int)) * (diff as int),
                0 <= w as int,
                w as int <= hh * hh,
                -0x1000 <= diff as int <= 0x1000,
                2 <= hh <= 0x1000,
                (hh * hh) * (hh * hh) <= (config.grad_norm as int) * 0x1000,
                1 <= config.grad_norm,
        ;
        lemma_div_trunc_bound(anum as int, config.grad_norm as int, 0x100_0000);
        assert(-0x4_0000_0000_0000_0000_0000 <= (pi + pv) as int * (config.mass as int) && (pi
            + pv) as int * (config.mass as int) <= 0x4_0000_0000_0000_0000_0000
            && -0x400_0000_0000_0000_0000_0000_0000 <= ((pi + pv) as int * (config.mass as int))
            * (a as int) && ((pi + pv) as int * (config.mass as int)) * (a as int)
            <= 0x400_0000_0000_0000_0000_0000_0000) by (nonlinear_arith)
            requires
                -0x4_0000_0000_0000_0000 <= (pi + pv) as int <= 0x4_0000_0000_0000_0000,
                0 < config.mass <= 0x10000,
                -0x100_0000 <= a as int <= 0x100_0000,
        ;
    }
    let pnum: i128 = ((pi + pv) * (config.mass as i128)) * a;
    let pterm = div_q(pnum, 2 * (rho_v as i128));
    let lw = div_q(w, config.lapl_norm as i128);
    proof {
        let hh = config.smoothing_radius as int;
        assert(w as int <= 0x1000 * (config.lapl_norm as int)) by (nonlinear_arith)
            requires
                0 <= w as int,
                w as int <= hh * hh,
                hh * hh <= (config.lapl_norm as int) * 0x1000,
        ;
        lemma_div_trunc_bound(w as int, config.lapl_norm as int, 0x1000);
        assert(-0x2_0000_0000_0000_0000 <= (config.viscosity as int) * (dv as int) && (
        config.viscosity as int) * (dv as int) <= 0x2_0000_0000_0000_0000
            && -0x2000_0000_0000_0000_0000 <= ((config.viscosity as int) * (dv as int)) * (
        lw as int) && ((config.viscosity as int) * (dv as int)) * (lw as int)
            <= 0x2000_0000_0000_0000_0000 && -0x2_0000_0000_0000_0000_0000_0000 <= (((
        config.viscosity as int) * (dv as int)) * (lw as int)) * (config.mass as int) && (((
        config.viscosity as int) * (dv as int)) * (lw as int)) * (config.mass as int)
            <= 0x2_0000_0000_0000_0000_0000_0000) by (nonlinear_arith)
            requires
                0 <= config.viscosity <= 0x10000,
                -0x200_0000_0000 <= dv as int <= 0x200_0000_0000,
                -0x1000 <= lw as int <= 0x1000,
                0 < config.mass <= 0x10000,
        ;
    }
    let vnum: i128 = (((config.viscosity as i128) * (dv as i128)) * lw) * (config.mass as i128);
    let vterm = div_q(vnum, rho_v as i128);
    pterm + vterm
}

/// Force pass: one pass per fluid particle over its grid neighborhood,
/// accumulating gravity, the symmetric pressure-gradient term and the
/// viscosity term of every neighbor. Boundary particles are never written.
pub fn compute_force_pass(
    config: &FluidSimulationConfig,
    ghost_particle_cnt: usize,
    positions: &Vec<Pos>,
    velocities: &Vec<Pos>,
    densities: &Vec<i64>,
    pairs: &Vec<crate::radix_sort::KeyVal>,
    index: &Vec<u32>,
    forces: &mut Vec<WideVec3>,
)
    requires
        config_wf(*config),
        ghost_particle_cnt < config.particle_cnt,
        positions@.len() == config.particle_cnt,
        velocities@.len() == config.particle_cnt,
        densities@.len() == config.particle_cnt,
        old(forces)@.len() == config.particle_cnt,
        forall|j: int|
            0 <= j < positions@.len() ==> pos_in_box(#[trigger] positions@[j], config.bbox_dimensions),
        forall|j: int|
            0 <= j < velocities@.len() ==> -V_MAX <= (#[trigger] velocities@[j]).x <= V_MAX
                && -V_MAX <= velocities@[j].y <= V_MAX && -V_MAX <= velocities@[j].z <= V_MAX,
        forall|j: int| 0 <= j < densities@.len() ==> 1 <= (#[trigger] densities@[j]) <= DENSITY_MAX,
        lookup_table_wf(
            positions@,
            config.smoothing_radius,
            grid_dims_spec(*config),
            pairs@,
            index@,
        ),
    ensures
        final(forces)@ == force_pass_spec(
            *config,
            ghost_particle_cnt as int,
            positions@,
            velocities@,
            densities@,
            old(forces)@,
        ),
        forall|j: int|
            ghost_particle_cnt <= j < final(forces)@.len() ==> -FORCE_MAX <= (#[trigger] final(
                forces
            )@[j]).x <= FORCE_MAX && -FORCE_MAX <= final(forces)@[j].y <= FORCE_MAX && -FORCE_MAX
                <= final(forces)@[j].z <= FORCE_MAX,
{
    let ghost ps = positions@;
    let ghost vs = velocities@;
    let ghost ds = densities@;
    let ghost old_f = forces@;
    let n = positions.len();
    let h = config.smoothing_radius;
    proof {
        lemma_grid_dims_wf(*config);
        lemma_h2_bound(*config);
        assert forall|j: int| 0 <= j < ps.len() implies pos_bounded(#[trigger] ps[j]) by {
            assert(pos_in_box(ps[j], config.bbox_dimensions));
        }
    }
    let h2: i64 = h * h;
    let mut j: usize = ghost_particle_cnt;
    while j < n
        invariant
            config_wf(*config),
            ghost_particle_cnt <= j <= n,
            n == ps.len() == config.particle_cnt,
            positions@ == ps,
            velocities@ == vs,
            densities@ == ds,
            forces@.len() == n == old_f.len() == vs.len() == ds.len(),
            h == config.smoothing_radius,
            h2 as int == h2_spec(*config),
            forall|jj: int|
                0 <= jj < ps.len() ==> pos_in_box(#[trigger] ps[jj], config.bbox_dimensions),
            forall|jj: int| 0 <= jj < ps.len() ==> pos_bounded(#[trigger] ps[jj]),
            forall|jj: int|
                0 <= jj < vs.len() ==> -V_MAX <= (#[trigger] vs[jj]).x <= V_MAX && -V_MAX
                    <= vs[jj].y <= V_MAX && -V_MAX <= vs[jj].z <= V_MAX,
            forall|jj: int| 0 <= jj < ds.len() ==> 1 <= (#[trigger] ds[jj]) <= DENSITY_MAX,
            lookup_table_wf(ps, h, grid_dims_spec(*config), pairs@, index@),
            forall|jj: int| 0 <= jj < j ==> forces@[jj] == force_pass_spec(
                *config,
                ghost_particle_cnt as int,
                ps,
                vs,
                ds,
                old_f,
            )[jj],
            forall|jj: int| j <= jj < n ==> forces@[jj] == old_f[jj],
            forall|jj: int|
                ghost_particle_cnt <= jj < j ==> -FORCE_MAX <= (#[trigger] forces@[jj]).x
                    <= FORCE_MAX && -FORCE_MAX <= forces@[jj].y <= FORCE_MAX && -FORCE_MAX
                    <= forces@[jj].z <= FORCE_MAX,
        decreases n - j,
    {
        let nb = neighbors_within(positions, pairs, index, h, grid_dims(config), j);
        let ghost fx = force_f_x(*config, ps, vs, ds, j as int);
        let ghost fy = force_f_y(*config, ps, vs, ds, j as int);
        let ghost fz = force_f_z(*config, ps, vs, ds, j as int);
        let ghost pd = neighbor_pred(*config, ps, j as int);
        proof {
            assert forall|u: int|
                0 <= u < nb@.len() implies ((#[trigger] nb@[u]) as int) < n && dist2_spec(
                ps[j as int],
                ps[nb@[u] as int],
            ) <= h2_spec(*config) by {
                assert(nb@.contains(nb@[u]));
            }
            crate::numeric::lemma_bounded_distinct_len(nb@, n as int);
            assert(-0x1_0000_0000 <= config.mass * config.gravity.x <= 0x1_0000_0000 && -0x1_0000_0000
                <= config.mass * config.gravity.y <= 0x1_0000_0000 && -0x1_0000_0000 <= config.mass
                * config.gravity.z <= 0x1_0000_0000) by (nonlinear_arith)
                requires
                    0 < config.mass <= 0x10000,
                    -0x10000 <= config.gravity.x <= 0x10000,
                    -0x10000 <= config.gravity.y <= 0x10000,
                    -0x10000 <= config.gravity.z <= 0x10000,
            ;
        }
        let mut accx: i128 = (config.mass as i128) * (config.gravity.x as i128);
        let mut accy: i128 = (config.mass as i128) * (config.gravity.y as i128);
        let mut accz: i128 = (config.mass as i128) * (config.gravity.z as i128);
        let mut t: usize = 0;
        while t < nb.len()
            invariant
                config_wf(*config),
                n == ps.len() == config.particle_cnt,
                positions@ == ps,
                velocities@ == vs,
                densities@ == ds,
                vs.len() == n && ds.len() == n,
                j < n,
                h == config.smoothing_radius,
                h2 as int == h2_spec(*config),
                forall|jj: int| 0 <= jj < ps.len() ==> pos_bounded(#[trigger] ps[jj]),
                forall|jj: int|
                    0 <= jj < vs.len() ==> -V_MAX <= (#[trigger] vs[jj]).x <= V_MAX && -V_MAX
                        <= vs[jj].y <= V_MAX && -V_MAX <= vs[jj].z <= V_MAX,
                forall|jj: int| 0 <= jj < ds.len() ==> 1 <= (#[trigger] ds[jj]) <= DENSITY_MAX,
                t <= nb@.len() <= n,
                forall|u: int| 0 <= u < nb@.len() ==> ((#[trigger] nb@[u]) as int) < n,
                forall|u: int|
                    0 <= u < nb@.len() ==> dist2_spec(ps[j as int], ps[nb@[u] as int]) <= h2_spec(
                        *config,
                    ),
                fx == force_f_x(*config, ps, vs, ds, j as int),
                fy == force_f_y(*config, ps, vs, ds, j as int),
                fz == force_f_z(*config, ps, vs, ds, j as int),
                accx as int == config.mass * config.gravity.x + seq_sum(nb@.take(t as int), fx),
                accy as int == config.mass * config.gravity.y + seq_sum(nb@.take(t as int), fy),
                accz as int == config.mass * config.gravity.z + seq_sum(nb@.take(t as int), fz),
                -0x1_0000_0000 - (t as int) * FTERM_MAX <= accx as int <= 0x1_0000_0000 + (
                t as int) * FTERM_MAX,
                -0x1_0000_0000 - (t as int) * FTERM_MAX <= accy as int <= 0x1_0000_0000 + (
                t as int) * FTERM_MAX,
                -0x1_0000_0000 - (t as int) * FTERM_MAX <= accz as int <= 0x1_0000_0000 + (
                t as int) * FTERM_MAX,
            decreases nb@.len() - t,
        {
            let v = nb[t] as usize;
            proof {
                assert(nb@.take(t + 1int).drop_last() =~= nb@.take(t as int));
                assert(nb@.take(t + 1int).last() == nb@[t as int]);
                assert((0x1_0000_0000 + (t as int) * FTERM_MAX) + FTERM_MAX == 0x1_0000_0000 + (t
                    + 1int) * FTERM_MAX) by (nonlinear_arith);
                assert((t + 1int) * FTERM_MAX <= 0x10000 * FTERM_MAX) by (nonlinear_arith)
                    requires
                        0 <= t + 1int <= 0x10000,
                ;
            }
            if v != j {
                let d2 = dist2(positions[j], positions[v]);
                proof {
                    crate::spatial_lookup::lemma_dist2_nonneg(ps[j as int], ps[v as int]);
                    let px = ps[j as int];
                    let qx = ps[v as int];
                    assert((px.x - qx.x) * (px.x - qx.x) <= dist2_spec(px, qx) && (px.y - qx.y) * (
                    px.y - qx.y) <= dist2_spec(px, qx) && (px.z - qx.z) * (px.z - qx.z)
                        <= dist2_spec(px, qx)) by (nonlinear_arith);
                }
                let dx = positions[j].x - positions[v].x;
                let dy = positions[j].y - positions[v].y;
                let dz = positions[j].z - positions[v].z;
                let tx = force_term_exec(
                    config,
                    d2,
                    dx,
                    densities[j],
                    densities[v],
                    velocities[v].x - velocities[j].x,
                );
                let ty = force_term_exec(
                    config,
                    d2,
                    dy,
                    densities[j],
                    densities[v],
                    velocities[v].y - velocities[j].y,
                );
                let tz = force_term_exec(
                    config,
                    d2,
                    dz,
                    densities[j],
                    densities[v],
                    velocities[v].z - velocities[j].z,
                );
                proof {
                    assert(fx(v as int) == tx as int);
                    assert(fy(v as int) == ty as int);
                    assert(fz(v as int) == tz as int);
                }
                accx = accx + tx;
                accy = accy + ty;
                accz = accz + tz;
            } else {
                proof {
                    assert(fx(v as int) == 0 && fy(v as int) == 0 && fz(v as int) == 0);
                }
            }
            t = t + 1;
        }
        proof {
            assert(nb@.take(nb@.len() as int) =~= nb@);
            assert forall|v: u32| nb@.contains(v) <==> ((v as int) < n && pd(v as int)) by {}
            lemma_seq_sum_by_membership(nb@, n as int, fx, pd);
            lemma_seq_sum_by_membership(nb@, n as int, fy, pd);
            lemma_seq_sum_by_membership(nb@, n as int, fz, pd);
            assert((nb@.len() as int) * FTERM_MAX <= 0x10000 * FTERM_MAX) by (nonlinear_arith)
                requires
                    0 <= nb@.len() as int <= 0x10000,
            ;
        }
        forces.set(j, WideVec3 { x: accx, y: accy, z: accz });
        j = j + 1;
    }
    proof {
        assert(forces@ =~= force_pass_spec(
            *config,
            ghost_particle_cnt as int,
            ps,
            vs,
            ds,
            old_f,
        ));
    }
}

/// The velocity after the acceleration half of the semi-implicit Euler
/// step: force over density, saturated, scaled by the time step, added to
/// the old velocity and saturated again.
pub open spec fn vel1_comp(c: FluidSimulationConfig, f: int, rho: int, v: int, dt: int) -> int {
    let accel = clamp_spec(div_trunc_spec(f, rho), ACCEL_MAX as int);
    let dv = div_trunc_spec(accel * dt, DT_DEN as int);
    clamp_spec(v + dv, V_MAX as int)
}

/// The tentative position after moving with the new velocity.
pub open spec fn praw_comp(
    c: FluidSimulationConfig,
    f: int,
    rho: int,
    v: int,
    p: int,
    dt: int,
) -> int {
    p + div_trunc_spec(vel1_comp(c, f, rho, v, dt) * dt, DT_DEN as int)
}

/// The position after the step: the tentative position, clamped into
/// `[0, bound]` at the box walls.
pub open spec fn step_pos_comp(
    c: FluidSimulationConfig,
    f: int,
    rho: int,
    v: int,
    p: int,
    bound: int,
    dt: int,
) -> int {
    let praw = praw_comp(c, f, rho, v, p, dt);
    if praw < 0 {
        0
    } else if praw > bound {
        bound
    } else {
        praw
    }
}

/// The velocity after the step: flipped and damped where the tentative
/// position left the box, unchanged otherwise.
pub open spec fn step_vel_comp(
    c: FluidSimulationConfig,
    f: int,
    rho: int,
    v: int,
    p: int,
    bound: int,
    dt: int,
) -> int {
    let v1 = vel1_comp(c, f, rho, v, dt);
    let praw = praw_comp(c, f, rho, v, p, dt);
    if praw < 0 || praw > bound {
        -div_trunc_spec(v1 * c.damping, DAMPING_DEN as int)
    } else {
        v1
    }
}

/// The position buffer after integration: boundary particles never move.
pub open spec fn step_positions_spec(
    c: FluidSimulationConfig,
    ghost_cnt: int,
    ps: Seq<Pos>,
    vels: Seq<Pos>,
    dens: Seq<i64>,
    fs: Seq<WideVec3>,
    dt: int,
) -> Seq<Pos> {
    Seq::new(
        ps.len(),
        |j: int|
            if j < ghost_cnt {
                ps[j]
            } else {
                Pos {
                    x: step_pos_comp(
                        c,
                        fs[j].x as int,
                        dens[j] as int,
                        vels[j].x as int,
                        ps[j].x as int,
                        c.bbox_dimensions.x as int,
                        dt,
                    ) as i64,
                    y: step_pos_comp(
                        c,
                        fs[j].y as int,
                        dens[j] as int,
                        vels[j].y as int,
                        ps[j].y as int,
                        c.bbox_dimensions.y as int,
                        dt,
                    ) as i64,
                    z: step_pos_comp(
                        c,
                        fs[j].z as int,
                        dens[j] as int,
                        vels[j].z as int,
                        ps[j].z as int,
                        c.bbox_dimensions.z as int,
                        dt,
                    ) as i64,
                }
            },
    )
}

/// The velocity buffer after integration: boundary particles keep zero.
pub open spec fn step_velocities_spec(
    c: FluidSimulationConfig,
    ghost_cnt: int,
    ps: Seq<Pos>,
    vels: Seq<Pos>,
    dens: Seq<i64>,
    fs: Seq<WideVec3>,
    dt: int,
) -> Seq<Pos> {
    Seq::new(
        vels.len(),
        |j: int|
            if j < ghost_cnt {
                vels[j]
            } else {
                Pos {
                    x: step_vel_comp(
                        c,
                        fs[j].x as int,
                        dens[j] as int,
                        vels[j].x as int,
                        ps[j].x as int,
                        c.bbox_dimensions.x as int,
                        dt,
                    ) as i64,
                    y: step_vel_comp(
                        c,
                        fs[j].y as int,
                        dens[j] as int,
                        vels[j].y as int,
                        ps[j].y as int,
                        c.bbox_dimensions.y as int,
                        dt,
                    ) as i64,
                    z: step_vel_comp(
                        c,
                        fs[j].z as int,
                        dens[j] as int,
                        vels[j].z as int,
                        ps[j].z as int,
                        c.bbox_dimensions.z as int,
                        dt,
                    ) as i64,
                }
            },
    )
}

/// Integrate one component: semi-implicit Euler with saturation, then the
/// box-boundary clamp with flip-and-damp. Returns (position, velocity).
fn integrate_comp(
    config: &FluidSimulationConfig,
    f: i128,
    rho: i64,
    v: i64,
    p: i64,
    bound: i64,
    dt: i64,
) -> (r: (i64, i64))
    requires
        config_wf(*config),
        1 <= rho <= DENSITY_MAX,
        -FORCE_MAX <= f <= FORCE_MAX,
        -V_MAX <= v <= V_MAX,
        0 <= p <= bound,
        bound <= BBOX_MAX,
        0 <= dt <= DT_NUM_MAX,
    ensures
        r.0 as int == step_pos_comp(
            *config,
            f as int,
            rho as int,
            v as int,
            p as int,
            bound as int,
            dt as int,
        ),
        r.1 as int == step_vel_comp(
            *config,
            f as int,
            rho as int,
            v as int,
            p as int,
            bound as int,
            dt as int,
        ),
        0 <= r.0 <= bound,
        -V_MAX <= r.1 <= V_MAX,
{
    let accel_raw = div_q(f, rho as i128);
    let accel = clamp_i128(accel_raw, ACCEL_MAX);
    proof {
        assert(-(0x100_0000_0000 * 0x10000) <= (accel as int) * (dt as int) && (accel as int) * (
        dt as int) <= 0x100_0000_0000 * 0x10000) by (nonlinear_arith)
            requires
                -0x100_0000_0000 <= accel as int <= 0x100_0000_0000,
                0 <= dt as int <= 0x10000,
        ;
        lemma_div_trunc_bound((accel as int) * (dt as int), DT_DEN as int, V_MAX as int);
        assert((V_MAX as int) * (DT_DEN as int) == 0x100_0000_0000 * 0x10000)
            by (nonlinear_arith);
    }
    let dv = div_q(accel * (dt as i128), DT_DEN as i128);
    let v1 = clamp_i128((v as i128) + dv, V_MAX as i128);
    proof {
        assert(-(0x100_0000_0000 * 0x10000) <= (v1 as int) * (dt as int) && (v1 as int) * (
        dt as int) <= 0x100_0000_0000 * 0x10000) by (nonlinear_arith)
            requires
                -0x100_0000_0000 <= v1 as int <= 0x100_0000_0000,
                0 <= dt as int <= 0x10000,
        ;
        lemma_div_trunc_bound((v1 as int) * (dt as int), DT_DEN as int, V_MAX as int);
    }
    let dp = div_q(v1 * (dt as i128), DT_DEN as i128);
    let praw = (p as i128) + dp;
    if praw < 0 || praw > bound as i128 {
        proof {
            assert(-(V_MAX as int * (DAMPING_DEN as int)) <= (v1 as int) * (config.damping as int)
                && (v1 as int) * (config.damping as int) <= V_MAX as int * (DAMPING_DEN as int))
                by (nonlinear_arith)
                requires
                    -V_MAX as int <= v1 as int <= V_MAX as int,
                    0 <= config.damping <= DAMPING_DEN as int,
            ;
            lemma_div_trunc_bound(
                (v1 as int) * (config.damping as int),
                DAMPING_DEN as int,
                V_MAX as int,
            );
        }
        let vflip = -div_q(v1 * (config.damping as i128), DAMPING_DEN as i128);
        let pnew: i64 = if praw < 0 {
            0
        } else {
            bound
        };
        (pnew, vflip as i64)
    } else {
        (praw as i64, v1 as i64)
    }
}

/// Integration pass: one semi-implicit Euler step per fluid particle, with
/// positions clamped to the box and velocities flipped and damped at the
/// walls. Boundary particles are never integrated.
pub fn update_particles_pass(
    config: &FluidSimulationConfig,
    ghost_particle_cnt: usize,
    densities: &Vec<i64>,
    forces: &Vec<WideVec3>,
    positions: &mut Vec<Pos>,
    velocities: &mut Vec<Pos>,
    dt: i64,
)
    requires
        config_wf(*config),
        ghost_particle_cnt < config.particle_cnt,
        old(positions)@.len() == config.particle_cnt,
        old(velocities)@.len() == config.particle_cnt,
        densities@.len() == config.particle_cnt,
        forces@.len() == config.particle_cnt,
        0 <= dt <= DT_NUM_MAX,
        forall|j: int|
            0 <= j < old(positions)@.len() ==> pos_in_box(
                #[trigger] old(positions)@[j],
                config.bbox_dimensions,
            ),
        forall|j: int|
            0 <= j < old(velocities)@.len() ==> -V_MAX <= (#[trigger] old(velocities)@[j]).x
                <= V_MAX && -V_MAX <= old(velocities)@[j].y <= V_MAX && -V_MAX <= old(
                velocities,
            )@[j].z <= V_MAX,
        forall|j: int| 0 <= j < densities@.len() ==> 1 <= (#[trigger] densities@[j]) <= DENSITY_MAX,
        forall|j: int|
            ghost_particle_cnt <= j < forces@.len() ==> -FORCE_MAX <= (#[trigger] forces@[j]).x
                <= FORCE_MAX && -FORCE_MAX <= forces@[j].y <= FORCE_MAX && -FORCE_MAX
                <= forces@[j].z <= FORCE_MAX,
    ensures
        final(positions)@ == step_positions_spec(
            *config,
            ghost_particle_cnt as int,
            old(positions)@,
            old(velocities)@,
            densities@,
            forces@,
            dt as int,
        ),
        final(velocities)@ == step_velocities_spec(
            *config,
            ghost_particle_cnt as int,
            old(positions)@,
            old(velocities)@,
            densities@,
            forces@,
            dt as int,
        ),
        forall|j: int|
            0 <= j < final(positions)@.len() ==> pos_in_box(
                #[trigger] final(positions)@[j],
                config.bbox_dimensions,
            ),
        forall|j: int|
            0 <= j < final(velocities)@.len() ==> -V_MAX <= (#[trigger] final(velocities)@[j]).x
                <= V_MAX && -V_MAX <= final(velocities)@[j].y <= V_MAX && -V_MAX <= final(
                velocities
            )@[j].z <= V_MAX,
{
    let ghost ps = positions@;
    let ghost vs = velocities@;
    let n = positions.len();
    let mut j: usize = ghost_particle_cnt;
    while j < n
        invariant
            config_wf(*config),
            ghost_particle_cnt <= j <= n,
            n == ps.len() == config.particle_cnt == vs.len(),
            positions@.len() == n && velocities@.len() == n,
            densities@.len() == n && forces@.len() == n,
            0 <= dt <= DT_NUM_MAX,
            forall|jj: int|
                0 <= jj < ps.len() ==> pos_in_box(#[trigger] ps[jj], config.bbox_dimensions),
            forall|jj: int|
                0 <= jj < vs.len() ==> -V_MAX <= (#[trigger] vs[jj]).x <= V_MAX && -V_MAX
                    <= vs[jj].y <= V_MAX && -V_MAX <= vs[jj].z <= V_MAX,
            forall|jj: int|
                0 <= jj < densities@.len() ==> 1 <= (#[trigger] densities@[jj]) <= DENSITY_MAX,
            forall|jj: int|
                ghost_particle_cnt <= jj < forces@.len() ==> -FORCE_MAX <= (
                #[trigger] forces@[jj]).x <= FORCE_MAX && -FORCE_MAX <= forces@[jj].y <= FORCE_MAX
                    && -FORCE_MAX <= forces@[jj].z <= FORCE_MAX,
            forall|jj: int| 0 <= jj < j ==> positions@[jj] == step_positions_spec(
                *config,
                ghost_particle_cnt as int,
                ps,
                vs,
                densities@,
                forces@,
                dt as int,
            )[jj],
            forall|jj: int| 0 <= jj < j ==> velocities@[jj] == step_velocities_spec(
                *config,
                ghost_particle_cnt as int,
                ps,
                vs,
                densities@,
                forces@,
                dt as int,
            )[jj],
            forall|jj: int| j <= jj < n ==> positions@[jj] == ps[jj] && velocities@[jj] == vs[jj],
            forall|jj: int|
                0 <= jj < positions@.len() ==> pos_in_box(
                    #[trigger] positions@[jj],
                    config.bbox_dimensions,
                ),
            forall|jj: int|
                0 <= jj < velocities@.len() ==> -V_MAX <= (#[trigger] velocities@[jj]).x <= V_MAX
                    && -V_MAX <= velocities@[jj].y <= V_MAX && -V_MAX <= velocities@[jj].z
                    <= V_MAX,
        decreases n - j,
    {
        let rho = densities[j];
        let fj = forces[j];
        let (px, vx) = integrate_comp(
            config,
            fj.x,
            rho,
            velocities[j].x,
            positions[j].x,
            config.bbox_dimensions.x,
            dt,
        );
        let (py, vy) = integrate_comp(
            config,
            fj.y,
            rho,
            velocities[j].y,
            positions[j].y,
            config.bbox_dimensions.y,
            dt,
        );
        let (pz, vz) = integrate_comp(
            config,
            fj.z,
            rho,
            velocities[j].z,
            positions[j].z,
            config.bbox_dimensions.z,
            dt,
        );
        positions.set(j, Pos { x: px, y: py, z: pz });
        velocities.set(j, Pos { x: vx, y: vy, z: vz });
        j = j + 1;
    }
    proof {
        assert(positions@ =~= step_positions_spec(
            *config,
            ghost_particle_cnt as int,
            ps,
            vs,
            densities@,
            forces@,
            dt as int,
        ));
        assert(velocities@ =~= step_velocities_spec(
            *config,
            ghost_particle_cnt as int,
            ps,
            vs,
            densities@,
            forces@,
            dt as int,
        ));
    }
}

/// The color ramp position of a density: 0 at vacuum, saturating at twice
/// the rest density.
pub open spec fn display_t_spec(c: FluidSimulationConfig, rho: int) -> int {
    let t = div_trunc_spec(rho * 255, 2 * c.rest_density);
    if t > 255 {
        255
    } else {
        t
    }
}

/// The display buffer: one vertex per particle, position plus a color that
/// fades from the low-density hue to the high-density hue.
pub open spec fn display_pass_spec(
    c: FluidSimulationConfig,
    ps: Seq<Pos>,
    dens: Seq<i64>,
) -> Seq<ColoredVertex> {
    Seq::new(
        ps.len(),
        |j: int| ColoredVertex {
            position: ps[j],
            red: display_t_spec(c, dens[j] as int) as u8,
            green: 96,
            blue: (255 - display_t_spec(c, dens[j] as int)) as u8,
        },
    )
}

/// Display pass: write every particle, boundary ones included, as a
/// (position, color) vertex for instanced drawing.
pub fn fill_display_pass(
    config: &FluidSimulationConfig,
    positions: &Vec<Pos>,
    densities: &Vec<i64>,
    display: &mut Vec<ColoredVertex>,
)
    requires
        config_wf(*config),
        positions@.len() == config.particle_cnt,
        densities@.len() == config.particle_cnt,
        old(display)@.len() == config.particle_cnt,
        forall|j: int| 0 <= j < densities@.len() ==> 1 <= (#[trigger] densities@[j]) <= DENSITY_MAX,
    ensures
        final(display)@ == display_pass_spec(*config, positions@, densities@),
{
    let n = positions.len();
    let mut j: usize = 0;
    while j < n
        invariant
            config_wf(*config),
            j <= n,
            n == positions@.len() == config.particle_cnt,
            densities@.len() == n && display@.len() == n,
            forall|jj: int|
                0 <= jj < densities@.len() ==> 1 <= (#[trigger] densities@[jj]) <= DENSITY_MAX,
            forall|jj: int| 0 <= jj < j ==> display@[jj] == display_pass_spec(
                *config,
                positions@,
                densities@,
            )[jj],
        decreases n - j,
    {
        let rho = densities[j];
        proof {
            assert(0 <= (rho as int) * 255 && (rho as int) * 255 <= 0x255_0000_0000_0000)
                by (nonlinear_arith)
                requires
                    1 <= rho as int <= 0x1_0000_0000_0000,
            ;
            lemma_div_trunc_nonneg((rho as int) * 255, 2 * (config.rest_density as int));
        }
        let traw = div_q((rho as i128) * 255, 2 * (config.rest_density as i128));
        let t: i64 = if traw > 255 {
            255
        } else {
            traw as i64
        };
        display.set(
            j,
            ColoredVertex {
                position: positions[j],
                red: t as u8,
                green: 96,
                blue: (255 - t) as u8,
            },
        );
        j = j + 1;
    }
    proof {
        assert(display@ =~= display_pass_spec(*config, positions@, densities@));
    }
}

/// The bound on one density term: mass times the kernel headroom.
pub open spec fn c_mass_headroom(c: FluidSimulationConfig) -> int {
    c.mass * 0x10000
}

/// Relies on rand's `Rng::gen_range` on a nonempty inclusive `i64` range:
/// the sampled value lies within the bounds. Which value comes back is not
/// promised; callers hold for every outcome.
#[verifier::external_body]
fn random_jitter(bound: i64) -> (r: i64)
    requires
        bound >= 0,
    ensures
        -bound <= r <= bound,
{
    rand::thread_rng().gen_range(-bound..=bound)
}

/// The smallest lattice edge whose cube covers `k` points (bounded search).
fn icbrt(k: usize) -> (m: usize)
    requires
        1 <= k <= 0x10000,
    ensures
        1 <= m <= 41,
        m * m * m >= k,
        is_cube_edge(m as int, k as int),
{
    let mut m: usize = 1;
    let mut cube: usize = 1;
    while cube < k
        invariant
            1 <= m <= 41,
            cube == m * m * m,
            k <= 0x10000,
            m == 1 || (m - 1) * (m - 1) * (m - 1) < k,
        decreases 41 - m,
    {
        proof {
            assert(m < 41) by (nonlinear_arith)
                requires
                    m * m * m < k,
                    k <= 0x10000,
                    1 <= m <= 41,
                    cube == m * m * m,
            ;
            assert((m + 1) * (m + 1) <= 1764 && ((m + 1) * (m + 1)) * (m + 1) <= 74088 && m * m
                * m < ((m + 1) * (m + 1)) * (m + 1)) by (nonlinear_arith)
                requires
                    1 <= m <= 40,
            ;
        }
        m = m + 1;
        cube = (m * m) * m;
    }
    m
}

/// The ghost lattice spacing: the smoothing radius squeezed to 55 percent.
pub open spec fn ghost_spacing_spec(c: FluidSimulationConfig) -> int {
    (c.smoothing_radius as int) * 55 / 100
}

/// How many boundary particles the two floor layers hold.
pub open spec fn ghost_count_spec(c: FluidSimulationConfig) -> int {
    2 * ceil_div_spec(c.bbox_dimensions.x as int, ghost_spacing_spec(c)) * ceil_div_spec(
        c.bbox_dimensions.z as int,
        ghost_spacing_spec(c),
    )
}

/// A configuration the constructor accepts: numerically sound, with room
/// for at least one fluid particle beside the boundary layers.
pub open spec fn config_ok_spec(c: FluidSimulationConfig) -> bool {
    config_wf(c) && ghost_count_spec(c) < c.particle_cnt as int
}

/// A coordinate pulled into `[0, hi]`.
pub open spec fn clamp_box_spec(v: int, hi: int) -> int {
    if v < 0 {
        0
    } else if v > hi {
        hi
    } else {
        v
    }
}

/// `m` is the smallest lattice edge whose cube covers `k` points.
pub open spec fn is_cube_edge(m: int, k: int) -> bool {
    1 <= m && m * m * m >= k && (m == 1 || (m - 1) * (m - 1) * (m - 1) < k)
}

/// The boundary particle of slot `t`: the two floor layers tile the box
/// floor row-major at the squeezed spacing, layer by layer.
pub open spec fn ghost_position_spec(c: FluidSimulationConfig, t: int) -> Pos {
    let sp = ghost_spacing_spec(c);
    let gx = ceil_div_spec(c.bbox_dimensions.x as int, sp);
    let gz = ceil_div_spec(c.bbox_dimensions.z as int, sp);
    let layer = t / (gx * gz);
    let rem = t % (gx * gz);
    Pos { x: ((rem / gz) * sp) as i64, y: (layer * sp) as i64, z: ((rem % gz) * sp) as i64 }
}

/// The per-axis jitter bound of the fluid lattice starts.
pub open spec fn fluid_jitter_spec(c: FluidSimulationConfig) -> int {
    (c.smoothing_radius as int) / 12
}

/// The centered lattice origin along one axis: half the slack the lattice
/// span leaves in the box, or the wall when the lattice is wider.
pub open spec fn fluid_base_spec(bound: int, m: int, sp: int) -> int {
    if (m - 1) * sp >= bound {
        0
    } else {
        (bound - (m - 1) * sp) / 2
    }
}

/// The fluid start of cube slot `u` under the jitters `(jx, jy, jz)`: the
/// jittered lattice point, clamped into the box per axis.
pub open spec fn fluid_start_at(
    c: FluidSimulationConfig,
    m: int,
    u: int,
    jx: int,
    jy: int,
    jz: int,
) -> Pos {
    let sp = ghost_spacing_spec(c);
    Pos {
        x: clamp_box_spec(
            fluid_base_spec(c.bbox_dimensions.x as int, m, sp) + ((u / m) % m) * sp + jx,
            c.bbox_dimensions.x as int,
        ) as i64,
        y: clamp_box_spec(
            fluid_base_spec(c.bbox_dimensions.y as int, m, sp) + (u / (m * m)) * sp + jy,
            c.bbox_dimensions.y as int,
        ) as i64,
        z: clamp_box_spec(
            fluid_base_spec(c.bbox_dimensions.z as int, m, sp) + (u % m) * sp + jz,
            c.bbox_dimensions.z as int,
        ) as i64,
    }
}

/// A fluid slot starts at its lattice point moved by some admissible
/// jitter: at most the jitter bound per axis, whatever the draw returned.
pub open spec fn fluid_start_ok(c: FluidSimulationConfig, m: int, u: int, p: Pos) -> bool {
    exists|jx: int, jy: int, jz: int|
        #![trigger fluid_start_at(c, m, u, jx, jy, jz)]
        -fluid_jitter_spec(c) <= jx <= fluid_jitter_spec(c) && -fluid_jitter_spec(c) <= jy
            <= fluid_jitter_spec(c) && -fluid_jitter_spec(c) <= jz <= fluid_jitter_spec(c) && p
            == fluid_start_at(c, m, u, jx, jy, jz)
}

/// The initial particle layout: the first `ghost_count_spec` slots are the
/// two boundary floor layers, exactly on their lattice; the remaining
/// slots sit on a jittered cubic lattice centered in the box, with the
/// smallest cube edge that covers the fluid count.
pub open spec fn initial_layout_ok(c: FluidSimulationConfig, positions: Seq<Pos>) -> bool {
    &&& forall|t: int|
        0 <= t < ghost_count_spec(c) ==> (#[trigger] positions[t]) == ghost_position_spec(c, t)
    &&& exists|m: int|
        #![trigger is_cube_edge(m, c.particle_cnt - ghost_count_spec(c))]
        is_cube_edge(m, c.particle_cnt - ghost_count_spec(c)) && (forall|t: int|
            ghost_count_spec(c) <= t < positions.len() ==> fluid_start_ok(
                c,
                m,
                t - ghost_count_spec(c),
                #[trigger] positions[t],
            ))
}

/// The SPH solver state: the immutable configuration, the boundary
/// particle count, and the per-particle buffers. The first
/// `ghost_particle_cnt` slots are static boundary particles: two floor
/// layers that serve as density and force neighbors but are never
/// integrated, and whose velocity and force are never written.
pub struct FluidSimulation {
    pub config: FluidSimulationConfig,
    pub ghost_particle_cnt: usize,
    pub positions: Vec<Pos>,
    pub velocities: Vec<Pos>,
    pub densities: Vec<i64>,
    pub forces: Vec<WideVec3>,
    pub display: Vec<ColoredVertex>,
}

/// The solver's state invariant: a sound configuration; buffers sized to
/// the particle count; every position inside the box; velocities and
/// densities within their saturation bounds; boundary particles contiguous
/// at the front with zero velocity, the rest density, and an untouched
/// force accumulator.
pub open spec fn state_wf(s: FluidSimulation) -> bool {
    &&& config_wf(s.config)
    &&& s.ghost_particle_cnt < s.config.particle_cnt
    &&& s.positions@.len() == s.config.particle_cnt
    &&& s.velocities@.len() == s.config.particle_cnt
    &&& s.densities@.len() == s.config.particle_cnt
    &&& s.forces@.len() == s.config.particle_cnt
    &&& s.display@.len() == s.config.particle_cnt
    &&& forall|j: int|
        0 <= j < s.positions@.len() ==> pos_in_box(
            #[trigger] s.positions@[j],
            s.config.bbox_dimensions,
        )
    &&& forall|j: int|
        0 <= j < s.velocities@.len() ==> -V_MAX <= (#[trigger] s.velocities@[j]).x <= V_MAX
            && -V_MAX <= s.velocities@[j].y <= V_MAX && -V_MAX <= s.velocities@[j].z <= V_MAX
    &&& forall|j: int|
        0 <= j < s.densities@.len() ==> 1 <= (#[trigger] s.densities@[j]) <= DENSITY_MAX
    &&& forall|j: int|
        0 <= j < s.forces@.len() ==> -FORCE_MAX <= (#[trigger] s.forces@[j]).x <= FORCE_MAX
            && -FORCE_MAX <= s.forces@[j].y <= FORCE_MAX && -FORCE_MAX <= s.forces@[j].z
            <= FORCE_MAX
    &&& forall|j: int|
        0 <= j < s.ghost_particle_cnt ==> (#[trigger] s.velocities@[j]) == (Pos {
            x: 0,
            y: 0,
            z: 0,
        }) && s.densities@[j] == s.config.rest_density && s.forces@[j] == (WideVec3 {
            x: 0,
            y: 0,
            z: 0,
        })
}

/// Boundary containment: in every well-formed state — in particular after
/// any number of frame updates from a valid initial state — every
/// particle's position lies within `[0, bbox]` on all three axes.
pub proof fn lemma_wf_gives_containment(s: FluidSimulation)
    requires
        state_wf(s),
    ensures
        forall|j: int|
            0 <= j < s.positions@.len() ==> 0 <= (#[trigger] s.positions@[j]).x
                <= s.config.bbox_dimensions.x && 0 <= s.positions@[j].y
                <= s.config.bbox_dimensions.y && 0 <= s.positions@[j].z
                <= s.config.bbox_dimensions.z,
{
}

/// Build the per-frame spatial lookup over the current positions, under
/// the configuration's grid.
fn rebuild_lookup(config: &FluidSimulationConfig, positions: &Vec<Pos>) -> (r:
    crate::spatial_lookup::SpatialLookup)
    requires
        config_wf(*config),
        positions@.len() == config.particle_cnt,
        forall|j: int|
            0 <= j < positions@.len() ==> pos_in_box(#[trigger] positions@[j], config.bbox_dimensions),
    ensures
        lookup_table_wf(
            positions@,
            config.smoothing_radius,
            grid_dims_spec(*config),
            r.pairs@,
            r.index@,
        ),
{
    let h = config.smoothing_radius;
    let d = grid_dims(config);
    proof {
        lemma_grid_dims_wf(*config);
        assert forall|j: int| 0 <= j < positions@.len() implies pos_bounded(
            #[trigger] positions@[j],
        ) by {
            assert(pos_in_box(positions@[j], config.bbox_dimensions));
        }
    }
    crate::spatial_lookup::SpatialLookup::new(positions, h, d)
}

impl FluidSimulation {
    /// One frame. When paused, nothing at all runs, so any number of
    /// repeated paused frames leaves every particle position, velocity,
    /// density and force — the whole state — exactly as it was. When
    /// running, the frame rebuilds the spatial lookup over the current
    /// positions and then runs the density, force, integration and
    /// display passes in order.
    pub fn update(&mut self, dt: i64, simulation_paused: bool)
        requires
            state_wf(*old(self)),
            0 <= dt <= DT_NUM_MAX,
        ensures
            state_wf(*final(self)),
            final(self).config == old(self).config,
            final(self).ghost_particle_cnt == old(self).ghost_particle_cnt,
            simulation_paused ==> *final(self) == *old(self),
            !simulation_paused ==> final(self).densities@ == density_pass_spec(
                old(self).config,
                old(self).ghost_particle_cnt as int,
                old(self).positions@,
                old(self).densities@,
            ),
            !simulation_paused ==> final(self).forces@ == force_pass_spec(
                old(self).config,
                old(self).ghost_particle_cnt as int,
                old(self).positions@,
                old(self).velocities@,
                final(self).densities@,
                old(self).forces@,
            ),
            !simulation_paused ==> final(self).positions@ == step_positions_spec(
                old(self).config,
                old(self).ghost_particle_cnt as int,
                old(self).positions@,
                old(self).velocities@,
                final(self).densities@,
                final(self).forces@,
                dt as int,
            ),
            !simulation_paused ==> final(self).velocities@ == step_velocities_spec(
                old(self).config,
                old(self).ghost_particle_cnt as int,
                old(self).positions@,
                old(self).velocities@,
                final(self).densities@,
                final(self).forces@,
                dt as int,
            ),
            !simulation_paused ==> final(self).display@ == display_pass_spec(
                old(self).config,
                final(self).positions@,
                final(self).densities@,
            ),
    {
        if simulation_paused {
            return ;
        }
        let lookup = rebuild_lookup(&self.config, &self.positions);
        compute_density_pass(
            &self.config,
            self.ghost_particle_cnt,
            &self.positions,
            &lookup.pairs,
            &lookup.index,
            &mut self.densities,
        );
        compute_force_pass(
            &self.config,
            self.ghost_particle_cnt,
            &self.positions,
            &self.velocities,
            &self.densities,
            &lookup.pairs,
            &lookup.index,
            &mut self.forces,
        );
        update_particles_pass(
            &self.config,
            self.ghost_particle_cnt,
            &self.densities,
            &self.forces,
            &mut self.positions,
            &mut self.velocities,
            dt,
        );
        fill_display_pass(&self.config, &self.positions, &self.densities, &mut self.display);
    }
}

/// Clamp a coordinate into `[0, hi]`.
fn clamp_coord(v: i64, hi: i64) -> (r: i64)
    requires
        hi >= 0,
    ensures
        r as int == clamp_box_spec(v as int, hi as int),
        0 <= r <= hi,
{
    if v < 0 {
        0
    } else if v > hi {
        hi
    } else {
        v
    }
}

impl FluidSimulation {
    /// Build a simulation from a configuration: reject any configuration
    /// that breaks the numeric soundness conditions or whose boundary
    /// layers would leave no room for fluid particles; otherwise lay two
    /// static boundary layers across the box floor, scatter the fluid
    /// particles on a jittered cubic lattice around the box center, start
    /// every particle at rest with the rest density and a cleared force
    /// accumulator, and write the display buffer from that state.
    pub fn new(config: FluidSimulationConfig) -> (r: Option<FluidSimulation>)
        ensures
            r.is_some() <==> config_ok_spec(config),
            r.is_some() ==> state_wf(r.unwrap()) && r.unwrap().config == config && r.unwrap()
                .ghost_particle_cnt as int == ghost_count_spec(config),
            r.is_some() ==> forall|j: int|
                0 <= j < r.unwrap().velocities@.len() ==> (#[trigger] r.unwrap().velocities@[j])
                    == (Pos { x: 0, y: 0, z: 0 }),
            r.is_some() ==> forall|j: int|
                0 <= j < r.unwrap().densities@.len() ==> (#[trigger] r.unwrap().densities@[j])
                    == config.rest_density,
            r.is_some() ==> forall|j: int|
                0 <= j < r.unwrap().forces@.len() ==> (#[trigger] r.unwrap().forces@[j]) == (
                WideVec3 { x: 0, y: 0, z: 0 }),
            r.is_some() ==> r.unwrap().display@ == display_pass_spec(
                config,
                r.unwrap().positions@,
                r.unwrap().densities@,
            ),
            r.is_some() ==> initial_layout_ok(config, r.unwrap().positions@),
    {
        if !(config.particle_cnt >= 1 && config.particle_cnt <= N_MAX) {
            return None;
        }
        if !(config.smoothing_radius >= 2 && config.smoothing_radius <= H_MAX) {
            return None;
        }
        if !(config.mass >= 1 && config.mass <= MASS_MAX) {
            return None;
        }
        if !(config.damping >= 0 && config.damping <= DAMPING_DEN) {
            return None;
        }
        if !(config.gas_const >= 0 && config.gas_const <= GAS_MAX) {
            return None;
        }
        if !(config.rest_density >= 1 && config.rest_density <= REST_MAX) {
            return None;
        }
        if !(config.viscosity >= 0 && config.viscosity <= VISC_MAX) {
            return None;
        }
        if !(config.gravity.x >= -GRAV_MAX && config.gravity.x <= GRAV_MAX && config.gravity.y
            >= -GRAV_MAX && config.gravity.y <= GRAV_MAX && config.gravity.z >= -GRAV_MAX
            && config.gravity.z <= GRAV_MAX) {
            return None;
        }
        let h = config.smoothing_radius;
        if !(config.bbox_dimensions.x >= h && config.bbox_dimensions.x <= BBOX_MAX
            && config.bbox_dimensions.y >= h && config.bbox_dimensions.y <= BBOX_MAX
            && config.bbox_dimensions.z >= h && config.bbox_dimensions.z <= BBOX_MAX) {
            return None;
        }
        proof {
            assert(4 <= (h as int) * (h as int) <= 0x100_0000) by (nonlinear_arith)
                requires
                    2 <= h <= 0x1000,
            ;
        }
        let h2: i64 = h * h;
        proof {
            assert(0 <= (h2 as int) * (h2 as int) <= 0x1_0000_0000_0000 && 0 <= ((h2 as int) * (
            h2 as int)) * (h2 as int) <= 0x1_0000_0000_0000_0000_0000) by (nonlinear_arith)
                requires
                    0 <= h2 <= 0x100_0000,
            ;
        }
        let h4: i64 = h2 * h2;
        let h6: i128 = (h4 as i128) * (h2 as i128);
        if !(config.kernel_norm >= 1) {
            return None;
        }
        proof {
            assert((config.mass as int) * (h6 as int) <= 0x1_0000_0000_0000_0000_0000_0000)
                by (nonlinear_arith)
                requires
                    1 <= config.mass <= 0x10000,
                    0 <= h6 as int <= 0x1_0000_0000_0000_0000_0000,
            ;
        }
        if !((config.kernel_norm as i128) <= (config.mass as i128) * h6) {
            return None;
        }
        if !(h6 <= (config.kernel_norm as i128) * 0x10000) {
            return None;
        }
        if !(config.grad_norm >= 1) {
            return None;
        }
        if !((h4 as i128) <= (config.grad_norm as i128) * 0x1000) {
            return None;
        }
        if !(config.lapl_norm >= 1) {
            return None;
        }
        if !((h2 as i128) <= (config.lapl_norm as i128) * 0x1000) {
            return None;
        }
        let cgx = (config.bbox_dimensions.x + h - 1) / h;
        let cgy = (config.bbox_dimensions.y + h - 1) / h;
        let cgz = (config.bbox_dimensions.z + h - 1) / h;
        proof {
            lemma_ceil_div_bounds(config.bbox_dimensions.x as int, h as int);
            lemma_ceil_div_bounds(config.bbox_dimensions.y as int, h as int);
            lemma_ceil_div_bounds(config.bbox_dimensions.z as int, h as int);
            assert(0 <= (cgx as int) * (cgy as int) <= 0x1000_0000_0000_0000 && 0 <= ((
            cgx as int) * (cgy as int)) * (cgz as int)
                <= 0x4000_0000_0000_0000_0000_0000) by (nonlinear_arith)
                requires
                    1 <= cgx <= 0x4000_0000,
                    1 <= cgy <= 0x4000_0000,
                    1 <= cgz <= 0x4000_0000,
            ;
        }
        if !((cgx as u128) * (cgy as u128) * (cgz as u128) <= 0xffff_ffff) {
            proof {
                assert(ceil_div_spec(config.bbox_dimensions.x as int, h as int) * ceil_div_spec(
                    config.bbox_dimensions.y as int,
                    h as int,
                ) * ceil_div_spec(config.bbox_dimensions.z as int, h as int) == ((cgx as u128) * (
                cgy as u128) * (cgz as u128)) as int) by (nonlinear_arith)
                    requires
                        cgx as int == ceil_div_spec(config.bbox_dimensions.x as int, h as int),
                        cgy as int == ceil_div_spec(config.bbox_dimensions.y as int, h as int),
                        cgz as int == ceil_div_spec(config.bbox_dimensions.z as int, h as int),
                        0 <= cgx && 0 <= cgy && 0 <= cgz,
                ;
            }
            return None;
        }
        proof {
            assert(ceil_div_spec(config.bbox_dimensions.x as int, h as int) * ceil_div_spec(
                config.bbox_dimensions.y as int,
                h as int,
            ) * ceil_div_spec(config.bbox_dimensions.z as int, h as int) == ((cgx as u128) * (
            cgy as u128) * (cgz as u128)) as int) by (nonlinear_arith)
                requires
                    cgx as int == ceil_div_spec(config.bbox_dimensions.x as int, h as int),
                    cgy as int == ceil_div_spec(config.bbox_dimensions.y as int, h as int),
                    cgz as int == ceil_div_spec(config.bbox_dimensions.z as int, h as int),
                    0 <= cgx && 0 <= cgy && 0 <= cgz,
            ;
            assert(config_wf(config));
        }
        // the boundary lattice: two layers tiling the box floor
        let sp = (h * 55) / 100;
        proof {
            vstd::arithmetic::div_mod::lemma_div_is_ordered(100, h as int * 55, 100);
            vstd::arithmetic::div_mod::lemma_div_by_self(100);
            assert(110 <= h as int * 55 && h as int * 55 < 100 * (h as int) && h as int * 55
                <= 0x37_2000) by (nonlinear_arith)
                requires
                    2 <= h <= 0x1000,
            ;
            vstd::arithmetic::div_mod::lemma_multiply_divide_lt(h as int * 55, 100, h as int);
            assert(1 <= sp as int && sp < h);
            assert(sp as int == ghost_spacing_spec(config));
        }
        let gx = (config.bbox_dimensions.x + sp - 1) / sp;
        let gz = (config.bbox_dimensions.z + sp - 1) / sp;
        proof {
            lemma_ceil_div_bounds(config.bbox_dimensions.x as int, sp as int);
            lemma_ceil_div_bounds(config.bbox_dimensions.z as int, sp as int);
            assert(1 <= (gx as int) * (gz as int) <= 0x1000_0000_0000_0000) by (nonlinear_arith)
                requires
                    1 <= gx <= 0x4000_0000,
                    1 <= gz <= 0x4000_0000,
            ;
            vstd::arithmetic::mul::lemma_mul_is_associative(2, gx as int, gz as int);
        }
        let gprod: i64 = gx * gz;
        let gtotal: i64 = 2 * gprod;
        if !(gtotal < config.particle_cnt as i64) {
            return None;
        }
        let ghost_cnt: usize = gtotal as usize;
        let mut positions: Vec<Pos> = Vec::new();
        let mut t: usize = 0;
        while t < ghost_cnt
            invariant
                config_wf(config),
                positions@.len() == t,
                t <= ghost_cnt,
                ghost_cnt as int == 2 * (gprod as int),
                gprod as int == (gx as int) * (gz as int),
                1 <= sp && (sp as int) < config.smoothing_radius,
                sp as int == ghost_spacing_spec(config),
                gx as int == ceil_div_spec(
                    config.bbox_dimensions.x as int,
                    ghost_spacing_spec(config),
                ),
                gz as int == ceil_div_spec(
                    config.bbox_dimensions.z as int,
                    ghost_spacing_spec(config),
                ),
                1 <= gx && 1 <= gz,
                (gx as int - 1) * (sp as int) < config.bbox_dimensions.x,
                (gz as int - 1) * (sp as int) < config.bbox_dimensions.z,
                gx <= 0x4000_0000 && gz <= 0x4000_0000 && gprod <= 0x1000_0000_0000_0000,
                forall|j: int|
                    0 <= j < positions@.len() ==> pos_in_box(
                        #[trigger] positions@[j],
                        config.bbox_dimensions,
                    ),
                forall|u: int|
                    0 <= u < t ==> (#[trigger] positions@[u]) == ghost_position_spec(config, u),
            decreases ghost_cnt - t,
        {
            let ti = t as i64;
            let layer = ti / gprod;
            let rem = ti % gprod;
            let ix = rem / gz;
            let iz = rem % gz;
            proof {
                vstd::arithmetic::mul::lemma_mul_is_commutative(2, gprod as int);
                vstd::arithmetic::mul::lemma_mul_is_commutative(gx as int, gz as int);
                vstd::arithmetic::div_mod::lemma_multiply_divide_lt(ti as int, gprod as int, 2);
                vstd::arithmetic::div_mod::lemma_div_pos_is_pos(ti as int, gprod as int);
                vstd::arithmetic::div_mod::lemma_mod_bound(ti as int, gprod as int);
                vstd::arithmetic::div_mod::lemma_multiply_divide_lt(
                    rem as int,
                    gz as int,
                    gx as int,
                );
                vstd::arithmetic::div_mod::lemma_div_pos_is_pos(rem as int, gz as int);
                vstd::arithmetic::div_mod::lemma_mod_bound(ti as int, gprod as int);
                vstd::arithmetic::div_mod::lemma_mod_bound(rem as int, gz as int);
                assert(0 <= (ix as int) * (sp as int) && (ix as int) * (sp as int) <= (gx as int
                    - 1) * (sp as int) && 0 <= (iz as int) * (sp as int) && (iz as int) * (
                sp as int) <= (gz as int - 1) * (sp as int) && 0 <= (layer as int) * (sp as int)
                    && (layer as int) * (sp as int) <= sp as int) by (nonlinear_arith)
                    requires
                        0 <= ix && ix as int <= gx as int - 1,
                        0 <= iz && iz as int <= gz as int - 1,
                        0 <= layer <= 1,
                        1 <= sp,
                ;
            }
            let x = ix * sp;
            let y = layer * sp;
            let z = iz * sp;
            positions.push(Pos { x, y, z });
            proof {
                assert(positions@[t as int] == ghost_position_spec(config, t as int));
            }
            t = t + 1;
        }
        // the fluid lattice: a jittered cube centered in the box
        let fluid_cnt = config.particle_cnt - ghost_cnt;
        let m = icbrt(fluid_cnt);
        let mm = m as i64;
        proof {
            assert(0 <= (mm as int - 1) * (sp as int) <= 0x2_8000) by (nonlinear_arith)
                requires
                    1 <= mm <= 41,
                    1 <= sp <= 0x1000,
            ;
        }
        let span = (mm - 1) * sp;
        let bx0 = if span >= config.bbox_dimensions.x {
            0
        } else {
            (config.bbox_dimensions.x - span) / 2
        };
        let by0 = if span >= config.bbox_dimensions.y {
            0
        } else {
            (config.bbox_dimensions.y - span) / 2
        };
        let bz0 = if span >= config.bbox_dimensions.z {
            0
        } else {
            (config.bbox_dimensions.z - span) / 2
        };
        let jb = h / 12;
        proof {
            assert(bx0 as int == fluid_base_spec(
                config.bbox_dimensions.x as int,
                mm as int,
                ghost_spacing_spec(config),
            ));
            assert(by0 as int == fluid_base_spec(
                config.bbox_dimensions.y as int,
                mm as int,
                ghost_spacing_spec(config),
            ));
            assert(bz0 as int == fluid_base_spec(
                config.bbox_dimensions.z as int,
                mm as int,
                ghost_spacing_spec(config),
            ));
            assert(jb as int == fluid_jitter_spec(config));
        }
        let mut t: usize = 0;
        while t < fluid_cnt
            invariant
                config_wf(config),
                positions@.len() == ghost_cnt + t,
                t <= fluid_cnt,
                fluid_cnt <= 0x10000,
                1 <= mm <= 41,
                1 <= sp <= 0x1000,
                sp as int == ghost_spacing_spec(config),
                is_cube_edge(mm as int, fluid_cnt as int),
                0 <= bx0 <= BBOX_MAX && 0 <= by0 <= BBOX_MAX && 0 <= bz0 <= BBOX_MAX,
                bx0 as int == fluid_base_spec(
                    config.bbox_dimensions.x as int,
                    mm as int,
                    ghost_spacing_spec(config),
                ),
                by0 as int == fluid_base_spec(
                    config.bbox_dimensions.y as int,
                    mm as int,
                    ghost_spacing_spec(config),
                ),
                bz0 as int == fluid_base_spec(
                    config.bbox_dimensions.z as int,
                    mm as int,
                    ghost_spacing_spec(config),
                ),
                0 <= jb <= 0x1000,
                jb as int == fluid_jitter_spec(config),
                forall|j: int|
                    0 <= j < positions@.len() ==> pos_in_box(
                        #[trigger] positions@[j],
                        config.bbox_dimensions,
                    ),
                forall|u: int|
                    0 <= u < ghost_cnt ==> (#[trigger] positions@[u]) == ghost_position_spec(
                        config,
                        u,
                    ),
                forall|u: int|
                    0 <= u < t ==> fluid_start_ok(
                        config,
                        mm as int,
                        u,
                        #[trigger] positions@[ghost_cnt + u],
                    ),
            decreases fluid_cnt - t,
        {
            let ti = t as i64;
            proof {
                assert(1 <= (mm as int) * (mm as int) <= 1681) by (nonlinear_arith)
                    requires
                        1 <= mm <= 41,
                ;
            }
            let gi = ti / (mm * mm);
            let gj = (ti / mm) % mm;
            let gk = ti % mm;
            proof {
                vstd::arithmetic::div_mod::lemma_div_pos_is_pos(ti as int, (mm * mm) as int);
                vstd::arithmetic::div_mod::lemma_div_nonincreasing(ti as int, (mm * mm) as int);
                vstd::arithmetic::div_mod::lemma_div_pos_is_pos(ti as int, mm as int);
                vstd::arithmetic::div_mod::lemma_mod_bound((ti / mm) as int, mm as int);
                vstd::arithmetic::div_mod::lemma_mod_bound(ti as int, mm as int);
                assert(0 <= (gi as int) * (sp as int) && (gi as int) * (sp as int) <= 0x1000_0000
                    && 0 <= (gj as int) * (sp as int) && (gj as int) * (sp as int) <= 0x2_9000
                    && 0 <= (gk as int) * (sp as int) && (gk as int) * (sp as int) <= 0x2_9000)
                    by (nonlinear_arith)
                    requires
                        0 <= gi <= 0x10000,
                        0 <= gj <= 41,
                        0 <= gk <= 41,
                        1 <= sp <= 0x1000,
                ;
            }
            let jx = random_jitter(jb);
            let jy = random_jitter(jb);
            let jz = random_jitter(jb);
            let x = clamp_coord(bx0 + gj * sp + jx, config.bbox_dimensions.x);
            let y = clamp_coord(by0 + gi * sp + jy, config.bbox_dimensions.y);
            let z = clamp_coord(bz0 + gk * sp + jz, config.bbox_dimensions.z);
            positions.push(Pos { x, y, z });
            proof {
                assert((Pos { x, y, z }) == fluid_start_at(
                    config,
                    mm as int,
                    ti as int,
                    jx as int,
                    jy as int,
                    jz as int,
                ));
                assert(fluid_start_ok(config, mm as int, ti as int, (Pos { x, y, z })));
            }
            t = t + 1;
        }
        let velocities = vec![Pos { x: 0, y: 0, z: 0 }; config.particle_cnt];
        let densities = vec![config.rest_density; config.particle_cnt];
        let forces = vec![WideVec3 { x: 0, y: 0, z: 0 }; config.particle_cnt];
        let mut display = vec![ColoredVertex {
            position: Pos { x: 0, y: 0, z: 0 },
            red: 0,
            green: 96,
            blue: 255,
        }; config.particle_cnt];
        fill_display_pass(&config, &positions, &densities, &mut display);
        proof {
            assert(ghost_cnt as int == ghost_count_spec(config));
            assert(initial_layout_ok(config, positions@)) by {
                assert(fluid_cnt as int == config.particle_cnt - ghost_count_spec(config));
                assert(is_cube_edge(mm as int, config.particle_cnt - ghost_count_spec(config)));
                assert forall|t: int|
                    ghost_count_spec(config) <= t < positions@.len() implies fluid_start_ok(
                    config,
                    mm as int,
                    t - ghost_count_spec(config),
                    #[trigger] positions@[t],
                ) by {
                    let u = t - ghost_cnt as int;
                    assert(fluid_start_ok(config, mm as int, u, positions@[ghost_cnt + u]));
                }
            }
        }
        Some(
            FluidSimulation {
                config,
                ghost_particle_cnt: ghost_cnt,
                positions,
                velocities,
                densities,
                forces,
                display,
            },
        )
    }
}

/// The grid of a configuration, as a value.
pub fn grid_dims(config: &FluidSimulationConfig) -> (d: GridDims)
    requires
        config_wf(*config),
    ensures
        d == grid_dims_spec(*config),
        dims_wf(d),
{
    proof {
        lemma_grid_dims_wf(*config);
    }
    let h = config.smoothing_radius;
    GridDims {
        x: ((config.bbox_dimensions.x + h - 1) / h) as u32,
        y: ((config.bbox_dimensions.y + h - 1) / h) as u32,
        z: ((config.bbox_dimensions.z + h - 1) / h) as u32,
    }
}

} // verus!
