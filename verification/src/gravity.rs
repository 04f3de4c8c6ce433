//! Pairwise Newtonian gravity in exact truncated integer arithmetic.
//!
//! The force of a point mass `m2` at `p2` on a body of mass `m1` at `p1`
//! is `G * m1 * m2 / d^2` along the unit vector from `p1` toward `p2`,
//! with `d` the floor square root of the squared distance, `G` the exact
//! rational `G_NUM / G_DEN`, and every division truncated toward zero.
//! Coincident points yield zero force.

use vstd::prelude::*;

use vstd::arithmetic::div_mod::{lemma_div_nonincreasing, lemma_div_pos_is_pos};

use crate::body::Body;
use crate::num::{isqrt64, lemma_sqrt_floor_pos, sqrt_floor};
use crate::{COORD_LIMIT, G_DEN, G_NUM, MASS_LIMIT};

verus! {

/// Squared Euclidean distance between two points.
pub open spec fn spec_dist2(p: (i64, i64), q: (i64, i64)) -> int {
    (p.0 - q.0) * (p.0 - q.0) + (p.1 - q.1) * (p.1 - q.1)
}

/// Magnitude of one force component for a nonnegative offset `delta_abs`:
/// `G_NUM * m1 * m2 * delta_abs / (d2 * d) / G_DEN` with `d` the floor
/// square root of `d2`.
pub open spec fn grav_abs(m1: int, m2: int, delta_abs: int, d2: int) -> int {
    (G_NUM as int) * m1 * m2 * delta_abs / (d2 * (sqrt_floor(d2 as nat) as int)) / (G_DEN as int)
}

/// One signed force component along an offset `delta`.
pub open spec fn grav_component(m1: int, m2: int, delta: int, d2: int) -> int {
    if delta >= 0 {
        grav_abs(m1, m2, delta, d2)
    } else {
        -grav_abs(m1, m2, -delta, d2)
    }
}

/// Gravitational force of a point mass `other_mass` at `other_pos` on
/// `body`, componentwise; zero when the points coincide.
pub open spec fn spec_gravity(body: Body, other_pos: (i64, i64), other_mass: u64) -> (int, int) {
    let d2 = spec_dist2(other_pos, body.position);
    if d2 == 0 {
        (0int, 0int)
    } else {
        (
            grav_component(body.mass as int, other_mass as int, other_pos.0 - body.position.0, d2),
            grav_component(body.mass as int, other_mass as int, other_pos.1 - body.position.1, d2),
        )
    }
}

/// Largest force component a single unit of attracting mass can
/// contribute: `G_NUM * MASS_LIMIT * (2 * COORD_LIMIT)`.
pub open spec fn grav_unit() -> int {
    (G_NUM as int) * (MASS_LIMIT as int) * (2 * (COORD_LIMIT as int))
}

/// Force-component bound for attracting mass `m2`.
pub open spec fn grav_cap(m2: int) -> int {
    m2 * grav_unit()
}

/// Each component of `spec_gravity` is bounded by `grav_cap(other_mass)`.
pub proof fn lemma_gravity_bound(body: Body, other_pos: (i64, i64), other_mass: u64)
    requires
        -COORD_LIMIT <= body.position.0 <= COORD_LIMIT,
        -COORD_LIMIT <= body.position.1 <= COORD_LIMIT,
        -COORD_LIMIT <= other_pos.0 <= COORD_LIMIT,
        -COORD_LIMIT <= other_pos.1 <= COORD_LIMIT,
        body.mass <= MASS_LIMIT,
    ensures
        -grav_cap(other_mass as int) <= spec_gravity(body, other_pos, other_mass).0
            <= grav_cap(other_mass as int),
        -grav_cap(other_mass as int) <= spec_gravity(body, other_pos, other_mass).1
            <= grav_cap(other_mass as int),
        0 <= grav_cap(other_mass as int),
{
    let m1 = body.mass as int;
    let m2 = other_mass as int;
    assert(0 <= m2 * grav_unit() && m2 * grav_unit() == grav_cap(m2)) by (nonlinear_arith)
        requires
            0 <= m2,
            grav_unit() == 66_743 * 549_755_813_888 * (2 * 1_073_741_824),
            grav_cap(m2) == m2 * grav_unit(),
    ;
    let d2 = spec_dist2(other_pos, body.position);
    if d2 != 0 {
        assert(d2 > 0) by (nonlinear_arith)
            requires
                d2 == (other_pos.0 - body.position.0) * (other_pos.0 - body.position.0) + (
                other_pos.1 - body.position.1) * (other_pos.1 - body.position.1),
                d2 != 0,
        ;
        lemma_sqrt_floor_pos(d2 as nat);
        lemma_grav_abs_bound(m1, m2, other_pos.0 - body.position.0, d2);
        lemma_grav_abs_bound(m1, m2, other_pos.1 - body.position.1, d2);
    }
}

/// `grav_abs` of a bounded offset is within `grav_cap`, in both
/// directions of the sign split made by `grav_component`.
proof fn lemma_grav_abs_bound(m1: int, m2: int, delta: int, d2: int)
    requires
        0 <= m1 <= MASS_LIMIT,
        0 <= m2,
        -(2 * COORD_LIMIT) <= delta <= 2 * COORD_LIMIT,
        1 <= d2,
    ensures
        -grav_cap(m2) <= grav_component(m1, m2, delta, d2) <= grav_cap(m2),
        0 <= grav_abs(m1, m2, if delta >= 0 { delta } else { -delta }, d2),
{
    let a = if delta >= 0 { delta } else { -delta };
    let d = sqrt_floor(d2 as nat) as int;
    lemma_sqrt_floor_pos(d2 as nat);
    let num = (G_NUM as int) * m1 * m2 * a;
    assert(0 <= num && num <= grav_cap(m2) && 1 <= d2 * d) by (nonlinear_arith)
        requires
            0 <= m1 <= 549_755_813_888,
            0 <= m2,
            0 <= a <= 2 * 1_073_741_824,
            1 <= d2,
            1 <= d,
            num == 66_743 * m1 * m2 * a,
            grav_cap(m2) == m2 * (66_743 * 549_755_813_888 * (2 * 1_073_741_824)),
    ;
    lemma_div_pos_is_pos(num, d2 * d);
    lemma_div_nonincreasing(num, d2 * d);
    lemma_div_pos_is_pos(num / (d2 * d), G_DEN as int);
    lemma_div_nonincreasing(num / (d2 * d), G_DEN as int);
}

/// A body exerts no force on its own position.
pub proof fn lemma_gravity_self(body: Body, other_mass: u64)
    ensures
        spec_gravity(body, body.position, other_mass).0 == 0,
        spec_gravity(body, body.position, other_mass).1 == 0,
{
    assert(spec_dist2(body.position, body.position) == 0) by (nonlinear_arith);
}

/// Newton's third law in exact arithmetic: the force of `b` on `a` is the
/// exact negation, componentwise, of the force of `a` on `b`.
pub proof fn lemma_gravity_symmetry(a: Body, b: Body)
    ensures
        spec_gravity(a, b.position, b.mass).0 == -spec_gravity(b, a.position, a.mass).0,
        spec_gravity(a, b.position, b.mass).1 == -spec_gravity(b, a.position, a.mass).1,
{
    let dx = b.position.0 - a.position.0;
    let dy = b.position.1 - a.position.1;
    let d2ab = spec_dist2(b.position, a.position);
    let d2ba = spec_dist2(a.position, b.position);
    assert(d2ab == d2ba) by (nonlinear_arith)
        requires
            d2ab == dx * dx + dy * dy,
            d2ba == (-dx) * (-dx) + (-dy) * (-dy),
    ;
    if d2ab != 0 {
        assert(1 <= d2ab) by (nonlinear_arith)
            requires
                d2ab == dx * dx + dy * dy,
                d2ab != 0,
        ;
        lemma_grav_component_antisym(a.mass as int, b.mass as int, dx, d2ab);
        lemma_grav_component_antisym(a.mass as int, b.mass as int, dy, d2ab);
    }
}

/// Swapping the masses and negating the offset negates one component.
proof fn lemma_grav_component_antisym(m1: int, m2: int, delta: int, d2: int)
    requires
        1 <= d2,
    ensures
        grav_component(m1, m2, delta, d2) == -grav_component(m2, m1, -delta, d2),
{
    lemma_grav_abs_mass_swap(m1, m2, if delta >= 0 { delta } else { -delta }, d2);
    if delta == 0 {
        lemma_sqrt_floor_pos(d2 as nat);
        let d = sqrt_floor(d2 as nat) as int;
        assert((G_NUM as int) * m1 * m2 * 0 == 0 && 1 <= d2 * d) by (nonlinear_arith)
            requires
                1 <= d2,
                1 <= d,
        ;
        vstd::arithmetic::div_mod::lemma_div_of0(d2 * d);
        vstd::arithmetic::div_mod::lemma_div_of0(G_DEN as int);
    }
}

/// The two masses enter the force magnitude symmetrically.
proof fn lemma_grav_abs_mass_swap(m1: int, m2: int, delta_abs: int, d2: int)
    ensures
        grav_abs(m1, m2, delta_abs, d2) == grav_abs(m2, m1, delta_abs, d2),
{
    assert((G_NUM as int) * m1 * m2 * delta_abs == (G_NUM as int) * m2 * m1 * delta_abs)
        by (nonlinear_arith);
}

/// Executable pairwise gravity; exactly `spec_gravity` and bounded by
/// `grav_cap(other_mass)` per component.
pub fn calculate_gravity(body: &Body, other_pos: (i64, i64), other_mass: u64) -> (f: (i128, i128))
    requires
        -COORD_LIMIT <= body.position.0 <= COORD_LIMIT,
        -COORD_LIMIT <= body.position.1 <= COORD_LIMIT,
        -COORD_LIMIT <= other_pos.0 <= COORD_LIMIT,
        -COORD_LIMIT <= other_pos.1 <= COORD_LIMIT,
        body.mass <= MASS_LIMIT,
        other_mass <= MASS_LIMIT,
    ensures
        f.0 == spec_gravity(*body, other_pos, other_mass).0,
        f.1 == spec_gravity(*body, other_pos, other_mass).1,
        -grav_cap(other_mass as int) <= f.0 <= grav_cap(other_mass as int),
        -grav_cap(other_mass as int) <= f.1 <= grav_cap(other_mass as int),
{
    proof {
        lemma_gravity_bound(*body, other_pos, other_mass);
    }
    let dx: i64 = other_pos.0 - body.position.0;
    let dy: i64 = other_pos.1 - body.position.1;
    let adx: u64 = if dx >= 0 { dx as u64 } else { (-dx) as u64 };
    let ady: u64 = if dy >= 0 { dy as u64 } else { (-dy) as u64 };
    proof {
        assert((adx as u128) * (adx as u128) <= 4_611_686_018_427_387_904u128
            && (ady as u128) * (ady as u128) <= 4_611_686_018_427_387_904u128
            && (adx as u128) * (adx as u128) == (dx as int) * (dx as int)
            && (ady as u128) * (ady as u128) == (dy as int) * (dy as int)) by (nonlinear_arith)
            requires
                adx as int == if dx as int >= 0 { dx as int } else { -(dx as int) },
                ady as int == if dy as int >= 0 { dy as int } else { -(dy as int) },
                adx <= 2_147_483_648u64,
                ady <= 2_147_483_648u64,
        ;
    }
    let d2w: u128 = (adx as u128) * (adx as u128) + (ady as u128) * (ady as u128);
    let d2: u64 = d2w as u64;
    if d2 == 0 {
        return (0, 0);
    }
    let d: u64 = isqrt64(d2);
    proof {
        lemma_sqrt_floor_pos(d2 as nat);
        assert((G_NUM as u128) * (body.mass as u128) <= 72_057_594_037_927_936u128)
            by (nonlinear_arith)
            requires
                body.mass as u128 <= 549_755_813_888u128,
        ;
    }
    let gm: u128 = (G_NUM as u128) * (body.mass as u128);
    proof {
        assert(gm * (other_mass as u128) <= 39_614_081_257_132_168_796_771_975_168u128)
            by (nonlinear_arith)
            requires
                gm <= 72_057_594_037_927_936u128,
                other_mass as u128 <= 549_755_813_888u128,
        ;
    }
    let gmm: u128 = gm * (other_mass as u128);
    proof {
        assert(gmm * (adx as u128) <= 85_070_591_730_234_615_865_843_651_857_942_052_864u128
            && gmm * (ady as u128) <= 85_070_591_730_234_615_865_843_651_857_942_052_864u128)
            by (nonlinear_arith)
            requires
                gmm <= 39_614_081_257_132_168_796_771_975_168u128,
                adx <= 2_147_483_648u64,
                ady <= 2_147_483_648u64,
        ;
        assert((d2 as u128) * (d as u128) <= 39_614_081_257_132_168_796_771_975_168u128
            && 1 <= (d2 as u128) * (d as u128)) by (nonlinear_arith)
            requires
                1 <= d2,
                d2 <= 9_223_372_036_854_775_808u128,
                1 <= d,
                d <= 4_294_967_296u64,
        ;
    }
    let num_x: u128 = gmm * (adx as u128);
    let num_y: u128 = gmm * (ady as u128);
    let den: u128 = (d2 as u128) * (d as u128);
    let qx: u128 = num_x / den / (G_DEN as u128);
    let qy: u128 = num_y / den / (G_DEN as u128);
    proof {
        lemma_div_pos_is_pos(num_x as int, den as int);
        lemma_div_nonincreasing(num_x as int, den as int);
        lemma_div_pos_is_pos((num_x as int) / (den as int), G_DEN as int);
        lemma_div_nonincreasing((num_x as int) / (den as int), G_DEN as int);
        lemma_div_pos_is_pos(num_y as int, den as int);
        lemma_div_nonincreasing(num_y as int, den as int);
        lemma_div_pos_is_pos((num_y as int) / (den as int), G_DEN as int);
        lemma_div_nonincreasing((num_y as int) / (den as int), G_DEN as int);
    }
    let fx: i128 = if dx >= 0 {
        qx as i128
    } else {
        -(qx as i128)
    };
    let fy: i128 = if dy >= 0 {
        qy as i128
    } else {
        -(qy as i128)
    };
    (fx, fy)
}

} // verus!
