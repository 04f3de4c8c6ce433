//! A point mass and its kinematic state.  The quadtree reads only
//! `position` and `mass`; the driver owns and updates the rest.

use vstd::prelude::*;

use crate::num::{clamp128, div_trunc, lemma_div_trunc_bound, spec_clamp, spec_div_trunc};
use crate::{ACC_LIMIT, COORD_LIMIT, DT_LIMIT, MASS_LIMIT, VEL_LIMIT};

verus! {

/// A body: position and mass are what the tree consumes; velocity and
/// acceleration belong to the integrator.
#[derive(Clone, Copy)]
pub struct Body {
    pub position: (i64, i64),
    pub velocity: (i64, i64),
    pub acceleration: (i64, i64),
    pub mass: u64,
    pub _radius: i64,
}

/// All components within the crate's fixed-point ranges, mass positive.
pub open spec fn wf_body(b: Body) -> bool {
    &&& -COORD_LIMIT <= b.position.0 <= COORD_LIMIT
    &&& -COORD_LIMIT <= b.position.1 <= COORD_LIMIT
    &&& -VEL_LIMIT <= b.velocity.0 <= VEL_LIMIT
    &&& -VEL_LIMIT <= b.velocity.1 <= VEL_LIMIT
    &&& -ACC_LIMIT <= b.acceleration.0 <= ACC_LIMIT
    &&& -ACC_LIMIT <= b.acceleration.1 <= ACC_LIMIT
    &&& 1 <= b.mass <= MASS_LIMIT
}

/// One velocity component after a step: `v + a * dt`, saturated.
pub open spec fn spec_vel_step(v: int, a: int, dt: int) -> int {
    spec_clamp(v + a * dt, VEL_LIMIT as int)
}

/// One position component after a step: `p + v * dt + a * dt * dt / 2`
/// (truncated), saturated.
pub open spec fn spec_pos_step(p: int, v: int, a: int, dt: int) -> int {
    spec_clamp(p + v * dt + spec_div_trunc(a * dt * dt, 2), COORD_LIMIT as int)
}

/// One acceleration component from a force component: `f / m`
/// (truncated), saturated.
pub open spec fn spec_acc_from(f: int, m: int) -> int {
    spec_clamp(spec_div_trunc(f, m), ACC_LIMIT as int)
}

impl Body {
    /// A fresh body at rest acceleration.  The radius argument is
    /// accepted for callers that compute one, but the stored radius is
    /// always the unit value: nothing in the simulation reads it.
    pub fn new(position: (i64, i64), velocity: (i64, i64), mass: u64, _radius: i64) -> (r: Self)
        ensures
            r.position == position,
            r.velocity == velocity,
            r.acceleration == (0i64, 0i64),
            r.mass == mass,
            r._radius == 1i64,
    {
        Self { position, velocity, acceleration: (0, 0), mass, _radius: 1 }
    }

    /// Advance the position by the current velocity and acceleration.
    pub fn update_position(&mut self, dt: i64)
        requires
            wf_body(*old(self)),
            1 <= dt <= DT_LIMIT,
        ensures
            final(self).position.0 == spec_pos_step(
                old(self).position.0 as int,
                old(self).velocity.0 as int,
                old(self).acceleration.0 as int,
                dt as int,
            ),
            final(self).position.1 == spec_pos_step(
                old(self).position.1 as int,
                old(self).velocity.1 as int,
                old(self).acceleration.1 as int,
                dt as int,
            ),
            final(self).velocity == old(self).velocity,
            final(self).acceleration == old(self).acceleration,
            final(self).mass == old(self).mass,
            final(self)._radius == old(self)._radius,
            wf_body(*final(self)),
    {
        let px = Self::pos_step(self.position.0, self.velocity.0, self.acceleration.0, dt);
        let py = Self::pos_step(self.position.1, self.velocity.1, self.acceleration.1, dt);
        self.position = (px, py);
    }

    /// One saturated position component step.
    fn pos_step(p: i64, v: i64, a: i64, dt: i64) -> (r: i64)
        requires
            -COORD_LIMIT <= p <= COORD_LIMIT,
            -VEL_LIMIT <= v <= VEL_LIMIT,
            -ACC_LIMIT <= a <= ACC_LIMIT,
            1 <= dt <= DT_LIMIT,
        ensures
            r == spec_pos_step(p as int, v as int, a as int, dt as int),
            -COORD_LIMIT <= r <= COORD_LIMIT,
    {
        proof {
            assert(-1_152_921_504_606_846_976i128 <= (v as i128) * (dt as i128)
                <= 1_152_921_504_606_846_976i128) by (nonlinear_arith)
                requires
                    -1_073_741_824i128 <= v as i128 <= 1_073_741_824i128,
                    1 <= dt as i128 <= 1_048_576i128,
            ;
        }
        let vterm: i128 = (v as i128) * (dt as i128);
        proof {
            assert(-1_152_921_504_606_846_976i128 <= (a as i128) * (dt as i128) * (dt as i128)
                && (a as i128) * (dt as i128) * (dt as i128) <= 1_152_921_504_606_846_976i128
                && -1_152_921_504_606_846_976i128 <= (a as i128) * (dt as i128)
                && (a as i128) * (dt as i128) <= 1_152_921_504_606_846_976i128) by (nonlinear_arith)
                requires
                    -1_048_576i128 <= a as i128 <= 1_048_576i128,
                    1 <= dt as i128 <= 1_048_576i128,
            ;
        }
        let aterm: i128 = (a as i128) * (dt as i128) * (dt as i128);
        let half: i128 = div_trunc(aterm, 2);
        proof {
            lemma_div_trunc_bound(aterm as int, 2);
        }
        clamp128(p as i128 + vterm + half, COORD_LIMIT)
    }

    /// Advance the velocity by the current acceleration.
    pub fn update_velocity(&mut self, dt: i64)
        requires
            wf_body(*old(self)),
            1 <= dt <= DT_LIMIT,
        ensures
            final(self).velocity.0 == spec_vel_step(
                old(self).velocity.0 as int,
                old(self).acceleration.0 as int,
                dt as int,
            ),
            final(self).velocity.1 == spec_vel_step(
                old(self).velocity.1 as int,
                old(self).acceleration.1 as int,
                dt as int,
            ),
            final(self).position == old(self).position,
            final(self).acceleration == old(self).acceleration,
            final(self).mass == old(self).mass,
            final(self)._radius == old(self)._radius,
            wf_body(*final(self)),
    {
        let vx = Self::vel_step(self.velocity.0, self.acceleration.0, dt);
        let vy = Self::vel_step(self.velocity.1, self.acceleration.1, dt);
        self.velocity = (vx, vy);
    }

    /// One saturated velocity component step.
    fn vel_step(v: i64, a: i64, dt: i64) -> (r: i64)
        requires
            -VEL_LIMIT <= v <= VEL_LIMIT,
            -ACC_LIMIT <= a <= ACC_LIMIT,
            1 <= dt <= DT_LIMIT,
        ensures
            r == spec_vel_step(v as int, a as int, dt as int),
            -VEL_LIMIT <= r <= VEL_LIMIT,
    {
        proof {
            assert(-1_099_511_627_776i128 <= (a as i128) * (dt as i128)
                <= 1_099_511_627_776i128) by (nonlinear_arith)
                requires
                    -1_048_576i128 <= a as i128 <= 1_048_576i128,
                    1 <= dt as i128 <= 1_048_576i128,
            ;
        }
        let aterm: i128 = (a as i128) * (dt as i128);
        clamp128(v as i128 + aterm, VEL_LIMIT)
    }

    /// Turn a force into the stored acceleration: `force / mass`,
    /// truncated and saturated per component.
    pub fn apply_force(&mut self, force: (i128, i128))
        requires
            wf_body(*old(self)),
            force.0 > i128::MIN,
            force.1 > i128::MIN,
        ensures
            final(self).acceleration.0 == spec_acc_from(force.0 as int, old(self).mass as int),
            final(self).acceleration.1 == spec_acc_from(force.1 as int, old(self).mass as int),
            final(self).position == old(self).position,
            final(self).velocity == old(self).velocity,
            final(self).mass == old(self).mass,
            final(self)._radius == old(self)._radius,
            wf_body(*final(self)),
    {
        let ax = clamp128(div_trunc(force.0, self.mass as i128), ACC_LIMIT);
        let ay = clamp128(div_trunc(force.1, self.mass as i128), ACC_LIMIT);
        self.acceleration = (ax, ay);
    }
}

} // verus!
