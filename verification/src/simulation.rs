//! The simulation driver: rebuilds the quadtree each step from the
//! current bodies, queries the Barnes-Hut force per body, and integrates
//! velocity and position.

use vstd::pervasive::VecAdditionalExecFns;
use vstd::prelude::*;

use crate::body::{spec_acc_from, spec_pos_step, spec_vel_step, wf_body, Body};

use crate::quad_tree::{
    lemma_wf_sums, mass_sum, mass_total, spec_contains, spec_force,
    spec_insert, wf_boundary, wf_node, wf_theta, wf_tree, Boundary, QuadTree, QuadTreeNode, Theta,
};
use crate::rng::{fresh_rng, gen_range_i64};
use crate::{DT_LIMIT, MASS_LIMIT};

verus! {

/// The tree obtained by inserting, in order, those bodies that lie
/// inside the region; bodies outside it are skipped.
pub open spec fn build_contained(bodies: Seq<Body>, b: Boundary) -> QuadTreeNode
    decreases bodies.len(),
{
    if bodies.len() == 0 {
        QuadTreeNode::Empty
    } else {
        let t = build_contained(bodies.drop_last(), b);
        let last = bodies.last();
        if spec_contains(b, last.position.0 as int, last.position.1 as int) {
            spec_insert(t, last, b)
        } else {
            t
        }
    }
}

/// The contained build is well-formed and carries at most the total
/// mass of the sequence.
pub proof fn lemma_build_contained(bodies: Seq<Body>, b: Boundary)
    requires
        wf_boundary(b),
        forall|i: int| 0 <= i < bodies.len() ==> wf_body(#[trigger] bodies[i]),
        mass_total(bodies) <= MASS_LIMIT,
    ensures
        wf_node(build_contained(bodies, b), b),
        0 <= mass_sum(build_contained(bodies, b)) <= mass_total(bodies),
    decreases bodies.len(),
{
    if bodies.len() > 0 {
        let prefix = bodies.drop_last();
        let last = bodies.last();
        assert(forall|i: int| 0 <= i < prefix.len() ==> prefix[i] == bodies[i]);
        assert(mass_total(prefix) + last.mass == mass_total(bodies));
        lemma_build_contained(prefix, b);
        let t = build_contained(prefix, b);
        if spec_contains(b, last.position.0 as int, last.position.1 as int) {
            crate::quad_tree::lemma_insert_props(t, last, b);
        }
    }
}

/// One body stepped forward: the force from the fixed tree becomes the
/// acceleration, the velocity advances by it, and the position advances
/// by the new velocity (plus the second-order acceleration term).
pub open spec fn spec_step_body(
    b: Body,
    root: QuadTreeNode,
    theta: Theta,
    bd: Boundary,
    dt: int,
) -> Body {
    let f = spec_force(root, b, theta, bd);
    let ax = spec_acc_from(f.0, b.mass as int) as i64;
    let ay = spec_acc_from(f.1, b.mass as int) as i64;
    let vx = spec_vel_step(b.velocity.0 as int, ax as int, dt) as i64;
    let vy = spec_vel_step(b.velocity.1 as int, ay as int, dt) as i64;
    let px = spec_pos_step(b.position.0 as int, vx as int, ax as int, dt) as i64;
    let py = spec_pos_step(b.position.1 as int, vy as int, ay as int, dt) as i64;
    Body {
        position: (px, py),
        velocity: (vx, vy),
        acceleration: (ax, ay),
        mass: b.mass,
        _radius: b._radius,
    }
}

/// The whole driver state.
pub struct Simulation {
    pub bodies: Vec<Body>,
    pub quad_tree: QuadTree,
    pub theta: Theta,
    pub time_step: i64,
}

/// Driver invariant: well-formed tree, threshold and time step, every
/// body well-formed, and the total mass within the tree's budget.
pub open spec fn wf_simulation(s: Simulation) -> bool {
    &&& wf_tree(s.quad_tree)
    &&& wf_theta(s.theta)
    &&& 1 <= s.time_step <= DT_LIMIT
    &&& forall|i: int| 0 <= i < s.bodies@.len() ==> wf_body(#[trigger] s.bodies@[i])
    &&& mass_total(s.bodies@) <= MASS_LIMIT
}

/// One update of `a` yields `b`: the tree is rebuilt from `a`'s bodies
/// and every body is stepped against it.
pub open spec fn update_rel(a: Simulation, b: Simulation) -> bool {
    let root = build_contained(a.bodies@, a.quad_tree.boundary);
    &&& b.theta == a.theta
    &&& b.time_step == a.time_step
    &&& b.quad_tree.boundary == a.quad_tree.boundary
    &&& b.quad_tree.root == root
    &&& b.bodies@.len() == a.bodies@.len()
    &&& forall|i: int|
        0 <= i < a.bodies@.len() ==> #[trigger] b.bodies@[i] == spec_step_body(
            a.bodies@[i],
            root,
            a.theta,
            a.quad_tree.boundary,
            a.time_step as int,
        )
}

/// `b` is `a` after exactly `k` updates.
pub open spec fn steps_rel(a: Simulation, b: Simulation, k: nat) -> bool
    decreases k,
{
    if k == 0 {
        b == a
    } else {
        exists|mid: Simulation| steps_rel(a, mid, (k - 1) as nat) && #[trigger] update_rel(mid, b)
    }
}

impl Simulation {
    /// A new driver over the given bodies and fixed region.
    pub fn new(bodies: Vec<Body>, boundary: Boundary, theta: Theta, time_step: i64) -> (r: Self)
        requires
            wf_boundary(boundary),
            wf_theta(theta),
            1 <= time_step <= DT_LIMIT,
            forall|i: int| 0 <= i < bodies@.len() ==> wf_body(#[trigger] bodies@[i]),
            mass_total(bodies@) <= MASS_LIMIT,
        ensures
            r.bodies == bodies,
            r.quad_tree.root == QuadTreeNode::Empty,
            r.quad_tree.boundary == boundary,
            r.theta == theta,
            r.time_step == time_step,
            wf_simulation(r),
    {
        let quad_tree = QuadTree::new(boundary);
        Self { bodies, quad_tree, theta, time_step }
    }

    /// One simulation step: rebuild the tree from the bodies that lie
    /// inside the fixed boundary, then apply each body's force and
    /// advance its kinematics.
    pub fn update(&mut self)
        requires
            wf_simulation(*old(self)),
        ensures
            update_rel(*old(self), *final(self)),
            wf_simulation(*final(self)),
    {
        let ghost bodies0 = self.bodies@;
        let ghost boundary = self.quad_tree.boundary;
        let ghost theta0 = self.theta;
        let ghost dt0 = self.time_step;
        let bd = *self.quad_tree.get_boundary();
        self.quad_tree = QuadTree::new(bd);

        // Rebuild the tree from the contained bodies.
        let mut i: usize = 0;
        while i < self.bodies.len()
            invariant
                i <= self.bodies@.len(),
                self.bodies@ == bodies0,
                self.theta == theta0,
                self.time_step == dt0,
                self.quad_tree.boundary == boundary,
                wf_boundary(boundary),
                wf_tree(self.quad_tree),
                self.quad_tree.root == build_contained(bodies0.take(i as int), boundary),
                mass_sum(self.quad_tree.root) <= mass_total(bodies0.take(i as int)),
                forall|k: int| 0 <= k < bodies0.len() ==> wf_body(#[trigger] bodies0[k]),
                mass_total(bodies0) <= MASS_LIMIT,
            decreases self.bodies@.len() - i,
        {
            let b = self.bodies[i];
            proof {
                lemma_mass_total_take_step(bodies0, i as int);
                lemma_mass_total_take_le(bodies0, i as int + 1);
                assert(bodies0.take(i as int + 1).drop_last() =~= bodies0.take(i as int));
                assert(bodies0.take(i as int + 1).last() == bodies0[i as int]);
            }
            if self.quad_tree.get_boundary().contains(b.position.0, b.position.1) {
                proof {
                    crate::quad_tree::lemma_insert_props(self.quad_tree.root, b, boundary);
                }
                self.quad_tree.insert(b);
            }
            i += 1;
        }
        proof {
            assert(bodies0.take(bodies0.len() as int) =~= bodies0);
        }
        let ghost root = self.quad_tree.root;

        // Apply forces and integrate, against the fixed rebuilt tree.
        let mut j: usize = 0;
        while j < self.bodies.len()
            invariant
                j <= self.bodies@.len(),
                self.bodies@.len() == bodies0.len(),
                self.theta == theta0,
                self.time_step == dt0,
                1 <= dt0 <= DT_LIMIT,
                wf_theta(theta0),
                self.quad_tree.boundary == boundary,
                self.quad_tree.root == root,
                wf_tree(self.quad_tree),
                forall|k: int| j <= k < bodies0.len() ==> #[trigger] self.bodies@[k] == bodies0[k],
                forall|k: int|
                    0 <= k < j ==> #[trigger] self.bodies@[k] == spec_step_body(
                        bodies0[k],
                        root,
                        theta0,
                        boundary,
                        dt0 as int,
                    ),
                forall|k: int| 0 <= k < j ==> wf_body(#[trigger] self.bodies@[k]),
                forall|k: int| 0 <= k < bodies0.len() ==> wf_body(#[trigger] bodies0[k]),
                mass_total(bodies0) <= MASS_LIMIT,
            decreases self.bodies@.len() - j,
        {
            let mut b = self.bodies[j];
            let f = self.quad_tree.calculate_force(&b, self.theta);
            proof {
                lemma_wf_sums(root, boundary);
                assert(mass_sum(root) * crate::gravity::grav_unit()
                    <= 43_318_683_653_648_750_051_376_364_562_642_108_416int) by (nonlinear_arith)
                    requires
                        0 <= mass_sum(root) <= 549_755_813_888int,
                        crate::gravity::grav_unit() == 66_743 * 549_755_813_888 * (2
                            * 1_073_741_824),
                ;
            }
            b.apply_force(f);
            b.update_velocity(self.time_step);
            b.update_position(self.time_step);
            self.bodies.set(j, b);
            j += 1;
        }
        proof {
            lemma_mass_total_same_masses(self.bodies@, bodies0);
        }
    }

    /// Run `steps` updates in sequence.
    pub fn run(&mut self, steps: usize)
        requires
            wf_simulation(*old(self)),
        ensures
            steps_rel(*old(self), *final(self), steps as nat),
            wf_simulation(*final(self)),
    {
        let ghost start = *self;
        let mut step: usize = 0;
        while step < steps
            invariant
                step <= steps,
                steps_rel(start, *self, step as nat),
                wf_simulation(*self),
            decreases steps - step,
        {
            let ghost mid = *self;
            self.update();
            proof {
                assert(steps_rel(start, mid, step as nat) && update_rel(mid, *self));
            }
            step += 1;
        }
    }
}

/// Two sequences with the same masses carry the same total.
pub proof fn lemma_mass_total_same_masses(s1: Seq<Body>, s2: Seq<Body>)
    requires
        s1.len() == s2.len(),
        forall|i: int| 0 <= i < s1.len() ==> (#[trigger] s1[i]).mass == (#[trigger] s2[i]).mass,
    ensures
        mass_total(s1) == mass_total(s2),
    decreases s1.len(),
{
    if s1.len() > 0 {
        assert(forall|i: int|
            0 <= i < s1.len() - 1 ==> #[trigger] s1.drop_last()[i] == s1[i] && #[trigger] s2.drop_last()[i]
                == s2[i]);
        lemma_mass_total_same_masses(s1.drop_last(), s2.drop_last());
    }
}

/// One more element extends the running mass total by its mass.
pub proof fn lemma_mass_total_take_step(bodies: Seq<Body>, i: int)
    requires
        0 <= i < bodies.len(),
    ensures
        mass_total(bodies.take(i + 1)) == mass_total(bodies.take(i)) + bodies[i].mass,
{
    assert(bodies.take(i + 1).drop_last() =~= bodies.take(i));
    assert(bodies.take(i + 1).last() == bodies[i]);
}

/// A prefix never carries more mass than the whole sequence.
pub proof fn lemma_mass_total_take_le(bodies: Seq<Body>, i: int)
    requires
        0 <= i <= bodies.len(),
    ensures
        mass_total(bodies.take(i)) <= mass_total(bodies),
    decreases bodies.len() - i,
{
    if i == bodies.len() {
        assert(bodies.take(i) =~= bodies);
    } else {
        lemma_mass_total_take_step(bodies, i);
        lemma_mass_total_take_le(bodies, i + 1);
    }
}

/// A set of bodies placed uniformly at random inside the region, at
/// rest, with masses drawn from `[1000, 100000]`.
pub fn generate_random_bodies(count: usize, boundary: &Boundary) -> (r: Vec<Body>)
    requires
        wf_boundary(*boundary),
        count <= 5_000_000,
    ensures
        r@.len() == count,
        forall|i: int| 0 <= i < r@.len() ==> wf_body(#[trigger] r@[i]),
        forall|i: int|
            0 <= i < r@.len() ==> spec_contains(
                *boundary,
                (#[trigger] r@[i]).position.0 as int,
                r@[i].position.1 as int,
            ),
        forall|i: int| 0 <= i < r@.len() ==> (#[trigger] r@[i]).velocity == (0i64, 0i64),
        mass_total(r@) <= MASS_LIMIT,
{
    let mut rng = fresh_rng();
    let mut bodies: Vec<Body> = Vec::new();
    let mut i: usize = 0;
    while i < count
        invariant
            i <= count,
            count <= 5_000_000,
            wf_boundary(*boundary),
            bodies@.len() == i,
            forall|k: int| 0 <= k < bodies@.len() ==> wf_body(#[trigger] bodies@[k]),
            forall|k: int|
                0 <= k < bodies@.len() ==> spec_contains(
                    *boundary,
                    (#[trigger] bodies@[k]).position.0 as int,
                    bodies@[k].position.1 as int,
                ),
            forall|k: int| 0 <= k < bodies@.len() ==> (#[trigger] bodies@[k]).velocity == (
                0i64,
                0i64,
            ),
            mass_total(bodies@) <= 100_000 * (i as int),
        decreases count - i,
    {
        let x = gen_range_i64(&mut rng, boundary.x_min, boundary.x_max);
        let y = gen_range_i64(&mut rng, boundary.y_min, boundary.y_max);
        let mass = gen_range_i64(&mut rng, 1_000, 100_000) as u64;
        let body = Body::new((x, y), (0, 0), mass, 1);
        let ghost before = bodies@;
        bodies.push(body);
        proof {
            assert(bodies@.drop_last() =~= before);
            assert(bodies@.last() == body);
        }
        i += 1;
    }
    bodies
}

} // verus!
