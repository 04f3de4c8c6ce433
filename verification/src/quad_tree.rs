//! The Barnes-Hut quadtree: an axis-aligned region of space, a recursive
//! node over it, and a facade binding a root node to a fixed boundary.
//!
//! A point on the shared edge of two quadrants satisfies both inclusive
//! containment tests; insertion resolves this by fixed quadrant order and
//! first match, which gives every point a single deterministic home.

use vstd::prelude::*;

use crate::body::{wf_body, Body};
use crate::gravity::{
    calculate_gravity, grav_unit, lemma_gravity_bound, spec_dist2, spec_gravity,
};
use crate::num::{div_trunc, isqrt64, lemma_sqrt_floor_pos, spec_div_trunc, sqrt_floor};
use crate::{COORD_LIMIT, MASS_LIMIT, THETA_LIMIT};

verus! {

/// An axis-aligned rectangular region, bounds inclusive on every edge.
#[derive(Clone, Copy)]
pub struct Boundary {
    pub x_min: i64,
    pub x_max: i64,
    pub y_min: i64,
    pub y_max: i64,
}

/// Non-empty region within the coordinate range.
pub open spec fn wf_boundary(b: Boundary) -> bool {
    &&& -COORD_LIMIT <= b.x_min <= b.x_max <= COORD_LIMIT
    &&& -COORD_LIMIT <= b.y_min <= b.y_max <= COORD_LIMIT
}

/// Inclusive containment of a point.
pub open spec fn spec_contains(b: Boundary, x: int, y: int) -> bool {
    b.x_min <= x <= b.x_max && b.y_min <= y <= b.y_max
}

/// Midpoint of an ordered pair of bounds, rounded toward the lower bound.
pub open spec fn mid(lo: i64, hi: i64) -> i64 {
    (lo + (hi - lo) / 2) as i64
}

/// Quadrant `i` of a region, split at the midpoint:
/// 0 bottom-left, 1 bottom-right, 2 top-left, 3 top-right.
pub open spec fn spec_quadrant(b: Boundary, i: int) -> Boundary {
    let cx = mid(b.x_min, b.x_max);
    let cy = mid(b.y_min, b.y_max);
    if i == 0 {
        Boundary { x_min: b.x_min, x_max: cx, y_min: b.y_min, y_max: cy }
    } else if i == 1 {
        Boundary { x_min: cx, x_max: b.x_max, y_min: b.y_min, y_max: cy }
    } else if i == 2 {
        Boundary { x_min: b.x_min, x_max: cx, y_min: cy, y_max: b.y_max }
    } else {
        Boundary { x_min: cx, x_max: b.x_max, y_min: cy, y_max: b.y_max }
    }
}

/// Index of the first quadrant whose inclusive bounds contain `p`
/// (4 if none does, which cannot happen for a contained point).
pub open spec fn first_match(b: Boundary, p: (i64, i64)) -> int {
    if spec_contains(spec_quadrant(b, 0), p.0 as int, p.1 as int) {
        0
    } else if spec_contains(spec_quadrant(b, 1), p.0 as int, p.1 as int) {
        1
    } else if spec_contains(spec_quadrant(b, 2), p.0 as int, p.1 as int) {
        2
    } else if spec_contains(spec_quadrant(b, 3), p.0 as int, p.1 as int) {
        3
    } else {
        4
    }
}

/// Size of a region for the subdivision termination measure: width plus
/// height.
pub open spec fn bsize(b: Boundary) -> int {
    (b.x_max - b.x_min) + (b.y_max - b.y_min)
}

/// The midpoint lies between the bounds.
pub proof fn lemma_mid_between(lo: i64, hi: i64)
    requires
        lo <= hi,
    ensures
        lo <= mid(lo, hi) <= hi,
        mid(lo, hi) - lo == (hi - lo) / 2,
        hi - mid(lo, hi) == (hi - lo) - (hi - lo) / 2,
{
    let w = hi - lo;
    assert(0 <= w / 2 <= w && 2 * (w / 2) <= w && w <= 2 * (w / 2) + 1) by (nonlinear_arith)
        requires
            w >= 0,
    ;
}

/// Every quadrant of a well-formed region is well-formed.
pub proof fn lemma_quadrant_wf(b: Boundary, i: int)
    requires
        wf_boundary(b),
        0 <= i < 4,
    ensures
        wf_boundary(spec_quadrant(b, i)),
        spec_quadrant(b, i).x_min >= b.x_min,
        spec_quadrant(b, i).x_max <= b.x_max,
        spec_quadrant(b, i).y_min >= b.y_min,
        spec_quadrant(b, i).y_max <= b.y_max,
        bsize(spec_quadrant(b, i)) <= bsize(b),
{
    lemma_mid_between(b.x_min, b.x_max);
    lemma_mid_between(b.y_min, b.y_max);
}

/// A contained point lands in some quadrant, so `first_match` is a real
/// index and its quadrant contains the point.
pub proof fn lemma_first_match_some(b: Boundary, p: (i64, i64))
    requires
        wf_boundary(b),
        spec_contains(b, p.0 as int, p.1 as int),
    ensures
        0 <= first_match(b, p) < 4,
        spec_contains(spec_quadrant(b, first_match(b, p)), p.0 as int, p.1 as int),
{
    lemma_mid_between(b.x_min, b.x_max);
    lemma_mid_between(b.y_min, b.y_max);
}

/// Two distinct contained points that land in the same quadrant force
/// that quadrant to be strictly smaller: the subdivision terminates.
pub proof fn lemma_same_quadrant_shrinks(b: Boundary, p1: (i64, i64), p2: (i64, i64))
    requires
        wf_boundary(b),
        spec_contains(b, p1.0 as int, p1.1 as int),
        spec_contains(b, p2.0 as int, p2.1 as int),
        p1 != p2,
        first_match(b, p1) == first_match(b, p2),
    ensures
        bsize(spec_quadrant(b, first_match(b, p1))) < bsize(b),
{
    lemma_mid_between(b.x_min, b.x_max);
    lemma_mid_between(b.y_min, b.y_max);
    lemma_first_match_some(b, p1);
    lemma_first_match_some(b, p2);
}

impl Boundary {
    /// Inclusive containment test.
    pub fn contains(&self, x: i64, y: i64) -> (r: bool)
        ensures
            r == spec_contains(*self, x as int, y as int),
    {
        x >= self.x_min && x <= self.x_max && y >= self.y_min && y <= self.y_max
    }

    /// Midpoint of the bounds, each axis rounded toward its lower bound.
    pub fn center(&self) -> (r: (i64, i64))
        requires
            wf_boundary(*self),
        ensures
            r.0 == mid(self.x_min, self.x_max),
            r.1 == mid(self.y_min, self.y_max),
    {
        let cx = self.x_min + (((self.x_max - self.x_min) as u64 / 2) as i64);
        let cy = self.y_min + (((self.y_max - self.y_min) as u64 / 2) as i64);
        proof {
            lemma_mid_between(self.x_min, self.x_max);
            lemma_mid_between(self.y_min, self.y_max);
        }
        (cx, cy)
    }

    /// The four quadrants from the midpoint split, in the fixed order
    /// bottom-left, bottom-right, top-left, top-right.
    pub fn subdivide(&self) -> (r: (Boundary, Boundary, Boundary, Boundary))
        requires
            wf_boundary(*self),
        ensures
            r.0 == spec_quadrant(*self, 0),
            r.1 == spec_quadrant(*self, 1),
            r.2 == spec_quadrant(*self, 2),
            r.3 == spec_quadrant(*self, 3),
    {
        let (cx, cy) = self.center();
        (
            Boundary { x_min: self.x_min, x_max: cx, y_min: self.y_min, y_max: cy },
            Boundary { x_min: cx, x_max: self.x_max, y_min: self.y_min, y_max: cy },
            Boundary { x_min: self.x_min, x_max: cx, y_min: cy, y_max: self.y_max },
            Boundary { x_min: cx, x_max: self.x_max, y_min: cy, y_max: self.y_max },
        )
    }
}

// ---------------------------------------------------------------------
// The recursive node and its mathematical model.
// ---------------------------------------------------------------------

/// A quadtree node: empty, a single body, or four optional children with
/// cached aggregates.  `total_mass` is the exact sum of the masses below;
/// `moment_x` / `moment_y` are the exact mass-weighted coordinate sums,
/// so the center of mass is `(moment_x / total_mass, moment_y / total_mass)`.
pub enum QuadTreeNode {
    Empty,
    Leaf { body: Body },
    Internal {
        total_mass: u64,
        moment_x: i128,
        moment_y: i128,
        bl: Option<Box<QuadTreeNode>>,
        br: Option<Box<QuadTreeNode>>,
        tl: Option<Box<QuadTreeNode>>,
        tr: Option<Box<QuadTreeNode>>,
    },
}

/// Sum of the masses of all bodies in the subtree.
pub open spec fn mass_sum(n: QuadTreeNode) -> int
    decreases n,
{
    match n {
        QuadTreeNode::Empty => 0,
        QuadTreeNode::Leaf { body } => body.mass as int,
        QuadTreeNode::Internal { bl, br, tl, tr, .. } => mass_sum_opt(bl) + mass_sum_opt(br)
            + mass_sum_opt(tl) + mass_sum_opt(tr),
    }
}

/// Mass sum of an optional child.
pub open spec fn mass_sum_opt(c: Option<Box<QuadTreeNode>>) -> int
    decreases c,
{
    match c {
        Option::None => 0,
        Option::Some(n) => mass_sum(*n),
    }
}

/// Sum of `mass * x` over all bodies in the subtree.
pub open spec fn moment_x(n: QuadTreeNode) -> int
    decreases n,
{
    match n {
        QuadTreeNode::Empty => 0,
        QuadTreeNode::Leaf { body } => (body.mass as int) * (body.position.0 as int),
        QuadTreeNode::Internal { bl, br, tl, tr, .. } => moment_x_opt(bl) + moment_x_opt(br)
            + moment_x_opt(tl) + moment_x_opt(tr),
    }
}

/// `moment_x` of an optional child.
pub open spec fn moment_x_opt(c: Option<Box<QuadTreeNode>>) -> int
    decreases c,
{
    match c {
        Option::None => 0,
        Option::Some(n) => moment_x(*n),
    }
}

/// Sum of `mass * y` over all bodies in the subtree.
pub open spec fn moment_y(n: QuadTreeNode) -> int
    decreases n,
{
    match n {
        QuadTreeNode::Empty => 0,
        QuadTreeNode::Leaf { body } => (body.mass as int) * (body.position.1 as int),
        QuadTreeNode::Internal { bl, br, tl, tr, .. } => moment_y_opt(bl) + moment_y_opt(br)
            + moment_y_opt(tl) + moment_y_opt(tr),
    }
}

/// `moment_y` of an optional child.
pub open spec fn moment_y_opt(c: Option<Box<QuadTreeNode>>) -> int
    decreases c,
{
    match c {
        Option::None => 0,
        Option::Some(n) => moment_y(*n),
    }
}

/// Whether some body in the subtree sits exactly at `p`.
pub open spec fn has_pos(n: QuadTreeNode, p: (i64, i64)) -> bool
    decreases n,
{
    match n {
        QuadTreeNode::Empty => false,
        QuadTreeNode::Leaf { body } => body.position == p,
        QuadTreeNode::Internal { bl, br, tl, tr, .. } => has_pos_opt(bl, p) || has_pos_opt(br, p)
            || has_pos_opt(tl, p) || has_pos_opt(tr, p),
    }
}

/// `has_pos` of an optional child.
pub open spec fn has_pos_opt(c: Option<Box<QuadTreeNode>>, p: (i64, i64)) -> bool
    decreases c,
{
    match c {
        Option::None => false,
        Option::Some(n) => has_pos(*n, p),
    }
}

/// Every body position in the child subtree first-matches quadrant `i`
/// of the parent region.
pub open spec fn placed_in(c: Option<Box<QuadTreeNode>>, b: Boundary, i: int) -> bool {
    forall|p: (i64, i64)| has_pos_opt(c, p) ==> first_match(b, p) == i
}

/// Structural invariant of a node over its region `b`: bodies are
/// well-formed and contained, children live in their first-match
/// quadrants, and cached aggregates equal the exact sums below, with the
/// total within the crate's mass budget.
pub open spec fn wf_node(n: QuadTreeNode, b: Boundary) -> bool
    decreases n,
{
    match n {
        QuadTreeNode::Empty => true,
        QuadTreeNode::Leaf { body } => wf_body(body) && spec_contains(
            b,
            body.position.0 as int,
            body.position.1 as int,
        ),
        QuadTreeNode::Internal { total_mass, moment_x: mx, moment_y: my, bl, br, tl, tr } => {
            &&& wf_opt(bl, spec_quadrant(b, 0))
            &&& wf_opt(br, spec_quadrant(b, 1))
            &&& wf_opt(tl, spec_quadrant(b, 2))
            &&& wf_opt(tr, spec_quadrant(b, 3))
            &&& placed_in(bl, b, 0)
            &&& placed_in(br, b, 1)
            &&& placed_in(tl, b, 2)
            &&& placed_in(tr, b, 3)
            &&& total_mass as int == mass_sum_opt(bl) + mass_sum_opt(br) + mass_sum_opt(tl)
                + mass_sum_opt(tr)
            &&& mx as int == moment_x_opt(bl) + moment_x_opt(br) + moment_x_opt(tl) + moment_x_opt(
                tr,
            )
            &&& my as int == moment_y_opt(bl) + moment_y_opt(br) + moment_y_opt(tl) + moment_y_opt(
                tr,
            )
            &&& 1 <= total_mass <= MASS_LIMIT
        },
    }
}

/// `wf_node` of an optional child.
pub open spec fn wf_opt(c: Option<Box<QuadTreeNode>>, b: Boundary) -> bool
    decreases c,
{
    match c {
        Option::None => true,
        Option::Some(n) => wf_node(*n, b),
    }
}

/// In a well-formed subtree the mass sum is nonnegative, bounded by the
/// mass budget, and the moments are bounded by `mass * COORD_LIMIT`.
pub proof fn lemma_wf_sums(n: QuadTreeNode, b: Boundary)
    requires
        wf_node(n, b),
    ensures
        0 <= mass_sum(n) <= MASS_LIMIT,
        -(mass_sum(n) * (COORD_LIMIT as int)) <= moment_x(n) <= mass_sum(n) * (COORD_LIMIT as int),
        -(mass_sum(n) * (COORD_LIMIT as int)) <= moment_y(n) <= mass_sum(n) * (COORD_LIMIT as int),
    decreases n,
{
    match n {
        QuadTreeNode::Empty => {
            assert(mass_sum(n) * (COORD_LIMIT as int) == 0) by (nonlinear_arith)
                requires
                    mass_sum(n) == 0,
            ;
        },
        QuadTreeNode::Leaf { body } => {
            assert(-((body.mass as int) * (COORD_LIMIT as int)) <= (body.mass as int) * (
            body.position.0 as int) <= (body.mass as int) * (COORD_LIMIT as int)
                && -((body.mass as int) * (COORD_LIMIT as int)) <= (body.mass as int) * (
            body.position.1 as int) <= (body.mass as int) * (COORD_LIMIT as int))
                by (nonlinear_arith)
                requires
                    1 <= body.mass,
                    -COORD_LIMIT <= body.position.0 <= COORD_LIMIT,
                    -COORD_LIMIT <= body.position.1 <= COORD_LIMIT,
            ;
        },
        QuadTreeNode::Internal { total_mass, bl, br, tl, tr, .. } => {
            lemma_wf_sums_opt(bl, spec_quadrant(b, 0));
            lemma_wf_sums_opt(br, spec_quadrant(b, 1));
            lemma_wf_sums_opt(tl, spec_quadrant(b, 2));
            lemma_wf_sums_opt(tr, spec_quadrant(b, 3));
            assert(mass_sum_opt(bl) * (COORD_LIMIT as int) + mass_sum_opt(br) * (
            COORD_LIMIT as int) + mass_sum_opt(tl) * (COORD_LIMIT as int) + mass_sum_opt(tr) * (
            COORD_LIMIT as int) == mass_sum(n) * (COORD_LIMIT as int)) by (nonlinear_arith)
                requires
                    mass_sum(n) == mass_sum_opt(bl) + mass_sum_opt(br) + mass_sum_opt(tl)
                        + mass_sum_opt(tr),
            ;
        },
    }
}

/// `lemma_wf_sums` lifted to an optional child.
pub proof fn lemma_wf_sums_opt(c: Option<Box<QuadTreeNode>>, b: Boundary)
    requires
        wf_opt(c, b),
    ensures
        0 <= mass_sum_opt(c),
        c is Some ==> mass_sum_opt(c) <= MASS_LIMIT,
        -(mass_sum_opt(c) * (COORD_LIMIT as int)) <= moment_x_opt(c) <= mass_sum_opt(c) * (
        COORD_LIMIT as int),
        -(mass_sum_opt(c) * (COORD_LIMIT as int)) <= moment_y_opt(c) <= mass_sum_opt(c) * (
        COORD_LIMIT as int),
    decreases c,
{
    match c {
        Option::None => {
            assert(mass_sum_opt(c) * (COORD_LIMIT as int) == 0) by (nonlinear_arith)
                requires
                    mass_sum_opt(c) == 0,
            ;
        },
        Option::Some(n) => {
            lemma_wf_sums(*n, b);
        },
    }
}

// ---------------------------------------------------------------------
// Insertion.
// ---------------------------------------------------------------------

/// An internal node over the given children, with the cached aggregates
/// recomputed exactly from them.
pub open spec fn make_internal(
    bl: Option<Box<QuadTreeNode>>,
    br: Option<Box<QuadTreeNode>>,
    tl: Option<Box<QuadTreeNode>>,
    tr: Option<Box<QuadTreeNode>>,
) -> QuadTreeNode {
    QuadTreeNode::Internal {
        total_mass: (mass_sum_opt(bl) + mass_sum_opt(br) + mass_sum_opt(tl) + mass_sum_opt(
            tr,
        )) as u64,
        moment_x: (moment_x_opt(bl) + moment_x_opt(br) + moment_x_opt(tl) + moment_x_opt(
            tr,
        )) as i128,
        moment_y: (moment_y_opt(bl) + moment_y_opt(br) + moment_y_opt(tl) + moment_y_opt(
            tr,
        )) as i128,
        bl,
        br,
        tl,
        tr,
    }
}

/// Four child slots with `c` in slot `i` and the rest empty.
pub open spec fn one_slot(i: int, c: Option<Box<QuadTreeNode>>) -> (
    Option<Box<QuadTreeNode>>,
    Option<Box<QuadTreeNode>>,
    Option<Box<QuadTreeNode>>,
    Option<Box<QuadTreeNode>>,
) {
    (
        if i == 0 { c } else { Option::None },
        if i == 1 { c } else { Option::None },
        if i == 2 { c } else { Option::None },
        if i == 3 { c } else { Option::None },
    )
}

/// Four child slots with `ci` in slot `i` and `cj` in slot `j != i`.
pub open spec fn two_slots(
    i: int,
    ci: Option<Box<QuadTreeNode>>,
    j: int,
    cj: Option<Box<QuadTreeNode>>,
) -> (
    Option<Box<QuadTreeNode>>,
    Option<Box<QuadTreeNode>>,
    Option<Box<QuadTreeNode>>,
    Option<Box<QuadTreeNode>>,
) {
    (
        if i == 0 { ci } else if j == 0 { cj } else { Option::None },
        if i == 1 { ci } else if j == 1 { cj } else { Option::None },
        if i == 2 { ci } else if j == 2 { cj } else { Option::None },
        if i == 3 { ci } else if j == 3 { cj } else { Option::None },
    )
}

/// Domain on which the two-body subdivision is defined: a well-formed
/// region containing both bodies, whose positions differ.
pub open spec fn pair_domain(b1: Body, b2: Body, b: Boundary) -> bool {
    &&& wf_boundary(b)
    &&& b1.position != b2.position
    &&& spec_contains(b, b1.position.0 as int, b1.position.1 as int)
    &&& spec_contains(b, b2.position.0 as int, b2.position.1 as int)
}

/// Subtree holding exactly the two distinct bodies `b1` and `b2`: both
/// are routed to their first-match quadrant, subdividing further while
/// they share one.
pub open spec fn spec_insert_pair(b1: Body, b2: Body, b: Boundary) -> QuadTreeNode
    decreases bsize(b)
        when pair_domain(b1, b2, b)
{
    let i = first_match(b, b1.position);
    let j = first_match(b, b2.position);
    if i == j {
        proof {
            lemma_same_quadrant_shrinks(b, b1.position, b2.position);
            lemma_quadrant_wf(b, i);
        }
        let child = spec_insert_pair(b1, b2, spec_quadrant(b, i));
        let s = one_slot(i, Option::Some(Box::new(child)));
        make_internal(s.0, s.1, s.2, s.3)
    } else {
        let s = two_slots(
            i,
            Option::Some(Box::new(QuadTreeNode::Leaf { body: b1 })),
            j,
            Option::Some(Box::new(QuadTreeNode::Leaf { body: b2 })),
        );
        make_internal(s.0, s.1, s.2, s.3)
    }
}

/// The tree after inserting `body` into node `n` over region `b`.
/// Inserting at an already-occupied exact position is a no-op.
pub open spec fn spec_insert(n: QuadTreeNode, body: Body, b: Boundary) -> QuadTreeNode
    decreases n,
{
    match n {
        QuadTreeNode::Empty => QuadTreeNode::Leaf { body },
        QuadTreeNode::Leaf { body: existing } => {
            if existing.position == body.position {
                QuadTreeNode::Leaf { body: existing }
            } else {
                spec_insert_pair(existing, body, b)
            }
        },
        QuadTreeNode::Internal { bl, br, tl, tr, .. } => {
            let i = first_match(b, body.position);
            let bl2 = if i == 0 { spec_insert_opt(bl, body, spec_quadrant(b, 0)) } else { bl };
            let br2 = if i == 1 { spec_insert_opt(br, body, spec_quadrant(b, 1)) } else { br };
            let tl2 = if i == 2 { spec_insert_opt(tl, body, spec_quadrant(b, 2)) } else { tl };
            let tr2 = if i == 3 { spec_insert_opt(tr, body, spec_quadrant(b, 3)) } else { tr };
            make_internal(bl2, br2, tl2, tr2)
        },
    }
}

/// Insertion into an optional child: an absent child becomes a leaf.
pub open spec fn spec_insert_opt(
    c: Option<Box<QuadTreeNode>>,
    body: Body,
    b: Boundary,
) -> Option<Box<QuadTreeNode>>
    decreases c,
{
    match c {
        Option::None => Option::Some(Box::new(QuadTreeNode::Leaf { body })),
        Option::Some(n) => Option::Some(Box::new(spec_insert(*n, body, b))),
    }
}

/// Structure of a freshly built pair subtree: well-formed, aggregates
/// are the exact two-body sums, and it holds exactly the two positions.
#[verifier::rlimit(60)]
pub proof fn lemma_insert_pair_props(b1: Body, b2: Body, b: Boundary)
    requires
        wf_boundary(b),
        wf_body(b1),
        wf_body(b2),
        b1.position != b2.position,
        spec_contains(b, b1.position.0 as int, b1.position.1 as int),
        spec_contains(b, b2.position.0 as int, b2.position.1 as int),
        b1.mass + b2.mass <= MASS_LIMIT,
    ensures
        wf_node(spec_insert_pair(b1, b2, b), b),
        mass_sum(spec_insert_pair(b1, b2, b)) == b1.mass + b2.mass,
        moment_x(spec_insert_pair(b1, b2, b)) == (b1.mass as int) * (b1.position.0 as int) + (
        b2.mass as int) * (b2.position.0 as int),
        moment_y(spec_insert_pair(b1, b2, b)) == (b1.mass as int) * (b1.position.1 as int) + (
        b2.mass as int) * (b2.position.1 as int),
        forall|p: (i64, i64)|
            has_pos(spec_insert_pair(b1, b2, b), p) <==> (p == b1.position || p == b2.position),
    decreases bsize(b),
{
    let i = first_match(b, b1.position);
    let j = first_match(b, b2.position);
    lemma_first_match_some(b, b1.position);
    lemma_first_match_some(b, b2.position);
    lemma_quadrant_wf(b, i);
    lemma_quadrant_wf(b, j);
    lemma_moment_term_bound(b1);
    lemma_moment_term_bound(b2);
    let r = spec_insert_pair(b1, b2, b);
    if i == j {
        lemma_same_quadrant_shrinks(b, b1.position, b2.position);
        lemma_insert_pair_props(b1, b2, spec_quadrant(b, i));
        let child = spec_insert_pair(b1, b2, spec_quadrant(b, i));
        let s = one_slot(i, Option::Some(Box::new(child)));
        assert(r == make_internal(s.0, s.1, s.2, s.3));
        assert(mass_sum_opt(Option::Some(Box::new(child))) == b1.mass + b2.mass);
        assert forall|p: (i64, i64)| has_pos(r, p) <==> (p == b1.position || p == b2.position) by {
            assert(has_pos(spec_insert_pair(b1, b2, spec_quadrant(b, i)), p) <==> (p == b1.position
                || p == b2.position));
            assert(has_pos_opt(Option::Some(Box::new(child)), p) <==> (p == b1.position || p
                == b2.position));
        }
        assert(placed_in(s.0, b, 0) && placed_in(s.1, b, 1) && placed_in(s.2, b, 2) && placed_in(
            s.3,
            b,
            3,
        )) by {
            assert forall|p: (i64, i64)| has_pos_opt(Option::Some(Box::new(child)), p) implies
                first_match(b, p) == i by {
                assert(has_pos(spec_insert_pair(b1, b2, spec_quadrant(b, i)), p));
                assert(p == b1.position || p == b2.position);
            }
        }
        assert(mass_sum(r) == b1.mass + b2.mass);
        assert(moment_x(r) == (b1.mass as int) * (b1.position.0 as int) + (b2.mass as int) * (
        b2.position.0 as int));
        assert(wf_opt(s.0, spec_quadrant(b, 0)));
        assert(wf_opt(s.1, spec_quadrant(b, 1)));
        assert(wf_opt(s.2, spec_quadrant(b, 2)));
        assert(wf_opt(s.3, spec_quadrant(b, 3)));
        let tsum = mass_sum_opt(s.0) + mass_sum_opt(s.1) + mass_sum_opt(s.2) + mass_sum_opt(s.3);
        let xsum = moment_x_opt(s.0) + moment_x_opt(s.1) + moment_x_opt(s.2) + moment_x_opt(s.3);
        let ysum = moment_y_opt(s.0) + moment_y_opt(s.1) + moment_y_opt(s.2) + moment_y_opt(s.3);
        assert(tsum == b1.mass + b2.mass);
        assert((tsum as u64) as int == tsum);
        assert((xsum as i128) as int == xsum);
        assert((ysum as i128) as int == ysum);
        assert(wf_node(make_internal(s.0, s.1, s.2, s.3), b));
    } else {
        let l1 = Option::Some(Box::new(QuadTreeNode::Leaf { body: b1 }));
        let l2 = Option::Some(Box::new(QuadTreeNode::Leaf { body: b2 }));
        let s = two_slots(i, l1, j, l2);
        assert(r == make_internal(s.0, s.1, s.2, s.3));
        assert forall|p: (i64, i64)| has_pos(r, p) <==> (p == b1.position || p == b2.position) by {
            assert(has_pos_opt(l1, p) <==> p == b1.position);
            assert(has_pos_opt(l2, p) <==> p == b2.position);
        }
        assert(placed_in(s.0, b, 0) && placed_in(s.1, b, 1) && placed_in(s.2, b, 2) && placed_in(
            s.3,
            b,
            3,
        )) by {
            assert forall|p: (i64, i64)| has_pos_opt(l1, p) implies first_match(b, p) == i by {}
            assert forall|p: (i64, i64)| has_pos_opt(l2, p) implies first_match(b, p) == j by {}
        }
        assert(wf_opt(s.0, spec_quadrant(b, 0)));
        assert(wf_opt(s.1, spec_quadrant(b, 1)));
        assert(wf_opt(s.2, spec_quadrant(b, 2)));
        assert(wf_opt(s.3, spec_quadrant(b, 3)));
        let tsum = mass_sum_opt(s.0) + mass_sum_opt(s.1) + mass_sum_opt(s.2) + mass_sum_opt(s.3);
        let xsum = moment_x_opt(s.0) + moment_x_opt(s.1) + moment_x_opt(s.2) + moment_x_opt(s.3);
        let ysum = moment_y_opt(s.0) + moment_y_opt(s.1) + moment_y_opt(s.2) + moment_y_opt(s.3);
        assert(tsum == b1.mass + b2.mass);
        assert((tsum as u64) as int == tsum);
        assert((xsum as i128) as int == xsum);
        assert((ysum as i128) as int == ysum);
        assert(wf_node(make_internal(s.0, s.1, s.2, s.3), b));
    }
}

/// Each mass-times-coordinate term of a well-formed body fits well
/// inside `i128`.
pub proof fn lemma_moment_term_bound(body: Body)
    requires
        wf_body(body),
    ensures
        -590_295_810_358_705_651_712int <= (body.mass as int) * (body.position.0 as int)
            <= 590_295_810_358_705_651_712int,
        -590_295_810_358_705_651_712int <= (body.mass as int) * (body.position.1 as int)
            <= 590_295_810_358_705_651_712int,
{
    assert(-590_295_810_358_705_651_712int <= (body.mass as int) * (body.position.0 as int)
        <= 590_295_810_358_705_651_712int && -590_295_810_358_705_651_712int <= (body.mass as int)
        * (body.position.1 as int) <= 590_295_810_358_705_651_712int) by (nonlinear_arith)
        requires
            0 <= body.mass <= 549_755_813_888u64,
            -1_073_741_824 <= body.position.0 <= 1_073_741_824,
            -1_073_741_824 <= body.position.1 <= 1_073_741_824,
    ;
}

/// Effect of `spec_insert` on the model: a no-op at an occupied
/// position, otherwise the body's mass and moments join the sums; the
/// positions below grow by exactly the inserted one, and the result is
/// well-formed.
pub proof fn lemma_insert_props(n: QuadTreeNode, body: Body, b: Boundary)
    requires
        wf_boundary(b),
        wf_node(n, b),
        wf_body(body),
        spec_contains(b, body.position.0 as int, body.position.1 as int),
        mass_sum(n) + body.mass <= MASS_LIMIT,
    ensures
        wf_node(spec_insert(n, body, b), b),
        has_pos(n, body.position) ==> spec_insert(n, body, b) == n,
        !has_pos(n, body.position) ==> mass_sum(spec_insert(n, body, b)) == mass_sum(n)
            + body.mass,
        !has_pos(n, body.position) ==> moment_x(spec_insert(n, body, b)) == moment_x(n) + (
        body.mass as int) * (body.position.0 as int),
        !has_pos(n, body.position) ==> moment_y(spec_insert(n, body, b)) == moment_y(n) + (
        body.mass as int) * (body.position.1 as int),
        forall|p: (i64, i64)|
            has_pos(spec_insert(n, body, b), p) <==> (has_pos(n, p) || p == body.position),
    decreases n,
{
    lemma_wf_sums(n, b);
    lemma_moment_term_bound(body);
    match n {
        QuadTreeNode::Empty => {},
        QuadTreeNode::Leaf { body: existing } => {
            if existing.position != body.position {
                lemma_insert_pair_props(existing, body, b);
            }
        },
        QuadTreeNode::Internal { total_mass, bl, br, tl, tr, .. } => {
            let i = first_match(b, body.position);
            lemma_first_match_some(b, body.position);
            lemma_quadrant_wf(b, 0);
            lemma_quadrant_wf(b, 1);
            lemma_quadrant_wf(b, 2);
            lemma_quadrant_wf(b, 3);
            lemma_wf_sums_opt(bl, spec_quadrant(b, 0));
            lemma_wf_sums_opt(br, spec_quadrant(b, 1));
            lemma_wf_sums_opt(tl, spec_quadrant(b, 2));
            lemma_wf_sums_opt(tr, spec_quadrant(b, 3));
            let qi = spec_quadrant(b, i);
            let ci = if i == 0 { bl } else if i == 1 { br } else if i == 2 { tl } else { tr };
            let ci2 = spec_insert_opt(ci, body, qi);
            lemma_insert_opt_props(ci, body, qi);
            let r = spec_insert(n, body, b);
            let bl2 = if i == 0 { ci2 } else { bl };
            let br2 = if i == 1 { ci2 } else { br };
            let tl2 = if i == 2 { ci2 } else { tl };
            let tr2 = if i == 3 { ci2 } else { tr };
            assert(r == make_internal(bl2, br2, tl2, tr2));
            // The body can only already sit below the child its position
            // first-matches: the placement invariant pins every other child.
            if has_pos(n, body.position) {
                assert(has_pos_opt(ci, body.position));
                assert(ci2 == ci);
                assert(r == n);
            } else {
                assert(!has_pos_opt(ci, body.position));
            }
            assert forall|p: (i64, i64)| has_pos(r, p) <==> (has_pos(n, p) || p == body.position)
                by {
                assert(has_pos_opt(ci2, p) <==> (has_pos_opt(ci, p) || p == body.position));
            }
            assert(placed_in(bl2, b, 0) && placed_in(br2, b, 1) && placed_in(tl2, b, 2)
                && placed_in(tr2, b, 3)) by {
                assert forall|p: (i64, i64)| has_pos_opt(ci2, p) implies first_match(b, p) == i by {
                    assert(has_pos_opt(ci, p) || p == body.position);
                }
            }
            assert(wf_node(r, b));
        },
    }
}

/// `lemma_insert_props` lifted to an optional child.
pub proof fn lemma_insert_opt_props(c: Option<Box<QuadTreeNode>>, body: Body, b: Boundary)
    requires
        wf_boundary(b),
        wf_opt(c, b),
        wf_body(body),
        spec_contains(b, body.position.0 as int, body.position.1 as int),
        mass_sum_opt(c) + body.mass <= MASS_LIMIT,
    ensures
        wf_opt(spec_insert_opt(c, body, b), b),
        has_pos_opt(c, body.position) ==> spec_insert_opt(c, body, b) == c,
        !has_pos_opt(c, body.position) ==> mass_sum_opt(spec_insert_opt(c, body, b))
            == mass_sum_opt(c) + body.mass,
        !has_pos_opt(c, body.position) ==> moment_x_opt(spec_insert_opt(c, body, b))
            == moment_x_opt(c) + (body.mass as int) * (body.position.0 as int),
        !has_pos_opt(c, body.position) ==> moment_y_opt(spec_insert_opt(c, body, b))
            == moment_y_opt(c) + (body.mass as int) * (body.position.1 as int),
        forall|p: (i64, i64)|
            has_pos_opt(spec_insert_opt(c, body, b), p) <==> (has_pos_opt(c, p) || p
                == body.position),
    decreases c,
{
    let r = spec_insert_opt(c, body, b);
    match c {
        Option::None => {
            assert forall|p: (i64, i64)| has_pos_opt(r, p) <==> (has_pos_opt(c, p) || p
                == body.position) by {
                assert(r == Option::Some(Box::new(QuadTreeNode::Leaf { body })));
                assert(has_pos(QuadTreeNode::Leaf { body }, p) == (body.position == p));
            }
        },
        Option::Some(n) => {
            lemma_insert_props(*n, body, b);
            assert forall|p: (i64, i64)| has_pos_opt(r, p) <==> (has_pos_opt(c, p) || p
                == body.position) by {
                assert(has_pos(spec_insert(*n, body, b), p) <==> (has_pos(*n, p) || p
                    == body.position));
            }
        },
    }
}

/// Moments of a well-formed child are bounded by
/// `MASS_LIMIT * COORD_LIMIT`.
pub proof fn lemma_moment_cap_opt(c: Option<Box<QuadTreeNode>>, b: Boundary)
    requires
        wf_opt(c, b),
    ensures
        0 <= mass_sum_opt(c) <= MASS_LIMIT,
        -590_295_810_358_705_651_712int <= moment_x_opt(c) <= 590_295_810_358_705_651_712int,
        -590_295_810_358_705_651_712int <= moment_y_opt(c) <= 590_295_810_358_705_651_712int,
{
    lemma_wf_sums_opt(c, b);
    let s = mass_sum_opt(c);
    assert(s * (COORD_LIMIT as int) <= 590_295_810_358_705_651_712int && -(s * (
    COORD_LIMIT as int)) >= -590_295_810_358_705_651_712int) by (nonlinear_arith)
        requires
            0 <= s <= 549_755_813_888int,
    ;
}

impl QuadTreeNode {
    /// Cached subtree mass of an optional child, read without descending.
    fn cached_mass(c: &Option<Box<QuadTreeNode>>, Ghost(gb): Ghost<Boundary>) -> (r: u64)
        requires
            wf_opt(*c, gb),
        ensures
            r as int == mass_sum_opt(*c),
    {
        match c {
            Option::None => 0,
            Option::Some(n) => match &**n {
                QuadTreeNode::Empty => 0,
                QuadTreeNode::Leaf { body } => body.mass,
                QuadTreeNode::Internal { total_mass, .. } => *total_mass,
            },
        }
    }

    /// Cached subtree moments of an optional child.
    fn cached_moments(c: &Option<Box<QuadTreeNode>>, Ghost(gb): Ghost<Boundary>) -> (r: (
        i128,
        i128,
    ))
        requires
            wf_opt(*c, gb),
        ensures
            r.0 as int == moment_x_opt(*c),
            r.1 as int == moment_y_opt(*c),
    {
        match c {
            Option::None => (0, 0),
            Option::Some(n) => match &**n {
                QuadTreeNode::Empty => (0, 0),
                QuadTreeNode::Leaf { body } => {
                    proof {
                        lemma_moment_term_bound(*body);
                    }
                    (
                        (body.mass as i128) * (body.position.0 as i128),
                        (body.mass as i128) * (body.position.1 as i128),
                    )
                },
                QuadTreeNode::Internal { moment_x: mx, moment_y: my, .. } => (*mx, *my),
            },
        }
    }

    /// First-match quadrant index of a contained point.
    fn quad_index(boundary: &Boundary, p: (i64, i64)) -> (r: usize)
        requires
            wf_boundary(*boundary),
            spec_contains(*boundary, p.0 as int, p.1 as int),
        ensures
            r as int == first_match(*boundary, p),
            r < 4,
    {
        proof {
            lemma_first_match_some(*boundary, p);
        }
        let quads = boundary.subdivide();
        if quads.0.contains(p.0, p.1) {
            0
        } else if quads.1.contains(p.0, p.1) {
            1
        } else if quads.2.contains(p.0, p.1) {
            2
        } else {
            3
        }
    }

    /// Insert `body` into this node over `boundary`.  Inserting at an
    /// exact position already present leaves the tree unchanged, which
    /// keeps the subdivision finite for coincident points.
    pub fn insert(self, body: Body, boundary: Boundary) -> (r: Self)
        requires
            wf_boundary(boundary),
            wf_node(self, boundary),
            wf_body(body),
            spec_contains(boundary, body.position.0 as int, body.position.1 as int),
            mass_sum(self) + body.mass <= MASS_LIMIT,
        ensures
            r == spec_insert(self, body, boundary),
            wf_node(r, boundary),
        decreases self,
    {
        proof {
            lemma_insert_props(self, body, boundary);
        }
        let ghost orig = self;
        match self {
            QuadTreeNode::Empty => QuadTreeNode::Leaf { body },
            QuadTreeNode::Leaf { body: existing } => {
                if existing.position.0 == body.position.0 && existing.position.1
                    == body.position.1 {
                    QuadTreeNode::Leaf { body: existing }
                } else {
                    Self::insert_pair(existing, body, boundary)
                }
            },
            QuadTreeNode::Internal { total_mass, moment_x: mx, moment_y: my, bl, br, tl, tr } => {
                let ghost i = first_match(boundary, body.position);
                proof {
                    lemma_first_match_some(boundary, body.position);
                    lemma_quadrant_wf(boundary, 0);
                    lemma_quadrant_wf(boundary, 1);
                    lemma_quadrant_wf(boundary, 2);
                    lemma_quadrant_wf(boundary, 3);
                    lemma_wf_sums_opt(bl, spec_quadrant(boundary, 0));
                    lemma_wf_sums_opt(br, spec_quadrant(boundary, 1));
                    lemma_wf_sums_opt(tl, spec_quadrant(boundary, 2));
                    lemma_wf_sums_opt(tr, spec_quadrant(boundary, 3));
                }
                let quads = boundary.subdivide();
                let idx = Self::quad_index(&boundary, body.position);
                let (nbl, nbr, ntl, ntr) = if idx == 0 {
                    proof {
                        lemma_insert_opt_props(bl, body, spec_quadrant(boundary, 0));
                    }
                    (Self::insert_opt(bl, body, quads.0), br, tl, tr)
                } else if idx == 1 {
                    proof {
                        lemma_insert_opt_props(br, body, spec_quadrant(boundary, 1));
                    }
                    (bl, Self::insert_opt(br, body, quads.1), tl, tr)
                } else if idx == 2 {
                    proof {
                        lemma_insert_opt_props(tl, body, spec_quadrant(boundary, 2));
                    }
                    (bl, br, Self::insert_opt(tl, body, quads.2), tr)
                } else {
                    proof {
                        lemma_insert_opt_props(tr, body, spec_quadrant(boundary, 3));
                    }
                    (bl, br, tl, Self::insert_opt(tr, body, quads.3))
                };
                proof {
                    lemma_moment_cap_opt(nbl, spec_quadrant(boundary, 0));
                    lemma_moment_cap_opt(nbr, spec_quadrant(boundary, 1));
                    lemma_moment_cap_opt(ntl, spec_quadrant(boundary, 2));
                    lemma_moment_cap_opt(ntr, spec_quadrant(boundary, 3));
                }
                let m0 = Self::cached_mass(&nbl, Ghost(spec_quadrant(boundary, 0)));
                let m1 = Self::cached_mass(&nbr, Ghost(spec_quadrant(boundary, 1)));
                let m2 = Self::cached_mass(&ntl, Ghost(spec_quadrant(boundary, 2)));
                let m3 = Self::cached_mass(&ntr, Ghost(spec_quadrant(boundary, 3)));
                let x0 = Self::cached_moments(&nbl, Ghost(spec_quadrant(boundary, 0)));
                let x1 = Self::cached_moments(&nbr, Ghost(spec_quadrant(boundary, 1)));
                let x2 = Self::cached_moments(&ntl, Ghost(spec_quadrant(boundary, 2)));
                let x3 = Self::cached_moments(&ntr, Ghost(spec_quadrant(boundary, 3)));
                QuadTreeNode::Internal {
                    total_mass: m0 + m1 + m2 + m3,
                    moment_x: x0.0 + x1.0 + x2.0 + x3.0,
                    moment_y: x0.1 + x1.1 + x2.1 + x3.1,
                    bl: nbl,
                    br: nbr,
                    tl: ntl,
                    tr: ntr,
                }
            },
        }
    }

    /// Insert into an optional child slot, creating a leaf where the
    /// slot was empty.
    fn insert_opt(c: Option<Box<QuadTreeNode>>, body: Body, b: Boundary) -> (r: Option<
        Box<QuadTreeNode>,
    >)
        requires
            wf_boundary(b),
            wf_opt(c, b),
            wf_body(body),
            spec_contains(b, body.position.0 as int, body.position.1 as int),
            mass_sum_opt(c) + body.mass <= MASS_LIMIT,
        ensures
            r == spec_insert_opt(c, body, b),
            wf_opt(r, b),
        decreases c,
    {
        proof {
            lemma_insert_opt_props(c, body, b);
        }
        match c {
            Option::None => Option::Some(Box::new(QuadTreeNode::Leaf { body })),
            Option::Some(n) => Option::Some(Box::new((*n).insert(body, b))),
        }
    }

    /// Build the subtree for two distinct bodies that share a region:
    /// subdivide until their first-match quadrants differ.
    fn insert_pair(b1: Body, b2: Body, boundary: Boundary) -> (r: Self)
        requires
            wf_boundary(boundary),
            wf_body(b1),
            wf_body(b2),
            b1.position != b2.position,
            spec_contains(boundary, b1.position.0 as int, b1.position.1 as int),
            spec_contains(boundary, b2.position.0 as int, b2.position.1 as int),
            b1.mass + b2.mass <= MASS_LIMIT,
        ensures
            r == spec_insert_pair(b1, b2, boundary),
            wf_node(r, boundary),
        decreases bsize(boundary),
    {
        proof {
            lemma_insert_pair_props(b1, b2, boundary);
            lemma_moment_term_bound(b1);
            lemma_moment_term_bound(b2);
        }
        let quads = boundary.subdivide();
        let idx = Self::quad_index(&boundary, b1.position);
        let jdx = Self::quad_index(&boundary, b2.position);
        let mxv: i128 = (b1.mass as i128) * (b1.position.0 as i128) + (b2.mass as i128) * (
        b2.position.0 as i128);
        let myv: i128 = (b1.mass as i128) * (b1.position.1 as i128) + (b2.mass as i128) * (
        b2.position.1 as i128);
        if idx == jdx {
            proof {
                lemma_same_quadrant_shrinks(boundary, b1.position, b2.position);
                lemma_quadrant_wf(boundary, idx as int);
                lemma_insert_pair_props(
                    b1,
                    b2,
                    spec_quadrant(boundary, first_match(boundary, b1.position)),
                );
            }
            let q = if idx == 0 {
                quads.0
            } else if idx == 1 {
                quads.1
            } else if idx == 2 {
                quads.2
            } else {
                quads.3
            };
            let child = Option::Some(Box::new(Self::insert_pair(b1, b2, q)));
            let (bl, br, tl, tr) = if idx == 0 {
                (child, Option::None, Option::None, Option::None)
            } else if idx == 1 {
                (Option::None, child, Option::None, Option::None)
            } else if idx == 2 {
                (Option::None, Option::None, child, Option::None)
            } else {
                (Option::None, Option::None, Option::None, child)
            };
            QuadTreeNode::Internal {
                total_mass: b1.mass + b2.mass,
                moment_x: mxv,
                moment_y: myv,
                bl,
                br,
                tl,
                tr,
            }
        } else {
            let l1 = Option::Some(Box::new(QuadTreeNode::Leaf { body: b1 }));
            let l2 = Option::Some(Box::new(QuadTreeNode::Leaf { body: b2 }));
            let (bl, br, tl, tr) = Self::two_leaf_slots(idx, l1, jdx, l2);
            QuadTreeNode::Internal {
                total_mass: b1.mass + b2.mass,
                moment_x: mxv,
                moment_y: myv,
                bl,
                br,
                tl,
                tr,
            }
        }
    }

    /// Distribute two child nodes over the four quadrant slots.
    fn two_leaf_slots(
        i: usize,
        ci: Option<Box<QuadTreeNode>>,
        j: usize,
        cj: Option<Box<QuadTreeNode>>,
    ) -> (r: (
        Option<Box<QuadTreeNode>>,
        Option<Box<QuadTreeNode>>,
        Option<Box<QuadTreeNode>>,
        Option<Box<QuadTreeNode>>,
    ))
        requires
            i < 4,
            j < 4,
            i != j,
        ensures
            r == two_slots(i as int, ci, j as int, cj),
    {
        let mut slots: (
            Option<Box<QuadTreeNode>>,
            Option<Box<QuadTreeNode>>,
            Option<Box<QuadTreeNode>>,
            Option<Box<QuadTreeNode>>,
        ) = (Option::None, Option::None, Option::None, Option::None);
        if i == 0 {
            slots.0 = ci;
        } else if i == 1 {
            slots.1 = ci;
        } else if i == 2 {
            slots.2 = ci;
        } else {
            slots.3 = ci;
        }
        if j == 0 {
            slots.0 = cj;
        } else if j == 1 {
            slots.1 = cj;
        } else if j == 2 {
            slots.2 = cj;
        } else {
            slots.3 = cj;
        }
        slots
    }
}

// ---------------------------------------------------------------------
// Force evaluation.
// ---------------------------------------------------------------------

/// The opening-angle threshold as an exact rational `num / den`.
#[derive(Clone, Copy)]
pub struct Theta {
    pub num: u64,
    pub den: u64,
}

/// Threshold components within the fixed-point range, denominator
/// positive.
pub open spec fn wf_theta(t: Theta) -> bool {
    t.num <= THETA_LIMIT && 1 <= t.den <= THETA_LIMIT
}

/// Center of mass of cached aggregates, each axis truncated toward zero.
pub open spec fn spec_com(mx: int, my: int, tm: int) -> (i64, i64) {
    (spec_div_trunc(mx, tm) as i64, spec_div_trunc(my, tm) as i64)
}

/// Barnes-Hut force of the subtree `n` over region `b` on `body`.
/// An internal node far enough away — region width `s` and distance `d`
/// to its center of mass satisfying `s / d < theta`, compared exactly as
/// `s * theta.den < theta.num * d` — acts as a single point mass;
/// otherwise the children are summed.  A node whose center of mass
/// coincides with the query point (`d == 0`) also acts as a point mass,
/// which yields zero force.
pub open spec fn spec_force(n: QuadTreeNode, body: Body, theta: Theta, b: Boundary) -> (int, int)
    decreases n,
{
    match n {
        QuadTreeNode::Empty => (0int, 0int),
        QuadTreeNode::Leaf { body: other } => spec_gravity(body, other.position, other.mass),
        QuadTreeNode::Internal { total_mass, moment_x: mx, moment_y: my, bl, br, tl, tr } => {
            let com = spec_com(mx as int, my as int, total_mass as int);
            let d2 = spec_dist2(com, body.position);
            let d = sqrt_floor(d2 as nat) as int;
            let s = b.x_max - b.x_min;
            if d == 0 || s * (theta.den as int) < (theta.num as int) * d {
                spec_gravity(body, com, total_mass)
            } else {
                let f0 = spec_force_opt(bl, body, theta, spec_quadrant(b, 0));
                let f1 = spec_force_opt(br, body, theta, spec_quadrant(b, 1));
                let f2 = spec_force_opt(tl, body, theta, spec_quadrant(b, 2));
                let f3 = spec_force_opt(tr, body, theta, spec_quadrant(b, 3));
                (f0.0 + f1.0 + f2.0 + f3.0, f0.1 + f1.1 + f2.1 + f3.1)
            }
        },
    }
}

/// `spec_force` of an optional child; an absent child contributes zero.
pub open spec fn spec_force_opt(
    c: Option<Box<QuadTreeNode>>,
    body: Body,
    theta: Theta,
    b: Boundary,
) -> (int, int)
    decreases c,
{
    match c {
        Option::None => (0int, 0int),
        Option::Some(n) => spec_force(*n, body, theta, b),
    }
}

/// The truncated center-of-mass coordinate of a subtree stays within the
/// coordinate range.
pub proof fn lemma_com_range(mx: int, tm: int)
    requires
        1 <= tm,
        -(tm * (COORD_LIMIT as int)) <= mx <= tm * (COORD_LIMIT as int),
    ensures
        -COORD_LIMIT <= spec_div_trunc(mx, tm) <= COORD_LIMIT,
{
    assert(-1_073_741_824 <= spec_div_trunc(mx, tm) <= 1_073_741_824) by (nonlinear_arith)
        requires
            1 <= tm,
            -(tm * 1_073_741_824) <= mx <= tm * 1_073_741_824,
            spec_div_trunc(mx, tm) == if mx >= 0 { mx / tm } else { -((-mx) / tm) },
    ;
}

/// Each component of the Barnes-Hut force is bounded by the subtree's
/// mass times `grav_unit`.
pub proof fn lemma_force_bound(n: QuadTreeNode, body: Body, theta: Theta, b: Boundary)
    requires
        wf_node(n, b),
        -COORD_LIMIT <= body.position.0 <= COORD_LIMIT,
        -COORD_LIMIT <= body.position.1 <= COORD_LIMIT,
        body.mass <= MASS_LIMIT,
    ensures
        -(mass_sum(n) * grav_unit()) <= spec_force(n, body, theta, b).0 <= mass_sum(n)
            * grav_unit(),
        -(mass_sum(n) * grav_unit()) <= spec_force(n, body, theta, b).1 <= mass_sum(n)
            * grav_unit(),
    decreases n,
{
    lemma_wf_sums(n, b);
    match n {
        QuadTreeNode::Empty => {
            assert(mass_sum(n) * grav_unit() == 0) by (nonlinear_arith)
                requires
                    mass_sum(n) == 0,
            ;
        },
        QuadTreeNode::Leaf { body: other } => {
            lemma_gravity_bound(body, other.position, other.mass);
        },
        QuadTreeNode::Internal { total_mass, moment_x: mx, moment_y: my, bl, br, tl, tr } => {
            lemma_com_range(mx as int, total_mass as int);
            lemma_com_range(my as int, total_mass as int);
            let com = spec_com(mx as int, my as int, total_mass as int);
            lemma_gravity_bound(body, com, total_mass);
            lemma_force_bound_opt(bl, body, theta, spec_quadrant(b, 0));
            lemma_force_bound_opt(br, body, theta, spec_quadrant(b, 1));
            lemma_force_bound_opt(tl, body, theta, spec_quadrant(b, 2));
            lemma_force_bound_opt(tr, body, theta, spec_quadrant(b, 3));
            lemma_wf_sums_opt(bl, spec_quadrant(b, 0));
            lemma_wf_sums_opt(br, spec_quadrant(b, 1));
            lemma_wf_sums_opt(tl, spec_quadrant(b, 2));
            lemma_wf_sums_opt(tr, spec_quadrant(b, 3));
            assert(mass_sum_opt(bl) * grav_unit() + mass_sum_opt(br) * grav_unit() + mass_sum_opt(
                tl,
            ) * grav_unit() + mass_sum_opt(tr) * grav_unit() == mass_sum(n) * grav_unit())
                by (nonlinear_arith)
                requires
                    mass_sum(n) == mass_sum_opt(bl) + mass_sum_opt(br) + mass_sum_opt(tl)
                        + mass_sum_opt(tr),
            ;
        },
    }
}

/// `lemma_force_bound` lifted to an optional child.
pub proof fn lemma_force_bound_opt(
    c: Option<Box<QuadTreeNode>>,
    body: Body,
    theta: Theta,
    b: Boundary,
)
    requires
        wf_opt(c, b),
        -COORD_LIMIT <= body.position.0 <= COORD_LIMIT,
        -COORD_LIMIT <= body.position.1 <= COORD_LIMIT,
        body.mass <= MASS_LIMIT,
    ensures
        -(mass_sum_opt(c) * grav_unit()) <= spec_force_opt(c, body, theta, b).0 <= mass_sum_opt(c)
            * grav_unit(),
        -(mass_sum_opt(c) * grav_unit()) <= spec_force_opt(c, body, theta, b).1 <= mass_sum_opt(c)
            * grav_unit(),
    decreases c,
{
    match c {
        Option::None => {
            assert(mass_sum_opt(c) * grav_unit() == 0) by (nonlinear_arith)
                requires
                    mass_sum_opt(c) == 0,
            ;
        },
        Option::Some(n) => {
            lemma_force_bound(*n, body, theta, b);
        },
    }
}

/// Numeric cap on sums of up to four per-child force components.
proof fn lemma_sum4_cap(
    a0: int,
    a1: int,
    a2: int,
    a3: int,
    m0: int,
    m1: int,
    m2: int,
    m3: int,
)
    requires
        m0 >= 0 && m1 >= 0 && m2 >= 0 && m3 >= 0,
        m0 + m1 + m2 + m3 <= MASS_LIMIT,
        -(m0 * grav_unit()) <= a0 <= m0 * grav_unit(),
        -(m1 * grav_unit()) <= a1 <= m1 * grav_unit(),
        -(m2 * grav_unit()) <= a2 <= m2 * grav_unit(),
        -(m3 * grav_unit()) <= a3 <= m3 * grav_unit(),
    ensures
        -43_318_683_653_648_750_051_376_364_562_642_108_416int <= a0 + a1
            <= 43_318_683_653_648_750_051_376_364_562_642_108_416int,
        -43_318_683_653_648_750_051_376_364_562_642_108_416int <= a0 + a1 + a2
            <= 43_318_683_653_648_750_051_376_364_562_642_108_416int,
        -43_318_683_653_648_750_051_376_364_562_642_108_416int <= a0 + a1 + a2 + a3
            <= 43_318_683_653_648_750_051_376_364_562_642_108_416int,
{
    assert(-43_318_683_653_648_750_051_376_364_562_642_108_416int <= a0 + a1
        <= 43_318_683_653_648_750_051_376_364_562_642_108_416int
        && -43_318_683_653_648_750_051_376_364_562_642_108_416int <= a0 + a1 + a2
        <= 43_318_683_653_648_750_051_376_364_562_642_108_416int
        && -43_318_683_653_648_750_051_376_364_562_642_108_416int <= a0 + a1 + a2 + a3
        <= 43_318_683_653_648_750_051_376_364_562_642_108_416int) by (nonlinear_arith)
        requires
            m0 >= 0 && m1 >= 0 && m2 >= 0 && m3 >= 0,
            m0 + m1 + m2 + m3 <= 549_755_813_888int,
            grav_unit() == 66_743 * 549_755_813_888 * (2 * 1_073_741_824),
            -(m0 * grav_unit()) <= a0 <= m0 * grav_unit(),
            -(m1 * grav_unit()) <= a1 <= m1 * grav_unit(),
            -(m2 * grav_unit()) <= a2 <= m2 * grav_unit(),
            -(m3 * grav_unit()) <= a3 <= m3 * grav_unit(),
    ;
}

impl QuadTreeNode {
    /// Barnes-Hut force on `body` from this subtree over `boundary`,
    /// exactly `spec_force`.
    pub fn calculate_force(&self, body: &Body, theta: Theta, boundary: Boundary) -> (f: (
        i128,
        i128,
    ))
        requires
            wf_boundary(boundary),
            wf_node(*self, boundary),
            wf_body(*body),
            wf_theta(theta),
        ensures
            f.0 == spec_force(*self, *body, theta, boundary).0,
            f.1 == spec_force(*self, *body, theta, boundary).1,
        decreases *self,
    {
        proof {
            lemma_force_bound(*self, *body, theta, boundary);
        }
        match self {
            QuadTreeNode::Empty => (0, 0),
            QuadTreeNode::Leaf { body: other } => calculate_gravity(
                body,
                other.position,
                other.mass,
            ),
            QuadTreeNode::Internal { total_mass, moment_x: mx, moment_y: my, bl, br, tl, tr } => {
                proof {
                    lemma_wf_sums(*self, boundary);
                    lemma_com_range(*mx as int, *total_mass as int);
                    lemma_com_range(*my as int, *total_mass as int);
                    lemma_moment_cap_opt(*bl, spec_quadrant(boundary, 0));
                    lemma_moment_cap_opt(*br, spec_quadrant(boundary, 1));
                    lemma_moment_cap_opt(*tl, spec_quadrant(boundary, 2));
                    lemma_moment_cap_opt(*tr, spec_quadrant(boundary, 3));
                }
                let cx = div_trunc(*mx, *total_mass as i128) as i64;
                let cy = div_trunc(*my, *total_mass as i128) as i64;
                let ddx: i64 = cx - body.position.0;
                let ddy: i64 = cy - body.position.1;
                let adx: u64 = if ddx >= 0 { ddx as u64 } else { (-ddx) as u64 };
                let ady: u64 = if ddy >= 0 { ddy as u64 } else { (-ddy) as u64 };
                proof {
                    assert((adx as u128) * (adx as u128) <= 4_611_686_018_427_387_904u128
                        && (ady as u128) * (ady as u128) <= 4_611_686_018_427_387_904u128
                        && (adx as u128) * (adx as u128) == (ddx as int) * (ddx as int)
                        && (ady as u128) * (ady as u128) == (ddy as int) * (ddy as int))
                        by (nonlinear_arith)
                        requires
                            adx as int == if ddx as int >= 0 { ddx as int } else { -(ddx as int) },
                            ady as int == if ddy as int >= 0 { ddy as int } else { -(ddy as int) },
                            adx <= 2_147_483_648u64,
                            ady <= 2_147_483_648u64,
                    ;
                }
                let d2w: u128 = (adx as u128) * (adx as u128) + (ady as u128) * (ady as u128);
                let d2: u64 = d2w as u64;
                if d2 == 0 {
                    return calculate_gravity(body, (cx, cy), *total_mass);
                }
                let d: u64 = isqrt64(d2);
                proof {
                    lemma_sqrt_floor_pos(d2 as nat);
                    assert((s_width(boundary) as u64 as u128) * (theta.den as u128)
                        < 170_141_183_460_469_231_731_687_303_715_884_105_727u128
                        && (theta.num as u128) * (d as u128)
                        < 170_141_183_460_469_231_731_687_303_715_884_105_727u128)
                        by (nonlinear_arith)
                        requires
                            s_width(boundary) as u64 <= 2_147_483_648u64,
                            theta.den <= 1_048_576u64,
                            theta.num <= 1_048_576u64,
                            d <= 4_294_967_296u64,
                    ;
                }
                let s: u64 = (boundary.x_max - boundary.x_min) as u64;
                if (s as u128) * (theta.den as u128) < (theta.num as u128) * (d as u128) {
                    calculate_gravity(body, (cx, cy), *total_mass)
                } else {
                    let quads = boundary.subdivide();
                    let f0 = Self::force_opt(bl, body, theta, quads.0);
                    let f1 = Self::force_opt(br, body, theta, quads.1);
                    let f2 = Self::force_opt(tl, body, theta, quads.2);
                    let f3 = Self::force_opt(tr, body, theta, quads.3);
                    proof {
                        lemma_force_bound_opt(*bl, *body, theta, spec_quadrant(boundary, 0));
                        lemma_force_bound_opt(*br, *body, theta, spec_quadrant(boundary, 1));
                        lemma_force_bound_opt(*tl, *body, theta, spec_quadrant(boundary, 2));
                        lemma_force_bound_opt(*tr, *body, theta, spec_quadrant(boundary, 3));
                        lemma_sum4_cap(
                            spec_force_opt(*bl, *body, theta, spec_quadrant(boundary, 0)).0,
                            spec_force_opt(*br, *body, theta, spec_quadrant(boundary, 1)).0,
                            spec_force_opt(*tl, *body, theta, spec_quadrant(boundary, 2)).0,
                            spec_force_opt(*tr, *body, theta, spec_quadrant(boundary, 3)).0,
                            mass_sum_opt(*bl),
                            mass_sum_opt(*br),
                            mass_sum_opt(*tl),
                            mass_sum_opt(*tr),
                        );
                        lemma_sum4_cap(
                            spec_force_opt(*bl, *body, theta, spec_quadrant(boundary, 0)).1,
                            spec_force_opt(*br, *body, theta, spec_quadrant(boundary, 1)).1,
                            spec_force_opt(*tl, *body, theta, spec_quadrant(boundary, 2)).1,
                            spec_force_opt(*tr, *body, theta, spec_quadrant(boundary, 3)).1,
                            mass_sum_opt(*bl),
                            mass_sum_opt(*br),
                            mass_sum_opt(*tl),
                            mass_sum_opt(*tr),
                        );
                    }
                    (f0.0 + f1.0 + f2.0 + f3.0, f0.1 + f1.1 + f2.1 + f3.1)
                }
            },
        }
    }

    /// Force contribution of an optional child.
    fn force_opt(c: &Option<Box<QuadTreeNode>>, body: &Body, theta: Theta, b: Boundary) -> (f: (
        i128,
        i128,
    ))
        requires
            wf_boundary(b),
            wf_opt(*c, b),
            wf_body(*body),
            wf_theta(theta),
        ensures
            f.0 == spec_force_opt(*c, *body, theta, b).0,
            f.1 == spec_force_opt(*c, *body, theta, b).1,
        decreases *c,
    {
        match c {
            Option::None => (0, 0),
            Option::Some(n) => (**n).calculate_force(body, theta, b),
        }
    }
}

/// Width of a region, the size the opening-angle test compares.
pub open spec fn s_width(b: Boundary) -> int {
    b.x_max - b.x_min
}

// ---------------------------------------------------------------------
// The tree facade.
// ---------------------------------------------------------------------

/// A root node bound to a fixed boundary.  The boundary never changes
/// after construction; a fresh tree is built each simulation step.
pub struct QuadTree {
    pub root: QuadTreeNode,
    pub boundary: Boundary,
}

/// Tree invariant: a well-formed boundary and a root well-formed over it.
pub open spec fn wf_tree(t: QuadTree) -> bool {
    wf_boundary(t.boundary) && wf_node(t.root, t.boundary)
}

impl QuadTree {
    /// An empty tree over the given region.
    pub fn new(boundary: Boundary) -> (r: Self)
        requires
            wf_boundary(boundary),
        ensures
            r.root == QuadTreeNode::Empty,
            r.boundary == boundary,
            wf_tree(r),
    {
        Self { root: QuadTreeNode::Empty, boundary }
    }

    /// Insert a body lying within the tree's boundary.  Callers must
    /// keep every inserted body inside the root region; out-of-range
    /// bodies are rejected by this precondition rather than silently
    /// misplaced.
    pub fn insert(&mut self, body: Body)
        requires
            wf_tree(*old(self)),
            wf_body(body),
            spec_contains(old(self).boundary, body.position.0 as int, body.position.1 as int),
            mass_sum(old(self).root) + body.mass <= MASS_LIMIT,
        ensures
            final(self).boundary == old(self).boundary,
            final(self).root == spec_insert(old(self).root, body, old(self).boundary),
            wf_tree(*final(self)),
    {
        let mut tmp = QuadTreeNode::Empty;
        core::mem::swap(&mut self.root, &mut tmp);
        self.root = tmp.insert(body, self.boundary);
    }

    /// Barnes-Hut force of the whole tree on `body`.
    pub fn calculate_force(&self, body: &Body, theta: Theta) -> (f: (i128, i128))
        requires
            wf_tree(*self),
            wf_body(*body),
            wf_theta(theta),
        ensures
            f.0 == spec_force(self.root, *body, theta, self.boundary).0,
            f.1 == spec_force(self.root, *body, theta, self.boundary).1,
            -(mass_sum(self.root) * grav_unit()) <= f.0 <= mass_sum(self.root) * grav_unit(),
            -(mass_sum(self.root) * grav_unit()) <= f.1 <= mass_sum(self.root) * grav_unit(),
    {
        proof {
            lemma_force_bound(self.root, *body, theta, self.boundary);
        }
        self.root.calculate_force(body, theta, self.boundary)
    }

    /// The fixed boundary, for rebuilding a fresh tree next step.
    pub fn get_boundary(&self) -> (r: &Boundary)
        ensures
            *r == self.boundary,
    {
        &self.boundary
    }

    /// Cached total mass at the root: zero for an empty tree, the single
    /// body's mass for a leaf, the exact aggregate for an internal root.
    pub fn total_mass(&self) -> (r: u64)
        requires
            wf_tree(*self),
        ensures
            r as int == mass_sum(self.root),
    {
        QuadTreeNode::cached_root_mass(&self.root, Ghost(self.boundary))
    }
}

impl QuadTreeNode {
    /// Cached mass of a root node.
    fn cached_root_mass(n: &QuadTreeNode, Ghost(gb): Ghost<Boundary>) -> (r: u64)
        requires
            wf_node(*n, gb),
        ensures
            r as int == mass_sum(*n),
    {
        match n {
            QuadTreeNode::Empty => 0,
            QuadTreeNode::Leaf { body } => body.mass,
            QuadTreeNode::Internal { total_mass, .. } => *total_mass,
        }
    }
}

// ---------------------------------------------------------------------
// Laws of the structure.
// ---------------------------------------------------------------------

/// Sum of the masses of a sequence of bodies.
pub open spec fn mass_total(bodies: Seq<Body>) -> int
    decreases bodies.len(),
{
    if bodies.len() == 0 {
        0
    } else {
        mass_total(bodies.drop_last()) + bodies.last().mass
    }
}

/// The tree produced by inserting the bodies in order into an empty root.
pub open spec fn build_tree(bodies: Seq<Body>, b: Boundary) -> QuadTreeNode
    decreases bodies.len(),
{
    if bodies.len() == 0 {
        QuadTreeNode::Empty
    } else {
        spec_insert(build_tree(bodies.drop_last(), b), bodies.last(), b)
    }
}

/// Every body well-formed and inside the region.
pub open spec fn all_insertable(bodies: Seq<Body>, b: Boundary) -> bool {
    forall|i: int|
        0 <= i < bodies.len() ==> wf_body(#[trigger] bodies[i]) && spec_contains(
            b,
            bodies[i].position.0 as int,
            bodies[i].position.1 as int,
        )
}

/// No two bodies share an exact position.
pub open spec fn distinct_positions(bodies: Seq<Body>) -> bool {
    forall|i: int, j: int|
        0 <= i < j < bodies.len() ==> (#[trigger] bodies[i]).position != (
        #[trigger] bodies[j]).position
}

/// Mass conservation: a tree built from `n` bodies at distinct positions
/// carries exactly the sum of their masses at its root, and holds
/// exactly their positions.
pub proof fn lemma_mass_conservation(bodies: Seq<Body>, b: Boundary)
    requires
        wf_boundary(b),
        all_insertable(bodies, b),
        distinct_positions(bodies),
        mass_total(bodies) <= MASS_LIMIT,
    ensures
        wf_node(build_tree(bodies, b), b),
        mass_sum(build_tree(bodies, b)) == mass_total(bodies),
        forall|p: (i64, i64)|
            has_pos(build_tree(bodies, b), p) <==> exists|i: int|
                0 <= i < bodies.len() && (#[trigger] bodies[i]).position == p,
    decreases bodies.len(),
{
    if bodies.len() > 0 {
        let prefix = bodies.drop_last();
        let last = bodies.last();
        assert(forall|i: int| 0 <= i < prefix.len() ==> prefix[i] == bodies[i]);
        assert(last.mass >= 1 && mass_total(prefix) + last.mass == mass_total(bodies));
        lemma_mass_total_nonneg(prefix);
        lemma_mass_conservation(prefix, b);
        let t = build_tree(prefix, b);
        if has_pos(t, last.position) {
            let i = choose|i: int| 0 <= i < prefix.len() && prefix[i].position == last.position;
            assert(bodies[i].position == bodies[bodies.len() - 1].position);
            assert(false);
        }
        lemma_insert_props(t, last, b);
        assert forall|p: (i64, i64)| has_pos(build_tree(bodies, b), p) implies exists|i: int|
            0 <= i < bodies.len() && (#[trigger] bodies[i]).position == p by {
            if has_pos(t, p) {
                let i = choose|i: int| 0 <= i < prefix.len() && prefix[i].position == p;
                assert(bodies[i].position == p);
            } else {
                assert(bodies[bodies.len() - 1].position == p);
            }
        }
        assert forall|p: (i64, i64)|
            (exists|i: int| 0 <= i < bodies.len() && (#[trigger] bodies[i]).position == p) implies
            has_pos(build_tree(bodies, b), p) by {
            let i = choose|i: int| 0 <= i < bodies.len() && bodies[i].position == p;
            if i < bodies.len() - 1 {
                assert(prefix[i] == bodies[i]);
                assert(exists|k: int|
                    0 <= k < prefix.len() && (#[trigger] prefix[k]).position == p);
                assert(has_pos(t, p));
            }
            assert(has_pos(spec_insert(t, last, b), p));
        }
    }
}

/// Masses are positive, so the total is monotone under prefixes.
pub proof fn lemma_mass_total_nonneg(bodies: Seq<Body>)
    ensures
        0 <= mass_total(bodies),
    decreases bodies.len(),
{
    if bodies.len() > 0 {
        lemma_mass_total_nonneg(bodies.drop_last());
    }
}

/// Center-of-mass correctness: the cached aggregates of a well-formed
/// internal node are exactly the total mass and the mass-weighted
/// coordinate sums of all bodies beneath it, so the node's center of
/// mass `(moment_x / total_mass, moment_y / total_mass)` is the exact
/// mass-weighted average position in truncated integer arithmetic.
pub proof fn lemma_center_of_mass(n: QuadTreeNode, b: Boundary)
    requires
        wf_node(n, b),
        n is Internal,
    ensures
        (n matches QuadTreeNode::Internal { total_mass, moment_x: mx, moment_y: my, .. }
            ==> total_mass as int == mass_sum(n) && mx as int == moment_x(n) && my as int
            == moment_y(n)),
{
}

/// Self-force is zero: the force on the sole occupant of a leaf is
/// exactly `(0, 0)`.
pub proof fn lemma_self_force_zero(body: Body, theta: Theta, b: Boundary)
    ensures
        spec_force(QuadTreeNode::Leaf { body }, body, theta, b).0 == 0,
        spec_force(QuadTreeNode::Leaf { body }, body, theta, b).1 == 0,
{
    crate::gravity::lemma_gravity_self(body, body.mass);
}

/// Degenerate input: inserting a body at an exact position already in
/// the tree leaves the tree unchanged (and, the subdivision being a
/// total function, always terminates).
pub proof fn lemma_insert_coincident_noop(n: QuadTreeNode, body: Body, b: Boundary)
    requires
        wf_boundary(b),
        wf_node(n, b),
        wf_body(body),
        spec_contains(b, body.position.0 as int, body.position.1 as int),
        mass_sum(n) + body.mass <= MASS_LIMIT,
        has_pos(n, body.position),
    ensures
        spec_insert(n, body, b) == n,
{
    lemma_insert_props(n, body, b);
}

/// The exact pairwise force sum over every body in the subtree, with no
/// opening-angle approximation.
pub open spec fn exact_force(n: QuadTreeNode, body: Body) -> (int, int)
    decreases n,
{
    match n {
        QuadTreeNode::Empty => (0int, 0int),
        QuadTreeNode::Leaf { body: other } => spec_gravity(body, other.position, other.mass),
        QuadTreeNode::Internal { bl, br, tl, tr, .. } => {
            let f0 = exact_force_opt(bl, body);
            let f1 = exact_force_opt(br, body);
            let f2 = exact_force_opt(tl, body);
            let f3 = exact_force_opt(tr, body);
            (f0.0 + f1.0 + f2.0 + f3.0, f0.1 + f1.1 + f2.1 + f3.1)
        },
    }
}

/// `exact_force` of an optional child.
pub open spec fn exact_force_opt(c: Option<Box<QuadTreeNode>>, body: Body) -> (int, int)
    decreases c,
{
    match c {
        Option::None => (0int, 0int),
        Option::Some(n) => exact_force(*n, body),
    }
}

/// No internal node's truncated center of mass coincides with the query
/// position.
pub open spec fn avoids_com(n: QuadTreeNode, body: Body) -> bool
    decreases n,
{
    match n {
        QuadTreeNode::Empty => true,
        QuadTreeNode::Leaf { .. } => true,
        QuadTreeNode::Internal { total_mass, moment_x: mx, moment_y: my, bl, br, tl, tr } => {
            &&& spec_dist2(spec_com(mx as int, my as int, total_mass as int), body.position) != 0
            &&& avoids_com_opt(bl, body)
            &&& avoids_com_opt(br, body)
            &&& avoids_com_opt(tl, body)
            &&& avoids_com_opt(tr, body)
        },
    }
}

/// `avoids_com` of an optional child.
pub open spec fn avoids_com_opt(c: Option<Box<QuadTreeNode>>, body: Body) -> bool
    decreases c,
{
    match c {
        Option::None => true,
        Option::Some(n) => avoids_com(*n, body),
    }
}

/// Exactness at `theta == 0`: with a zero opening-angle threshold the
/// Barnes-Hut force equals the exact pairwise sum, provided no internal
/// node's center of mass sits exactly on the query point (at such a node
/// the evaluation treats the subtree as a coincident point mass and
/// contributes zero instead).
pub proof fn lemma_theta_zero_exact(n: QuadTreeNode, body: Body, theta: Theta, b: Boundary)
    requires
        wf_boundary(b),
        wf_node(n, b),
        theta.num == 0,
        1 <= theta.den,
        avoids_com(n, body),
    ensures
        spec_force(n, body, theta, b) == exact_force(n, body),
    decreases n,
{
    match n {
        QuadTreeNode::Empty => {},
        QuadTreeNode::Leaf { .. } => {},
        QuadTreeNode::Internal { total_mass, moment_x: mx, moment_y: my, bl, br, tl, tr } => {
            let com = spec_com(mx as int, my as int, total_mass as int);
            let d2 = spec_dist2(com, body.position);
            assert(0 <= d2) by (nonlinear_arith)
                requires
                    d2 == (com.0 - body.position.0) * (com.0 - body.position.0) + (com.1
                        - body.position.1) * (com.1 - body.position.1),
            ;
            lemma_sqrt_floor_pos(d2 as nat);
            let d = sqrt_floor(d2 as nat) as int;
            let s = s_width(b);
            assert(!(s * (theta.den as int) < (theta.num as int) * d)) by (nonlinear_arith)
                requires
                    s >= 0,
                    theta.den >= 0,
                    theta.num == 0,
            ;
            lemma_quadrant_wf(b, 0);
            lemma_quadrant_wf(b, 1);
            lemma_quadrant_wf(b, 2);
            lemma_quadrant_wf(b, 3);
            lemma_theta_zero_exact_opt(bl, body, theta, spec_quadrant(b, 0));
            lemma_theta_zero_exact_opt(br, body, theta, spec_quadrant(b, 1));
            lemma_theta_zero_exact_opt(tl, body, theta, spec_quadrant(b, 2));
            lemma_theta_zero_exact_opt(tr, body, theta, spec_quadrant(b, 3));
        },
    }
}

/// `lemma_theta_zero_exact` lifted to an optional child.
pub proof fn lemma_theta_zero_exact_opt(
    c: Option<Box<QuadTreeNode>>,
    body: Body,
    theta: Theta,
    b: Boundary,
)
    requires
        wf_boundary(b),
        wf_opt(c, b),
        theta.num == 0,
        1 <= theta.den,
        avoids_com_opt(c, body),
    ensures
        spec_force_opt(c, body, theta, b) == exact_force_opt(c, body),
    decreases c,
{
    match c {
        Option::None => {},
        Option::Some(n) => {
            lemma_theta_zero_exact(*n, body, theta, b);
        },
    }
}

} // verus!
