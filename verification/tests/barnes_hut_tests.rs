use barnes_hut::body::Body;
use barnes_hut::gravity::calculate_gravity;
use barnes_hut::quad_tree::{Boundary, QuadTree, QuadTreeNode, Theta};
use barnes_hut::simulation::{generate_random_bodies, Simulation};

fn bounds(r: i64) -> Boundary {
    Boundary { x_min: -r, x_max: r, y_min: -r, y_max: r }
}

fn body_at(x: i64, y: i64, mass: u64) -> Body {
    Body::new((x, y), (0, 0), mass, 1)
}

#[test]
fn boundary_contains_is_inclusive() {
    let b = bounds(100);
    assert!(b.contains(-100, 100));
    assert!(b.contains(0, 0));
    assert!(!b.contains(101, 0));
    assert!(!b.contains(0, -101));
}

#[test]
fn boundary_center_and_subdivide() {
    let b = Boundary { x_min: 0, x_max: 10, y_min: 0, y_max: 6 };
    assert_eq!(b.center(), (5, 3));
    let q = b.subdivide();
    assert_eq!((q.0.x_min, q.0.x_max, q.0.y_min, q.0.y_max), (0, 5, 0, 3));
    assert_eq!((q.1.x_min, q.1.x_max, q.1.y_min, q.1.y_max), (5, 10, 0, 3));
    assert_eq!((q.2.x_min, q.2.x_max, q.2.y_min, q.2.y_max), (0, 5, 3, 6));
    assert_eq!((q.3.x_min, q.3.x_max, q.3.y_min, q.3.y_max), (5, 10, 3, 6));
}

#[test]
fn mass_conservation_root_aggregate() {
    let mut tree = QuadTree::new(bounds(1000));
    tree.insert(body_at(10, 20, 10));
    tree.insert(body_at(-300, 500, 20));
    tree.insert(body_at(700, -100, 30));
    tree.insert(body_at(-1, -1, 40));
    assert_eq!(tree.total_mass(), 100);
}

#[test]
fn center_of_mass_is_exact_weighted_average() {
    let mut tree = QuadTree::new(bounds(1000));
    tree.insert(body_at(100, 0, 2));
    tree.insert(body_at(-50, 40, 6));
    match &tree.root {
        QuadTreeNode::Internal { total_mass, moment_x, moment_y, .. } => {
            assert_eq!(*total_mass, 8);
            assert_eq!(*moment_x, 2 * 100 + 6 * (-50));
            assert_eq!(*moment_y, 2 * 0 + 6 * 40);
            // center of mass, truncated toward zero: (-100/8, 240/8)
            assert_eq!(moment_x / (*total_mass as i128), -12);
            assert_eq!(moment_y / (*total_mass as i128), 30);
        }
        _ => panic!("two separated bodies must make the root internal"),
    }
}

#[test]
fn theta_zero_matches_exact_pairwise_sum() {
    let m: u64 = 1_000_000_000;
    let q = body_at(0, 0, m);
    let others = [(100i64, 0i64), (0, 200), (-300, -300)];
    let mut tree = QuadTree::new(bounds(1000));
    tree.insert(q);
    for &(x, y) in others.iter() {
        tree.insert(body_at(x, y, m));
    }
    let f = tree.calculate_force(&q, Theta { num: 0, den: 1 });
    let mut expected = (0i128, 0i128);
    for &(x, y) in others.iter() {
        let g = calculate_gravity(&q, (x, y), m);
        expected.0 += g.0;
        expected.1 += g.1;
    }
    assert_eq!(f, expected);
    assert_eq!(f, (6412, 1406));
}

#[test]
fn force_symmetry_equal_and_opposite() {
    let a = body_at(0, 0, 10_000_000_000);
    let b = body_at(1000, 500, 20_000_000_000);
    let f_ab = calculate_gravity(&a, b.position, b.mass);
    let f_ba = calculate_gravity(&b, a.position, a.mass);
    assert_eq!(f_ab, (9551, 4775));
    assert_eq!(f_ba, (-f_ab.0, -f_ab.1));
}

#[test]
fn two_body_tree_force_is_symmetric() {
    let a = body_at(-200, 300, 40_000_000_000);
    let b = body_at(500, -100, 70_000_000_000);
    let mut tree = QuadTree::new(bounds(100_000));
    tree.insert(a);
    tree.insert(b);
    let theta = Theta { num: 1, den: 2 };
    let f_a = tree.calculate_force(&a, theta);
    let f_b = tree.calculate_force(&b, theta);
    assert_eq!(f_a, (-f_b.0, -f_b.1));
    assert_ne!(f_a, (0, 0));
}

#[test]
fn self_force_is_zero() {
    let a = body_at(42, -17, 1_000_000_000);
    let mut tree = QuadTree::new(bounds(1000));
    tree.insert(a);
    assert_eq!(tree.calculate_force(&a, Theta { num: 1, den: 2 }), (0, 0));
}

#[test]
fn empty_tree_force_is_zero() {
    let tree = QuadTree::new(bounds(1000));
    let a = body_at(1, 2, 5);
    assert_eq!(tree.calculate_force(&a, Theta { num: 1, den: 2 }), (0, 0));
}

#[test]
fn coincident_insert_is_a_noop() {
    let mut tree = QuadTree::new(bounds(1000));
    tree.insert(body_at(5, 5, 10));
    tree.insert(body_at(5, 5, 99));
    assert_eq!(tree.total_mass(), 10);
    // also deep in a populated tree
    tree.insert(body_at(-600, 700, 7));
    tree.insert(body_at(-600, 700, 1000));
    assert_eq!(tree.total_mass(), 17);
}

#[test]
fn adjacent_positions_terminate() {
    // bodies one unit apart force the deepest possible subdivision
    let mut tree = QuadTree::new(bounds(1_073_741_824));
    tree.insert(body_at(0, 0, 5));
    tree.insert(body_at(1, 0, 5));
    tree.insert(body_at(0, 1, 5));
    tree.insert(body_at(1, 1, 5));
    assert_eq!(tree.total_mass(), 20);
}

#[test]
fn two_body_scenario_matches_direct_newton() {
    // an Earth-Moon-like pair in scaled units: masses divided by 2e13,
    // separation divided by 1e4
    let m_a: u64 = 298_500_000_000;
    let m_b: u64 = 3_675_000_000;
    let a = body_at(0, 0, m_a);
    let b = body_at(38_440, 0, m_b);
    let mut tree = QuadTree::new(bounds(1_073_741_824));
    tree.insert(a);
    tree.insert(b);
    let direct = calculate_gravity(&a, b.position, b.mass);
    assert_eq!(direct, (49, 0));
    // the tree reproduces the direct Newtonian value, independent of theta
    for theta in [Theta { num: 1, den: 2 }, Theta { num: 1, den: 1000 }, Theta { num: 0, den: 1 }] {
        assert_eq!(tree.calculate_force(&a, theta), direct);
        let f_b = tree.calculate_force(&b, theta);
        assert_eq!(f_b, (-direct.0, -direct.1));
    }
}

#[test]
fn body_kinematics_are_exact() {
    let mut b = body_at(100, -100, 10);
    b.apply_force((250, -130));
    assert_eq!(b.acceleration, (25, -13));
    b.update_velocity(4);
    assert_eq!(b.velocity, (100, -52));
    b.update_position(4);
    // p + v*dt + a*dt*dt/2 = 100 + 400 + 200 / -100 - 208 - 104
    assert_eq!(b.position, (700, -412));
}

#[test]
fn body_new_stores_unit_radius_and_rest_acceleration() {
    let b = Body::new((3, 4), (5, 6), 77, 1234);
    assert_eq!(b.position, (3, 4));
    assert_eq!(b.velocity, (5, 6));
    assert_eq!(b.acceleration, (0, 0));
    assert_eq!(b.mass, 77);
    assert_eq!(b._radius, 1);
}

#[test]
fn random_bodies_respect_boundary_and_mass_range() {
    let b = bounds(1_000_000);
    let bodies = generate_random_bodies(50, &b);
    assert_eq!(bodies.len(), 50);
    for body in bodies.iter() {
        assert!(body.position.0 >= b.x_min && body.position.0 <= b.x_max);
        assert!(body.position.1 >= b.y_min && body.position.1 <= b.y_max);
        assert!(body.mass >= 1_000 && body.mass <= 100_000);
        assert_eq!(body.velocity, (0, 0));
    }
}

fn cluster_bodies() -> Vec<Body> {
    // one heavy central body and 99 light satellites within a few units,
    // the scale at which integer gravity produces visible accelerations
    let mut bodies = vec![body_at(0, 0, 500_000_000_000)];
    'outer: for dx in -5i64..=5 {
        for dy in -5i64..=5 {
            if (dx, dy) == (0, 0) {
                continue;
            }
            bodies.push(body_at(dx, dy, 1));
            if bodies.len() == 100 {
                break 'outer;
            }
        }
    }
    assert_eq!(bodies.len(), 100);
    bodies
}

fn momentum(sim: &Simulation) -> (i128, i128) {
    let mut p = (0i128, 0i128);
    for b in sim.bodies.iter() {
        p.0 += (b.mass as i128) * (b.velocity.0 as i128);
        p.1 += (b.mass as i128) * (b.velocity.1 as i128);
    }
    p
}

#[test]
fn momentum_drift_stays_bounded_over_ten_steps() {
    let boundary = bounds(1_000_000);
    let mut bh = Simulation::new(cluster_bodies(), boundary, Theta { num: 1, den: 2 }, 1);
    let mut exact = Simulation::new(cluster_bodies(), boundary, Theta { num: 0, den: 1 }, 1);
    assert_eq!(momentum(&bh), (0, 0));
    bh.run(10);
    exact.run(10);
    let p_bh = momentum(&bh);
    let p_exact = momentum(&exact);
    let cap: i128 = 10_000_000;
    assert!(p_exact.0.abs() <= cap && p_exact.1.abs() <= cap);
    assert!(p_bh.0.abs() <= cap && p_bh.1.abs() <= cap);
    assert!((p_bh.0 - p_exact.0).abs() <= cap && (p_bh.1 - p_exact.1).abs() <= cap);
}

#[test]
fn run_equals_repeated_updates() {
    let boundary = bounds(100_000);
    let bodies = vec![
        body_at(0, 0, 400_000_000_000),
        body_at(3, 0, 1_000),
        body_at(0, -4, 1_000),
    ];
    let theta = Theta { num: 1, den: 2 };
    let mut by_run = Simulation::new(bodies.clone(), boundary, theta, 2);
    let mut by_updates = Simulation::new(bodies, boundary, theta, 2);
    by_run.run(3);
    for _ in 0..3 {
        by_updates.update();
    }
    for (x, y) in by_run.bodies.iter().zip(by_updates.bodies.iter()) {
        assert_eq!(x.position, y.position);
        assert_eq!(x.velocity, y.velocity);
        assert_eq!(x.acceleration, y.acceleration);
    }
}

#[test]
fn update_moves_a_light_satellite_toward_the_heavy_body() {
    let boundary = bounds(100_000);
    let heavy = body_at(0, 0, 500_000_000_000);
    let light = body_at(3, 0, 1);
    let mut sim = Simulation::new(vec![heavy, light], boundary, Theta { num: 1, den: 2 }, 1);
    sim.update();
    // acceleration = trunc(G * M / d^2) toward the origin
    let sat = sim.bodies[1];
    assert!(sat.acceleration.0 < 0);
    assert_eq!(sat.acceleration.1, 0);
    assert!(sat.velocity.0 < 0);
    assert!(sat.position.0 < 3);
}
