use rope_sim::error::SimError;
use rope_sim::node::Node;
use rope_sim::params::{DRAG, DT, G, NODE_MASS};
use rope_sim::vec2::Vec2;

fn free_node(x: i64, y: i64, mass: i64) -> Node {
    Node::with_pos_and_mass(Vec2::new(x, y), mass).unwrap()
}

fn pinned_node() -> Node {
    Node {
        last_pos: Vec2::new(1, 2),
        pos: Vec2::new(3, 4),
        vel: Vec2::new(5, 6),
        force: Vec2::new(7, 8),
        mass: 2_000_000,
        fixed: true,
    }
}

#[test]
fn constants_have_their_documented_values() {
    assert_eq!(DT, 150_000);
    assert_eq!(G, 18_000_000);
    assert_eq!(DRAG, 500_000);
    assert_eq!(NODE_MASS, 1_000_000);
}

#[test]
fn default_node_is_free_unit_mass_at_origin() {
    let n = Node::default();
    assert_eq!(n.pos, Vec2::zero());
    assert_eq!(n.last_pos, Vec2::zero());
    assert_eq!(n.vel, Vec2::zero());
    assert_eq!(n.force, Vec2::zero());
    assert_eq!(n.mass, 1_000_000);
    assert!(!n.fixed);
}

#[test]
fn new_node_rests_at_its_position() {
    let n = free_node(10_000_000, 20_000_000, 2_500_000);
    assert_eq!(
        n,
        Node {
            last_pos: Vec2::new(10_000_000, 20_000_000),
            pos: Vec2::new(10_000_000, 20_000_000),
            vel: Vec2::zero(),
            force: Vec2::zero(),
            mass: 2_500_000,
            fixed: false,
        }
    );
}

#[test]
fn zero_mass_is_refused() {
    assert_eq!(Node::with_pos_and_mass(Vec2::zero(), 0), Err(SimError::NonPositiveMass));
}

#[test]
fn negative_mass_is_refused() {
    assert_eq!(Node::with_pos_and_mass(Vec2::zero(), -1), Err(SimError::NonPositiveMass));
    assert_eq!(Node::with_pos_and_mass(Vec2::zero(), i64::MIN), Err(SimError::NonPositiveMass));
}

#[test]
fn smallest_positive_mass_is_accepted() {
    assert!(Node::with_pos_and_mass(Vec2::zero(), 1).is_ok());
}

#[test]
fn gravity_adds_weight_along_y() {
    let mut n = free_node(0, 0, 2_500_000);
    n.apply_gravity();
    assert_eq!(n.force, Vec2::new(0, 45_000_000));
    n.apply_gravity();
    assert_eq!(n.force, Vec2::new(0, 90_000_000));
    assert_eq!(n.pos, Vec2::zero());
    assert_eq!(n.vel, Vec2::zero());
}

#[test]
fn drag_opposes_velocity() {
    let mut n = free_node(0, 0, 1_000_000);
    n.vel = Vec2::new(2_000_000, -4_000_000);
    n.apply_drag();
    assert_eq!(n.force, Vec2::new(-1_000_000, 2_000_000));
    assert_eq!(n.vel, Vec2::new(2_000_000, -4_000_000));
}

#[test]
fn integrate_advances_velocity_then_position() {
    let mut n = free_node(10_000_000, 20_000_000, 1_000_000);
    n.force = Vec2::new(0, 18_000_000);
    n.integrate();
    assert_eq!(n.last_pos, Vec2::new(10_000_000, 20_000_000));
    assert_eq!(n.vel, Vec2::new(0, 2_700_000));
    assert_eq!(n.pos, Vec2::new(10_000_000, 20_405_000));
    assert_eq!(n.force, Vec2::new(0, 18_000_000));
}

#[test]
fn integrate_divides_force_by_mass() {
    let mut n = free_node(10_000_000, 20_000_000, 4_000_000);
    n.vel = Vec2::new(1_000_000, -1_000_000);
    n.force = Vec2::new(6_000_000, -2_000_000);
    n.integrate();
    assert_eq!(n.vel, Vec2::new(1_225_000, -1_075_000));
    assert_eq!(n.pos, Vec2::new(10_183_750, 19_838_750));
    assert_eq!(n.last_pos, Vec2::new(10_000_000, 20_000_000));
}

#[test]
fn differentiate_recovers_velocity_and_clears_force() {
    let mut n = free_node(10_000_000, 20_000_000, 1_000_000);
    n.force = Vec2::new(0, 18_000_000);
    n.pos = Vec2::new(10_000_003, 20_705_000);
    n.differentiate();
    assert_eq!(n.vel, Vec2::new(20, 4_700_000));
    assert_eq!(n.force, Vec2::zero());
    assert_eq!(n.pos, Vec2::new(10_000_003, 20_705_000));
    assert_eq!(n.last_pos, Vec2::new(10_000_000, 20_000_000));
}

#[test]
fn differentiate_after_integrate_returns_the_velocity() {
    let mut n = free_node(0, 0, 1_000_000);
    n.force = Vec2::new(0, 18_000_000);
    n.integrate();
    n.differentiate();
    assert_eq!(n.vel, Vec2::new(0, 2_700_000));
}

#[test]
fn offset_moves_a_free_node() {
    let mut n = free_node(1, 2, 1_000_000);
    n.add_offs(Vec2::new(10, -20));
    assert_eq!(n.pos, Vec2::new(11, -18));
    assert_eq!(n.last_pos, Vec2::new(1, 2));
}

#[test]
fn pinned_node_ignores_every_operation() {
    let mut n = pinned_node();
    n.apply_gravity();
    assert_eq!(n, pinned_node());
    n.apply_drag();
    assert_eq!(n, pinned_node());
    n.integrate();
    assert_eq!(n, pinned_node());
    n.differentiate();
    assert_eq!(n, pinned_node());
    n.add_offs(Vec2::new(100, 100));
    assert_eq!(n, pinned_node());
}
