use rope_sim::constraint::Constraint;
use rope_sim::node::Node;
use rope_sim::params::{BREAK_THRESHOLD, COMPRESSION_SOFTENING, RIGIDITY, TARGET_DIST};
use rope_sim::vec2::Vec2;

const U: i64 = 1_000_000;

fn pair(a: (i64, i64), b: (i64, i64), mass_a: i64, mass_b: i64) -> Vec<Node> {
    vec![
        Node::with_pos_and_mass(Vec2::new(a.0, a.1), mass_a).unwrap(),
        Node::with_pos_and_mass(Vec2::new(b.0, b.1), mass_b).unwrap(),
    ]
}

fn link() -> Constraint {
    Constraint { a: 0, b: 1, break_threshold: BREAK_THRESHOLD }
}

#[test]
fn relaxation_constants() {
    assert_eq!(TARGET_DIST, 50 * U);
    assert_eq!(RIGIDITY, U);
    assert_eq!(COMPRESSION_SOFTENING, 500_000);
    assert_eq!(BREAK_THRESHOLD, 250 * U);
}

#[test]
fn rest_distance_is_a_fixed_point() {
    let mut nodes = pair((0, 0), (0, 50 * U), U, U);
    let before = nodes.clone();
    link().solve(&mut nodes);
    assert_eq!(nodes, before);
}

#[test]
fn rest_distance_on_a_diagonal_is_a_fixed_point() {
    let mut nodes = pair((U, 2 * U), (31 * U, 42 * U), U, 3 * U);
    let before = nodes.clone();
    link().solve(&mut nodes);
    assert_eq!(nodes, before);
}

#[test]
fn stretched_pair_is_pulled_together() {
    let mut nodes = pair((0, 0), (0, 60 * U), U, U);
    link().solve(&mut nodes);
    assert_eq!(nodes[0].pos, Vec2::new(0, 5 * U));
    assert_eq!(nodes[1].pos, Vec2::new(0, 55 * U));
    assert_eq!(nodes[0].last_pos, Vec2::new(0, 0));
    assert_eq!(nodes[1].last_pos, Vec2::new(0, 60 * U));
    assert_eq!(nodes[0].vel, Vec2::zero());
}

#[test]
fn stretched_diagonal_pair_moves_along_its_direction() {
    let mut nodes = pair((0, 0), (60 * U, 80 * U), U, U);
    link().solve(&mut nodes);
    assert_eq!(nodes[0].pos, Vec2::new(15 * U, 20 * U));
    assert_eq!(nodes[1].pos, Vec2::new(45 * U, 60 * U));
}

#[test]
fn compressed_pair_is_pushed_apart_by_half() {
    let mut nodes = pair((0, 0), (0, 40 * U), U, U);
    link().solve(&mut nodes);
    assert_eq!(nodes[0].pos, Vec2::new(0, -2_500_000));
    assert_eq!(nodes[1].pos, Vec2::new(0, 42_500_000));
}

#[test]
fn coincident_nodes_get_no_correction() {
    let mut nodes = pair((7, 7), (7, 7), U, U);
    let before = nodes.clone();
    link().solve(&mut nodes);
    assert_eq!(nodes, before);
}

#[test]
fn heavier_node_moves_less() {
    let mut nodes = pair((0, 0), (0, 60 * U), U, 3 * U);
    link().solve(&mut nodes);
    assert_eq!(nodes[0].pos, Vec2::new(0, 2_500_000));
    assert_eq!(nodes[1].pos, Vec2::new(0, 59_166_667));
    let moved_a = nodes[0].pos.y;
    let moved_b = 60 * U - nodes[1].pos.y;
    let weighted = (moved_a as i128 * U as i128 - moved_b as i128 * 3 * U as i128).abs();
    assert!(weighted < 3 * U as i128);
}

#[test]
fn pinned_endpoint_does_not_move() {
    let mut nodes = pair((0, 0), (0, 60 * U), U, U);
    nodes[0].fixed = true;
    link().solve(&mut nodes);
    assert_eq!(nodes[0].pos, Vec2::new(0, 0));
    assert_eq!(nodes[1].pos, Vec2::new(0, 55 * U));
}

#[test]
fn solve_leaves_other_nodes_alone() {
    let mut nodes = pair((0, 0), (0, 60 * U), U, U);
    nodes.push(Node::with_pos_and_mass(Vec2::new(9, 9), U).unwrap());
    let c = Constraint { a: 1, b: 0, break_threshold: BREAK_THRESHOLD };
    c.solve(&mut nodes);
    assert_eq!(nodes[0].pos, Vec2::new(0, 5 * U));
    assert_eq!(nodes[1].pos, Vec2::new(0, 55 * U));
    assert_eq!(nodes[2].pos, Vec2::new(9, 9));
}

#[test]
fn constraint_is_intact_below_its_threshold() {
    let nodes = pair((0, 0), (0, 60 * U), U, U);
    assert!(Constraint { a: 0, b: 1, break_threshold: 60 * U + 1 }.is_intact(&nodes));
    assert!(!Constraint { a: 0, b: 1, break_threshold: 60 * U }.is_intact(&nodes));
    assert!(!Constraint { a: 0, b: 1, break_threshold: 60 * U - 1 }.is_intact(&nodes));
}
