use rope_sim::constraint::Constraint;
use rope_sim::cut::{ccw, is_cut, segments_cross};
use rope_sim::node::Node;
use rope_sim::vec2::Vec2;

const U: i64 = 1_000_000;

fn p(x: i64, y: i64) -> Vec2 {
    Vec2::new(x * U, y * U)
}

#[test]
fn turn_direction() {
    assert!(ccw(p(0, 0), p(1, 0), p(0, 1)));
    assert!(!ccw(p(0, 0), p(0, 1), p(1, 0)));
}

#[test]
fn collinear_points_make_no_turn() {
    assert!(!ccw(p(0, 0), p(1, 1), p(2, 2)));
    assert!(!ccw(p(0, 0), p(2, 2), p(1, 1)));
}

#[test]
fn crossing_segments() {
    assert!(segments_cross(p(0, 0), p(0, 50), p(10, 25), p(-10, 25)));
    assert!(segments_cross(p(0, 0), p(0, 50), p(-10, 25), p(10, 25)));
    assert!(segments_cross(p(0, 0), p(10, 10), p(0, 10), p(10, 0)));
}

#[test]
fn segments_that_stop_short_do_not_cross() {
    assert!(!segments_cross(p(0, 0), p(0, 50), p(10, 25), p(5, 25)));
}

#[test]
fn segments_that_pass_beyond_the_end_do_not_cross() {
    assert!(!segments_cross(p(0, 0), p(0, 50), p(10, 60), p(-10, 60)));
}

#[test]
fn parallel_segments_do_not_cross() {
    assert!(!segments_cross(p(0, 0), p(10, 0), p(0, 1), p(10, 1)));
}

#[test]
fn gesture_that_does_not_move_cuts_nothing() {
    assert!(!segments_cross(p(0, 0), p(0, 50), p(0, 25), p(0, 25)));
}

#[test]
fn constraint_is_cut_by_a_gesture_across_it() {
    let nodes = vec![
        Node::with_pos_and_mass(p(0, 0), U).unwrap(),
        Node::with_pos_and_mass(p(0, 50), U).unwrap(),
    ];
    let c = Constraint { a: 0, b: 1, break_threshold: 250 * U };
    assert!(is_cut(&c, &nodes, p(10, 25), p(-10, 25)));
    assert!(!is_cut(&c, &nodes, p(10, 25), p(5, 25)));
}
