use koch::controller::{Controller, Freshness};
use koch::curve::{generate, snowflake_points, MAX_DEPTH, SIDE_LENGTH};
use koch::lattice::{unit_step, Point};
use koch::turtle::Turtle;

/// Pixels per lattice step: a side of 0.5 units at 1200 pixels per unit.
const STEP_PX: f32 = 0.5 * 1200.0 / 6561.0;

fn to_pixels(p: Point, origin: (f32, f32)) -> (f32, f32) {
    let a = p.a as f32;
    let b = p.b as f32;
    (
        origin.0 + STEP_PX * (a + 0.5 * b),
        origin.1 + STEP_PX * (b * 3f32.sqrt() / 2.0),
    )
}

fn pixel_distance(p: (f32, f32), q: (f32, f32)) -> f32 {
    ((q.0 - p.0).powi(2) + (q.1 - p.1).powi(2)).sqrt()
}

#[test]
fn forward_moves_along_each_heading() {
    let expected = [(1, 0), (0, 1), (-1, 1), (-1, 0), (0, -1), (1, -1)];
    for (k, e) in expected.iter().enumerate() {
        let mut t = Turtle::new(Point::new(10, 20), 60 * k as i64);
        t.forward(3);
        assert_eq!(t.pos, Point::new(10 + 3 * e.0, 20 + 3 * e.1));
        assert_eq!(t.visited, vec![Point::new(10, 20)]);
    }
}

#[test]
fn heading_is_read_modulo_a_full_turn() {
    assert_eq!(unit_step(-60), (1, -1));
    assert_eq!(unit_step(360), (1, 0));
    assert_eq!(unit_step(-420), (1, -1));
    assert_eq!(unit_step(780), (0, 1));
}

#[test]
fn negative_distance_moves_backwards() {
    let mut t = Turtle::new(Point::new(0, 0), 120);
    t.forward(-5);
    assert_eq!(t.pos, Point::new(5, -5));
}

#[test]
fn turns_are_not_normalised() {
    let mut t = Turtle::new(Point::new(0, 0), 0);
    t.turn_right(120);
    t.turn_right(120);
    t.turn_right(120);
    assert_eq!(t.heading, 360);
    t.turn_left(480);
    assert_eq!(t.heading, -120);
    assert!(t.visited.is_empty());
}

#[test]
fn edge_has_four_to_the_depth_moves() {
    let mut count: usize = 1;
    for d in 0..=MAX_DEPTH {
        let mut t = Turtle::new(Point::new(0, 0), 0);
        generate(&mut t, SIDE_LENGTH, d);
        assert_eq!(t.visited.len(), count);
        assert_eq!(t.heading, 0);
        assert_eq!(snowflake_points(d).len(), 3 * count + 1);
        count *= 4;
    }
}

#[test]
fn edge_ends_a_side_further_along() {
    for d in 0..=MAX_DEPTH {
        let mut t = Turtle::new(Point::new(-7, 4), 120);
        generate(&mut t, SIDE_LENGTH, d);
        assert_eq!(t.pos, Point::new(-7 - SIDE_LENGTH, 4 + SIDE_LENGTH));
    }
}

#[test]
fn depth_zero_is_an_equilateral_triangle() {
    let pts = snowflake_points(0);
    assert_eq!(
        pts,
        vec![
            Point::new(0, 0),
            Point::new(6561, 0),
            Point::new(0, 6561),
            Point::new(0, 0)
        ]
    );
    let px: Vec<(f32, f32)> = pts.iter().map(|p| to_pixels(*p, (-153.0, -80.0))).collect();
    for i in 0..3 {
        let side = pixel_distance(px[i], px[i + 1]);
        assert!((side - 600.0).abs() < 0.01);
    }
}

#[test]
fn generation_is_deterministic() {
    for d in 0..=MAX_DEPTH {
        assert_eq!(snowflake_points(d), snowflake_points(d));
        let mut t1 = Turtle::new(Point::new(0, 0), 0);
        let mut t2 = Turtle::new(Point::new(0, 0), 0);
        generate(&mut t1, SIDE_LENGTH, d);
        generate(&mut t2, SIDE_LENGTH, d);
        assert_eq!(t1.visited, t2.visited);
        assert_eq!(t1.pos, t2.pos);
    }
}

#[test]
fn increase_at_the_top_is_ignored() {
    let mut c = Controller::new();
    for _ in 0..8 {
        c.increase_depth();
    }
    assert_eq!(c.depth(), 8);
    c.tick();
    assert!(c.is_fresh());
    let before = c.points.clone();
    c.increase_depth();
    assert_eq!(c.depth(), 8);
    assert!(c.is_fresh());
    assert_eq!(c.points, before);
}

#[test]
fn decrease_at_the_bottom_is_ignored() {
    let mut c = Controller::new();
    c.decrease_depth();
    assert_eq!(c.depth(), 0);
    assert_eq!(c.freshness, Freshness::Stale);
    c.tick();
    c.decrease_depth();
    assert_eq!(c.depth(), 0);
    assert!(c.is_fresh());
}

#[test]
fn depth_one_from_the_screen_origin() {
    let mut t = Turtle::new(Point::new(0, 0), 0);
    generate(&mut t, SIDE_LENGTH, 1);
    assert_eq!(
        t.visited,
        vec![
            Point::new(0, 0),
            Point::new(2187, 0),
            Point::new(4374, -2187),
            Point::new(4374, 0)
        ]
    );
    assert_eq!(t.pos, Point::new(6561, 0));
    let first = to_pixels(t.visited[1], (-153.0, -80.0));
    assert!((first.0 - 47.0).abs() < 0.01);
    assert!((first.1 + 80.0).abs() < 0.01);
    let full = snowflake_points(1);
    assert_eq!(&full[0..4], &t.visited[..]);
}

#[test]
fn polygon_closes_at_every_depth() {
    for d in 0..=MAX_DEPTH {
        let pts = snowflake_points(d);
        assert_eq!(pts.first(), pts.last());
        assert_eq!(pts[0], Point::new(0, 0));
    }
}

#[test]
fn controller_regenerates_once_per_change() {
    let mut c = Controller::new();
    assert!(!c.is_fresh());
    assert!(c.polygon_to_draw().is_none());
    c.tick();
    assert_eq!(c.polygon_to_draw(), Some(&snowflake_points(0)));
    c.tick();
    assert_eq!(c.points, snowflake_points(0));
    c.increase_depth();
    assert_eq!(c.depth(), 1);
    assert!(c.polygon_to_draw().is_none());
    c.tick();
    assert_eq!(c.polygon_to_draw(), Some(&snowflake_points(1)));
    c.decrease_depth();
    assert_eq!(c.freshness, Freshness::Stale);
    c.tick();
    assert_eq!(c.points.len(), 4);
}

#[test]
fn edge_of_a_shorter_side_splits_evenly() {
    let mut t = Turtle::new(Point::new(5, 5), 240);
    generate(&mut t, 81, 4);
    assert_eq!(t.pos, Point::new(5, 5 - 81));
    assert_eq!(t.visited.len(), 256);
    let mut t = Turtle::new(Point::new(0, 0), 0);
    generate(&mut t, 9, 2);
    assert_eq!(t.visited[0], Point::new(0, 0));
    assert_eq!(t.visited[1], Point::new(1, 0));
    assert_eq!(t.pos, Point::new(9, 0));
}
