use genny::flow::{angle_at, raw_angle, FlowConfig};
use genny::geometry::Point;
use genny::tracer::{path_step_count, trace};
use genny::trig;

fn small_cfg() -> FlowConfig {
    FlowConfig {
        width: 170,
        height: 170,
        step: 15,
        focal: Some(Point { x: 256000, y: 256000 }),
    }
}

#[test]
fn angle_is_deterministic_and_in_range() {
    let cfg = small_cfg();
    for &(px, py) in &[(0usize, 0usize), (10, 20), (85, 85), (169, 169), (250, 250), (1, 168)] {
        let p = Point::from_pixels(px, py);
        let a1 = angle_at(&p, &cfg);
        let a2 = angle_at(&p, &cfg);
        assert_eq!(a1, a2);
        assert!(a1 < trig::TURN);
    }
}

#[test]
fn angle_in_range_without_focal() {
    let cfg = FlowConfig { width: 340, height: 340, step: 15, focal: None };
    for &(px, py) in &[(0usize, 0usize), (100, 300), (339, 1)] {
        let a = angle_at(&Point::from_pixels(px, py), &cfg);
        assert!(a < trig::TURN);
        assert_eq!(a, raw_angle(&Point::from_pixels(px, py), &cfg));
    }
}

#[test]
fn trace_has_step_count_plus_one_points_and_starts_at_seed() {
    let cfg = small_cfg();
    let seed = Point::from_pixels(42, 17);
    for steps in [0usize, 1, 5, 40] {
        let path = trace(&seed, &cfg, steps);
        assert_eq!(path.len(), steps + 1);
        assert_eq!(path[0], seed);
    }
}

#[test]
fn trace_is_deterministic() {
    let cfg = small_cfg();
    let seed = Point::from_pixels(3, 160);
    let a = trace(&seed, &cfg, 10);
    let b = trace(&seed, &cfg, 10);
    assert_eq!(a, b);
}

#[test]
fn path_step_count_scales_with_canvas() {
    assert_eq!(path_step_count(&small_cfg()), 1);
    let cfg = FlowConfig { width: 680, height: 680, step: 15, focal: None };
    assert_eq!(path_step_count(&cfg), 6);
}

#[test]
fn sine_and_cosine_are_exact_at_quarter_turns() {
    assert_eq!(trig::sin(0), 0);
    assert_eq!(trig::sin(trig::QUARTER_TURN), trig::SCALE);
    assert_eq!(trig::sin(trig::HALF_TURN), 0);
    assert_eq!(trig::sin(trig::HALF_TURN + trig::QUARTER_TURN), -trig::SCALE);
    assert_eq!(trig::cos(0), trig::SCALE);
    assert_eq!(trig::cos(trig::QUARTER_TURN), 0);
    assert_eq!(trig::cos(trig::HALF_TURN), -trig::SCALE);
}

#[test]
fn sine_stays_within_unit_amplitude() {
    let mut a = 0u64;
    while a < trig::TURN {
        let s = trig::sin(a);
        let c = trig::cos(a);
        assert!(-trig::SCALE <= s && s <= trig::SCALE);
        assert!(-trig::SCALE <= c && c <= trig::SCALE);
        a += 37;
    }
}

#[test]
fn atan2_is_exact_on_the_axes() {
    assert_eq!(trig::atan2(0, 100), 0);
    assert_eq!(trig::atan2(100, 0), trig::QUARTER_TURN);
    assert_eq!(trig::atan2(0, -100), trig::HALF_TURN);
    assert_eq!(trig::atan2(-100, 0), trig::HALF_TURN + trig::QUARTER_TURN);
    assert_eq!(trig::atan2(0, 0), 0);
    assert_eq!(trig::atan2(100, 100), trig::EIGHTH_TURN);
}

#[test]
fn arrows_probe_every_lattice_position() {
    let cfg = small_cfg();
    let arrows = genny::arrows::arrows_scene(&cfg);
    assert_eq!(arrows.len(), 100);
    for (i, a) in arrows.iter().enumerate() {
        assert_eq!(i, a.row * 10 + a.col);
        assert_eq!(a.x, (a.col + 1) * 15);
        assert_eq!(a.y, (a.row + 1) * 15);
        assert!(a.angle < trig::TURN);
        assert_eq!(a.angle, angle_at(&Point::from_pixels(a.x, a.y), &cfg));
    }
}

#[test]
fn atan2_stays_within_a_turn() {
    for &(y, x) in &[(3i64, 4i64), (-3, 4), (3, -4), (-3, -4), (1, 1000), (-1, 1000), (1000, 1)] {
        assert!(trig::atan2(y, x) < trig::TURN);
    }
}
