use genny::circles::{first_containing_tier, pack_circles, Tier};
use genny::flow::FlowConfig;
use genny::geometry::{in_circle, Circle, Point, UsizePoint, FP};
use genny::paths::{border_point, paths_scene};
use genny::rng::RandomSource;
use genny::sampler::{random_point, ExhaustedError};

fn cfg(side: u32, step: u32) -> FlowConfig {
    FlowConfig {
        width: side,
        height: side,
        step,
        focal: Some(Point { x: 256000, y: 256000 }),
    }
}

#[test]
fn sampler_never_returns_an_excluded_point() {
    let mut rng = RandomSource::from_seed(8);
    let mut used: Vec<UsizePoint> = Vec::new();
    for _ in 0..200 {
        let p = random_point(&mut rng, 20, 20, &used).unwrap();
        assert!(p.x < 20 && p.y < 20);
        assert!(!used.contains(&p));
        used.push(p);
    }
}

#[test]
fn sampler_exhausts_in_a_fully_used_box() {
    let mut rng = RandomSource::from_seed(8);
    let used = vec![UsizePoint { x: 0, y: 0 }];
    let r = random_point(&mut rng, 1, 1, &used);
    assert_eq!(r, Err(ExhaustedError));
}

#[test]
fn circle_containment_is_monotonic_in_the_radius() {
    let center = Point::from_pixels(100, 100);
    let p = Point::from_pixels(107, 104);
    for r in 1u32..30 {
        let small = Circle { center, radius: r };
        let large = Circle { center, radius: r + 5 };
        if in_circle(&p, &small, 0) {
            assert!(in_circle(&p, &large, 0));
        }
    }
    assert!(!in_circle(&p, &Circle { center, radius: 8 }, 0));
    assert!(in_circle(&p, &Circle { center, radius: 9 }, 0));
}

#[test]
fn packer_places_a_hundred_circles_without_overlap() {
    let mut rng = RandomSource::from_seed(77);
    let placed = pack_circles(&mut rng, &cfg(500, 15)).unwrap();
    assert_eq!(placed.len(), 100);
    for (i, (c, tier)) in placed.iter().enumerate() {
        let (want_r, want_tier) = if i < 10 {
            (50, Tier::Large)
        } else if i < 40 {
            (20, Tier::Medium)
        } else {
            (10, Tier::Small)
        };
        assert_eq!(c.radius, want_r);
        assert_eq!(*tier, want_tier);
        assert!(0 <= c.center.x && c.center.x < 500 * FP);
        assert!(0 <= c.center.y && c.center.y < 500 * FP);
    }
    for i in 0..placed.len() {
        for j in (i + 1)..placed.len() {
            let a = placed[i].0;
            let b = placed[j].0;
            let dx = (a.center.x - b.center.x) as i128;
            let dy = (a.center.y - b.center.y) as i128;
            let reach = ((a.radius + b.radius) as i128) * (FP as i128);
            assert!(dx * dx + dy * dy > reach * reach);
        }
    }
}

#[test]
fn path_color_comes_from_the_first_containing_circle() {
    let placed = vec![
        (Circle { center: Point::from_pixels(50, 50), radius: 20 }, Tier::Large),
        (Circle { center: Point::from_pixels(52, 50), radius: 20 }, Tier::Medium),
        (Circle { center: Point::from_pixels(300, 300), radius: 10 }, Tier::Small),
    ];
    let inside_both = Point::from_pixels(51, 50);
    assert_eq!(first_containing_tier(&inside_both, &placed), Some(Tier::Large));
    let inside_small = Point::from_pixels(301, 301);
    assert_eq!(first_containing_tier(&inside_small, &placed), Some(Tier::Small));
    let outside = Point::from_pixels(200, 100);
    assert_eq!(first_containing_tier(&outside, &placed), None);
}

#[test]
fn border_points_walk_the_four_edges() {
    assert_eq!(border_point(0, 170, 170), UsizePoint { x: 0, y: 0 });
    assert_eq!(border_point(169, 170, 170), UsizePoint { x: 169, y: 0 });
    assert_eq!(border_point(170, 170, 170), UsizePoint { x: 0, y: 169 });
    assert_eq!(border_point(339, 170, 170), UsizePoint { x: 169, y: 169 });
    assert_eq!(border_point(340, 170, 170), UsizePoint { x: 0, y: 0 });
    assert_eq!(border_point(509, 170, 170), UsizePoint { x: 0, y: 169 });
    assert_eq!(border_point(510, 170, 170), UsizePoint { x: 169, y: 0 });
    for i in 0..680usize {
        let p = border_point(i, 170, 170);
        assert!(p.x < 170 && p.y < 170);
        assert!(p.x == 0 || p.x == 169 || p.y == 0 || p.y == 169);
    }
}

#[test]
fn paths_scene_covers_borders_and_interior() {
    let mut rng = RandomSource::from_seed(5);
    let c = cfg(400, 20);
    let (circles, paths) = paths_scene(&mut rng, &c).unwrap();
    assert_eq!(circles.len(), 100);
    let borders = 2 * (400 + 400);
    let interior = 400 * 400 / 20;
    assert_eq!(paths.len(), borders + interior);
    let steps = (400 + 400) / 200;
    for path in &paths {
        assert_eq!(path.points.len(), steps + 1);
    }
    for k in 0..borders {
        let b = border_point(k, 400, 400);
        assert_eq!(paths[k].points[0], Point::from_pixels(b.x, b.y));
    }
}

#[test]
fn interior_seeds_avoid_earlier_path_points() {
    let mut rng = RandomSource::from_seed(12);
    let c = cfg(400, 20);
    let (_, paths) = paths_scene(&mut rng, &c).unwrap();
    let borders = 2 * (400 + 400);
    // the pixel under an in-canvas plane position, as the sampler sees it
    let pixel_of = |p: &Point| -> Option<(u64, u64)> {
        if 0 <= p.x && p.x < 400 * FP && 0 <= p.y && p.y < 400 * FP {
            Some((p.x as u64 / 1024, p.y as u64 / 1024))
        } else {
            None
        }
    };
    let mut seen = std::collections::HashSet::new();
    for (k, traced) in paths.iter().enumerate() {
        if k >= borders {
            let seed = pixel_of(&traced.points[0]).unwrap();
            assert!(!seen.contains(&seed));
        }
        for p in &traced.points {
            if let Some(px) = pixel_of(p) {
                seen.insert(px);
            }
        }
    }
}
