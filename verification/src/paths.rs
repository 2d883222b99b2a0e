//! The paths layer: flow-guided polylines over the whole canvas.
//!
//! Seeds come first from every border pixel, then from rejection-sampled
//! interior points that avoid everything already drawn. Each seed is
//! traced through the flow field, and each path is tagged with the tier
//! of the first packed circle its start falls into, which picks its
//! stroke color.

use vstd::prelude::*;
use vstd::arithmetic::div_mod::lemma_div_by_multiple;
use crate::geometry::{Point, UsizePoint, Circle, bounded};
use crate::flow::{FlowConfig, valid_config};
use crate::tracer::{trace, path_step_count};
use crate::rng::RandomSource;
use crate::sampler::{ExhaustedError, random_point};
use crate::circles::{Tier, pack_circles, first_containing_tier, CIRCLE_COUNT};

verus! {

/// Border pixel `i` of a canvas, walking the top edge, then the bottom
/// edge, then the left and right edges.
pub open spec fn spec_border_point(i: int, width: int, height: int) -> (int, int) {
    let x = if i < 2 * width {
        i % width
    } else if i < 2 * width + height {
        0
    } else {
        width - 1
    };
    let y = if i < width {
        0
    } else if i < 2 * width {
        height - 1
    } else {
        (i - 2 * width) % height
    };
    (x, y)
}

/// Border pixel `i` of a canvas.
pub fn border_point(i: usize, width: u32, height: u32) -> (r: UsizePoint)
    requires
        1 <= width <= 4096,
        1 <= height <= 4096,
        i <= 100000000,
    ensures
        r.x == spec_border_point(i as int, width as int, height as int).0,
        r.y == spec_border_point(i as int, width as int, height as int).1,
        r.x < width,
        r.y < height,
{
    let w: usize = width as usize;
    let h: usize = height as usize;
    let x: usize = if i < 2 * w {
        i % w
    } else if i < 2 * w + h {
        0
    } else {
        w - 1
    };
    let y: usize = if i < w {
        0
    } else if i < 2 * w {
        h - 1
    } else {
        (i - 2 * w) % h
    };
    UsizePoint { x, y }
}

/// One traced polyline with the tier of the circle its start falls in,
/// if any; the tier picks the stroke color.
pub struct TracedPath {
    pub points: Vec<Point>,
    pub tier: Option<Tier>,
}

/// How many interior paths a canvas gets: a twentieth of its area.
pub open spec fn spec_interior_path_count(width: int, height: int) -> int {
    width * height / 20
}

/// Whether a plane position lies inside the canvas.
pub open spec fn spec_in_canvas(p: Point, width: int, height: int) -> bool {
    0 <= p.x < width * 1024 && 0 <= p.y < height * 1024
}

/// The whole-pixel grid point under an in-canvas plane position.
pub open spec fn spec_pixel_of(p: Point) -> UsizePoint {
    UsizePoint { x: (p.x / 1024) as usize, y: (p.y / 1024) as usize }
}

/// Every seed past the border walk avoids the pixel of every in-canvas
/// point of every earlier path: the sampler's exclusion, stated over the
/// finished list.
pub open spec fn seeds_avoid_earlier_paths(
    paths: Seq<TracedPath>,
    border_count: int,
    width: int,
    height: int,
) -> bool {
    forall|k: int, j: int, m: int|
        #![trigger paths[k].points@[0], paths[j].points@[m]]
        border_count <= k < paths.len() && 0 <= j < k && 0 <= m < paths[j].points@.len()
            && spec_in_canvas(paths[j].points@[m], width, height)
            ==> spec_pixel_of(paths[k].points@[0]) != spec_pixel_of(paths[j].points@[m])
}

/// The used-point list holds the pixel of every in-canvas point of every
/// path built so far.
spec fn used_covers_paths(
    paths: Seq<TracedPath>,
    used: Seq<UsizePoint>,
    width: int,
    height: int,
) -> bool {
    forall|j: int, m: int|
        #![trigger paths[j].points@[m]]
        0 <= j < paths.len() && 0 <= m < paths[j].points@.len()
            && spec_in_canvas(paths[j].points@[m], width, height)
            ==> used.contains(spec_pixel_of(paths[j].points@[m]))
}

/// The whole paths layer: the packed circles that color the paths, and
/// one traced path per border pixel plus one per sampled interior seed.
/// Every path holds exactly one point more than the step count, starting
/// at its seed; border seeds follow the border walk exactly.
pub fn paths_scene(rng: &mut RandomSource, cfg: &FlowConfig) -> (r: Result<
    (Vec<(Circle, Tier)>, Vec<TracedPath>),
    ExhaustedError,
>)
    requires
        valid_config(*cfg),
    ensures
        match r {
            Result::Ok((circles, paths)) => {
                &&& circles@.len() == CIRCLE_COUNT
                &&& crate::circles::no_overlap(circles@.map(|i: int, pc: (Circle, Tier)| pc.0))
                &&& forall|k: int|
                    0 <= k < circles@.len() ==> (#[trigger] circles@[k]).0.radius
                        == crate::circles::spec_tier_radius(k) && circles@[k].1
                        == crate::circles::spec_tier(k)
                &&& paths@.len() == 2 * (cfg.width + cfg.height)
                    + spec_interior_path_count(cfg.width as int, cfg.height as int)
                &&& forall|k: int|
                    0 <= k < paths@.len() ==> (#[trigger] paths@[k].points)@.len()
                        == crate::fixed::spec_tdiv(cfg.width + cfg.height, 200) + 1
                &&& forall|k: int|
                    0 <= k < 2 * (cfg.width + cfg.height) ==> (#[trigger] paths@[k].points)@[0].x == spec_border_point(k, cfg.width as int, cfg.height as int).0 * 1024
                    && paths@[k].points@[0].y == spec_border_point(k, cfg.width as int, cfg.height as int).1 * 1024
                &&& forall|k: int|
                    0 <= k < paths@.len() ==> 0 <= (#[trigger] paths@[k].points)@[0].x < cfg.width * 1024
                        && 0 <= paths@[k].points@[0].y < cfg.height * 1024
                &&& seeds_avoid_earlier_paths(
                    paths@,
                    2 * (cfg.width + cfg.height),
                    cfg.width as int,
                    cfg.height as int,
                )
            },
            Result::Err(e) => true,
        },
{
    let circles: Vec<(Circle, Tier)> = match pack_circles(rng, cfg) {
        Result::Ok(c) => c,
        Result::Err(e) => {
            return Result::Err(e);
        },
    };
    let steps: usize = path_step_count(cfg);
    let borders: usize = 2 * ((cfg.width + cfg.height) as usize);
    proof {
        assert(cfg.width * cfg.height <= 16777216) by (nonlinear_arith)
            requires
                cfg.width <= 4096,
                cfg.height <= 4096,
        ;
        vstd::arithmetic::div_mod::lemma_div_nonincreasing(
            cfg.width * cfg.height,
            20,
        );
        vstd::arithmetic::div_mod::lemma_div_pos_is_pos(
            cfg.width * cfg.height,
            20,
        );
    }
    let interior: usize = ((cfg.width as u64 * cfg.height as u64) / 20) as usize;
    let total: usize = borders + interior;
    let mut paths: Vec<TracedPath> = Vec::new();
    let mut used: Vec<UsizePoint> = Vec::new();
    let mut i: usize = 0;
    while i < total
        invariant
            valid_config(*cfg),
            steps == crate::fixed::spec_tdiv(cfg.width + cfg.height, 200),
            steps <= 65536,
            borders == 2 * (cfg.width + cfg.height),
            interior == spec_interior_path_count(cfg.width as int, cfg.height as int),
            total == borders + interior,
            i <= total,
            paths@.len() == i,
            circles@.len() == CIRCLE_COUNT,
            forall|k: int|
                0 <= k < circles@.len() ==> bounded((#[trigger] circles@[k]).0.center)
                    && circles@[k].0.radius <= 4096,
            crate::circles::no_overlap(circles@.map(|j: int, pc: (Circle, Tier)| pc.0)),
            forall|k: int|
                0 <= k < circles@.len() ==> (#[trigger] circles@[k]).0.radius
                    == crate::circles::spec_tier_radius(k) && circles@[k].1
                    == crate::circles::spec_tier(k),
            forall|k: int|
                0 <= k < paths@.len() ==> (#[trigger] paths@[k].points)@.len() == steps + 1,
            forall|k: int|
                0 <= k < paths@.len() && k < borders ==> (#[trigger] paths@[k].points)@[0].x == spec_border_point(k, cfg.width as int, cfg.height as int).0 * 1024
                    && paths@[k].points@[0].y == spec_border_point(k, cfg.width as int, cfg.height as int).1 * 1024,
            forall|k: int|
                0 <= k < paths@.len() ==> 0 <= (#[trigger] paths@[k].points)@[0].x < cfg.width * 1024
                    && 0 <= paths@[k].points@[0].y < cfg.height * 1024,
            used_covers_paths(paths@, used@, cfg.width as int, cfg.height as int),
            seeds_avoid_earlier_paths(paths@, borders as int, cfg.width as int, cfg.height as int),
        decreases total - i,
    {
        let seed_pixel: UsizePoint;
        if i < borders {
            seed_pixel = border_point(i, cfg.width, cfg.height);
        } else {
            seed_pixel = match random_point(rng, cfg.width, cfg.height, &used) {
                Result::Ok(p) => p,
                Result::Err(e) => {
                    return Result::Err(e);
                },
            };
            proof {
                assert forall|j: int, m2: int|
                    #![trigger paths@[j].points@[m2]]
                    0 <= j < paths@.len() && 0 <= m2 < paths@[j].points@.len()
                        && spec_in_canvas(paths@[j].points@[m2], cfg.width as int,
                        cfg.height as int) implies spec_pixel_of(paths@[j].points@[m2])
                    != seed_pixel by {
                    assert(used@.contains(spec_pixel_of(paths@[j].points@[m2])));
                }
            }
        }
        let seed: Point = Point::from_pixels(seed_pixel.x, seed_pixel.y);
        let path: Vec<Point> = trace(&seed, cfg, steps);
        let tier: Option<Tier> = first_containing_tier(&path[0], &circles);
        let mut m: usize = 0;
        let w_fp: i64 = (cfg.width as i64) * 1024;
        let h_fp: i64 = (cfg.height as i64) * 1024;
        while m < path.len()
            invariant
                m <= path@.len(),
                w_fp == cfg.width * 1024,
                h_fp == cfg.height * 1024,
                1 <= cfg.width <= 4096,
                1 <= cfg.height <= 4096,
                used_covers_paths(paths@, used@, cfg.width as int, cfg.height as int),
                forall|mm: int|
                    0 <= mm < m && spec_in_canvas(
                        #[trigger] path@[mm],
                        cfg.width as int,
                        cfg.height as int,
                    ) ==> used@.contains(spec_pixel_of(path@[mm])),
            decreases path@.len() - m,
        {
            let p: Point = path[m];
            if 0 <= p.x && p.x < w_fp && 0 <= p.y && p.y < h_fp {
                let px: usize = ((p.x as u64) / 1024) as usize;
                let py: usize = ((p.y as u64) / 1024) as usize;
                let ghost used_before = used@;
                used.push(UsizePoint { x: px, y: py });
                proof {
                    assert(used@[used@.len() - 1] == spec_pixel_of(path@[m as int]));
                    assert forall|j: int, mm: int|
                        #![trigger paths@[j].points@[mm]]
                        0 <= j < paths@.len() && 0 <= mm < paths@[j].points@.len()
                            && spec_in_canvas(paths@[j].points@[mm], cfg.width as int,
                            cfg.height as int) implies used@.contains(
                        spec_pixel_of(paths@[j].points@[mm]),
                    ) by {
                        let x = spec_pixel_of(paths@[j].points@[mm]);
                        assert(used_before.contains(x));
                        let wi = choose|wi: int|
                            0 <= wi < used_before.len() && used_before[wi] == x;
                        assert(used@[wi] == x);
                    }
                    assert forall|mm: int|
                        0 <= mm < m + 1 && spec_in_canvas(
                            #[trigger] path@[mm],
                            cfg.width as int,
                            cfg.height as int,
                        ) implies used@.contains(spec_pixel_of(path@[mm])) by {
                        if mm < m {
                            let x = spec_pixel_of(path@[mm]);
                            assert(used_before.contains(x));
                            let wi = choose|wi: int|
                                0 <= wi < used_before.len() && used_before[wi] == x;
                            assert(used@[wi] == x);
                        }
                    }
                }
            } else {
                proof {
                    assert(!spec_in_canvas(path@[m as int], cfg.width as int, cfg.height as int));
                }
            }
            m = m + 1;
        }
        let ghost paths_before = paths@;
        let ghost path_view = path@;
        paths.push(TracedPath { points: path, tier });
        proof {
            assert(paths@[paths@.len() - 1].points@ == path_view);
            assert forall|j: int, mm: int|
                #![trigger paths@[j].points@[mm]]
                0 <= j < paths@.len() && 0 <= mm < paths@[j].points@.len() && spec_in_canvas(
                    paths@[j].points@[mm],
                    cfg.width as int,
                    cfg.height as int,
                ) implies used@.contains(spec_pixel_of(paths@[j].points@[mm])) by {
                if j < paths_before.len() {
                    assert(paths@[j] == paths_before[j]);
                    assert(used@.contains(spec_pixel_of(paths_before[j].points@[mm])));
                } else {
                    assert(paths@[j].points@ == path_view);
                    assert(spec_in_canvas(path_view[mm], cfg.width as int, cfg.height as int));
                    assert(used@.contains(spec_pixel_of(path_view[mm])));
                }
            }
            assert forall|k: int, j: int, m2: int|
                #![trigger paths@[k].points@[0], paths@[j].points@[m2]]
                borders <= k < paths@.len() && 0 <= j < k && 0 <= m2 < paths@[j].points@.len()
                    && spec_in_canvas(paths@[j].points@[m2], cfg.width as int, cfg.height as int)
                implies spec_pixel_of(paths@[k].points@[0]) != spec_pixel_of(
                paths@[j].points@[m2],
            ) by {
                assert(paths@[j] == paths_before[j]);
                if k < paths_before.len() {
                    assert(paths@[k] == paths_before[k]);
                    assert(spec_pixel_of(paths_before[k].points@[0]) != spec_pixel_of(
                        paths_before[j].points@[m2],
                    ));
                } else {
                    assert(paths@[k].points@ == path_view);
                    assert(paths@[k].points@[0] == seed);
                    assert(spec_pixel_of(paths_before[j].points@[m2]) != seed_pixel);
                    lemma_div_by_multiple(seed_pixel.x as int, 1024);
                    lemma_div_by_multiple(seed_pixel.y as int, 1024);
                    assert(spec_pixel_of(seed) == seed_pixel);
                }
            }
            assert(seeds_avoid_earlier_paths(paths@, borders as int, cfg.width as int,
                cfg.height as int));
            assert forall|k: int| 0 <= k < paths@.len() implies 0 <= (
            #[trigger] paths@[k].points)@[0].x < cfg.width * 1024 && 0 <= paths@[k].points@[0].y
                < cfg.height * 1024 by {
                if k < paths_before.len() {
                    assert(paths@[k] == paths_before[k]);
                }
            }
            assert forall|k: int| 0 <= k < paths@.len() implies (#[trigger] paths@[k].points)@.len()
                == steps + 1 by {
                if k < paths_before.len() {
                    assert(paths@[k] == paths_before[k]);
                }
            }
            assert forall|k: int| 0 <= k < paths@.len() && k < borders implies
                (#[trigger] paths@[k].points)@[0].x == spec_border_point(k, cfg.width as int, cfg.height as int).0 * 1024
                    && paths@[k].points@[0].y == spec_border_point(k, cfg.width as int, cfg.height as int).1 * 1024 by {
                if k < paths_before.len() {
                    assert(paths@[k] == paths_before[k]);
                }
            }
        }
        i = i + 1;
    }
    Result::Ok((circles, paths))
}

} // verus!
