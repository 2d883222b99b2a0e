//! The circle packer: tiers of non-overlapping circles.
//!
//! Circles are placed largest first, in three fixed tiers, each center
//! rejection-sampled against every circle placed so far inflated by the
//! tier's clearance. The clearance is never below the new circle's own
//! radius, so no two placed circles ever overlap beyond their summed
//! radii — across tiers as well as within one.

use vstd::prelude::*;
use crate::geometry::{Point, Circle, bounded, within, lemma_within_monotonic,
    lemma_within_symmetric};
use crate::flow::{FlowConfig, valid_config};
use crate::rng::RandomSource;
use crate::sampler::{ExhaustedError, random_center, circles_ok};

verus! {

/// The size class a circle was placed in; it only selects its fill color.
#[derive(Clone, Copy, Debug, PartialEq, Eq, Structural)]
pub enum Tier {
    Large,
    Medium,
    Small,
}

/// How many circles one packing pass places.
pub const CIRCLE_COUNT: usize = 100;

/// No two circles of the sequence overlap: each pair of centers lies
/// farther apart than the two radii summed.
pub open spec fn no_overlap(circles: Seq<Circle>) -> bool {
    forall|j: int, k: int|
        0 <= j < k < circles.len() ==> !#[trigger] within(
            circles[j].center,
            circles[k].center,
            circles[j].radius + circles[k].radius,
        )
}

/// The radius of the tier a placement index falls in: ten large circles,
/// then thirty medium, then sixty small.
pub open spec fn spec_tier_radius(i: int) -> int {
    if i < 10 {
        50
    } else if i < 40 {
        20
    } else {
        10
    }
}

/// The clearance the tier of placement index `i` demands around existing
/// circles; never below the tier's own radius.
pub open spec fn spec_tier_clearance(i: int) -> int {
    if i < 10 {
        60
    } else if i < 40 {
        20
    } else {
        10
    }
}

/// The tier tag of placement index `i`.
pub open spec fn spec_tier(i: int) -> Tier {
    if i < 10 {
        Tier::Large
    } else if i < 40 {
        Tier::Medium
    } else {
        Tier::Small
    }
}

/// Packs [`CIRCLE_COUNT`] circles into the canvas, largest tier first.
/// On success the circles follow the tier layout exactly and no two
/// overlap; a density that leaves no room fails with [`ExhaustedError`].
pub fn pack_circles(rng: &mut RandomSource, cfg: &FlowConfig) -> (r: Result<
    Vec<(Circle, Tier)>,
    ExhaustedError,
>)
    requires
        valid_config(*cfg),
    ensures
        match r {
            Result::Ok(placed) => {
                &&& placed@.len() == CIRCLE_COUNT
                &&& no_overlap(placed@.map(|i: int, pc: (Circle, Tier)| pc.0))
                &&& forall|i: int|
                    0 <= i < placed@.len() ==> (#[trigger] placed@[i]).0.radius
                        == spec_tier_radius(i) && placed@[i].1 == spec_tier(i)
                &&& forall|i: int|
                    0 <= i < placed@.len() ==> bounded((#[trigger] placed@[i]).0.center)
                        && 0 <= placed@[i].0.center.x < cfg.width * 1024
                        && 0 <= placed@[i].0.center.y < cfg.height * 1024
            },
            Result::Err(e) => true,
        },
{
    let mut placed: Vec<(Circle, Tier)> = Vec::new();
    let mut centers: Vec<Circle> = Vec::new();
    let mut i: usize = 0;
    while i < CIRCLE_COUNT
        invariant
            valid_config(*cfg),
            i <= CIRCLE_COUNT,
            placed@.len() == i,
            centers@ == placed@.map(|j: int, pc: (Circle, Tier)| pc.0),
            no_overlap(centers@),
            forall|j: int|
                0 <= j < placed@.len() ==> (#[trigger] placed@[j]).0.radius
                    == spec_tier_radius(j) && placed@[j].1 == spec_tier(j),
            forall|j: int|
                0 <= j < placed@.len() ==> bounded((#[trigger] placed@[j]).0.center)
                    && 0 <= placed@[j].0.center.x < cfg.width * 1024
                    && 0 <= placed@[j].0.center.y < cfg.height * 1024,
        decreases CIRCLE_COUNT - i,
    {
        let (radius, clearance, tier): (u32, u32, Tier) = if i < 10 {
            (50, 60, Tier::Large)
        } else if i < 40 {
            (20, 20, Tier::Medium)
        } else {
            (10, 10, Tier::Small)
        };
        proof {
            assert(circles_ok(centers@, clearance as int));
        }
        let center: Point = match random_center(rng, cfg.width, cfg.height, clearance, &centers) {
            Result::Ok(p) => p,
            Result::Err(e) => {
                return Result::Err(e);
            },
        };
        let circle = Circle { center, radius };
        proof {
            assert forall|j: int| 0 <= j < centers@.len() implies !#[trigger] within(
                centers@[j].center,
                circle.center,
                centers@[j].radius + circle.radius,
            ) by {
                if within(centers@[j].center, circle.center, centers@[j].radius + circle.radius) {
                    lemma_within_symmetric(
                        centers@[j].center,
                        circle.center,
                        centers@[j].radius + circle.radius,
                    );
                    lemma_within_monotonic(
                        circle.center,
                        centers@[j].center,
                        centers@[j].radius + circle.radius,
                        centers@[j].radius + clearance,
                    );
                }
            }
        }
        let ghost prev = centers@;
        let ghost prev_placed = placed@;
        placed.push((circle, tier));
        centers.push(circle);
        proof {
            assert(centers@ =~= placed@.map(|j: int, pc: (Circle, Tier)| pc.0));
            assert(placed@[i as int] == (circle, tier) && circle.radius == spec_tier_radius(i as int)
                && tier == spec_tier(i as int));
            assert forall|j: int| 0 <= j < placed@.len() implies (#[trigger] placed@[j]).0.radius
                == spec_tier_radius(j) && placed@[j].1 == spec_tier(j) by {
                assert(placed@ == prev_placed.push((circle, tier)));
                if j < prev_placed.len() {
                    assert(prev_placed[j].0.radius == spec_tier_radius(j)
                        && prev_placed[j].1 == spec_tier(j));
                    assert(placed@[j] == prev_placed[j]);
                } else {
                    assert(placed@[j] == (circle, tier));
                }
            }
            assert forall|j: int, k: int| 0 <= j < k < centers@.len() implies !#[trigger] within(
                centers@[j].center,
                centers@[k].center,
                centers@[j].radius + centers@[k].radius,
            ) by {
                if k < centers@.len() - 1 {
                    assert(!within(prev[j].center, prev[k].center,
                        prev[j].radius + prev[k].radius));
                } else {
                    assert(!within(prev[j].center, circle.center,
                        prev[j].radius + circle.radius));
                }
            }
        }
        i = i + 1;
    }
    Result::Ok(placed)
}

/// The tier of the first placed circle that holds `p` (with no extra
/// inflation), in placement order — the circle that colors a path
/// starting at `p` — or nothing when `p` lies outside every circle.
pub fn first_containing_tier(p: &Point, placed: &Vec<(Circle, Tier)>) -> (r: Option<Tier>)
    requires
        bounded(*p),
        forall|k: int|
            0 <= k < placed@.len() ==> bounded((#[trigger] placed@[k]).0.center)
                && placed@[k].0.radius <= 4096,
    ensures
        match r {
            Option::Some(t) => exists|k: int|
                0 <= k < placed@.len() && #[trigger] within(
                    *p,
                    placed@[k].0.center,
                    placed@[k].0.radius as int,
                ) && t == placed@[k].1 && forall|j: int|
                    0 <= j < k ==> !within(*p, placed@[j].0.center, placed@[j].0.radius as int),
            Option::None => forall|k: int|
                0 <= k < placed@.len() ==> !#[trigger] within(
                    *p,
                    placed@[k].0.center,
                    placed@[k].0.radius as int,
                ),
        },
{
    let mut k: usize = 0;
    while k < placed.len()
        invariant
            bounded(*p),
            k <= placed@.len(),
            forall|j: int|
                0 <= j < placed@.len() ==> bounded((#[trigger] placed@[j]).0.center)
                    && placed@[j].0.radius <= 4096,
            forall|j: int|
                0 <= j < k ==> !#[trigger] within(
                    *p,
                    placed@[j].0.center,
                    placed@[j].0.radius as int,
                ),
        decreases placed@.len() - k,
    {
        let (circle, tier): (Circle, Tier) = placed[k];
        if crate::geometry::in_circle(p, &circle, 0) {
            proof {
                assert(within(*p, placed@[k as int].0.center, placed@[k as int].0.radius as int));
            }
            return Option::Some(tier);
        }
        k = k + 1;
    }
    Option::None
}

} // verus!
