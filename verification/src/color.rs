//! Color selection: the palettes and the bucketing of cluster sizes into
//! color classes.
//!
//! Each palette is an ordered list of five colors. A cell's class is a
//! pure function of its own cluster's size and the largest cluster size
//! of the lattice: isolated cells, then clusters under two fifths of the
//! largest, under three fifths, the largest itself, and the rest.

use vstd::prelude::*;
use crate::config::ColorScheme;
use crate::circles::Tier;

verus! {

/// The color class of a cluster: an index into the five-color palette.
/// Exactly the fractional thresholds, in whole numbers.
pub open spec fn spec_color_class(size: int, max: int) -> int {
    if size == 1 {
        0
    } else if 5 * size < 2 * max {
        1
    } else if 5 * size < 3 * max {
        2
    } else if size == max {
        4
    } else {
        3
    }
}

/// The color class of a cluster of `size` cells when the largest cluster
/// of the lattice holds `max` cells.
pub fn color_class(size: usize, max: usize) -> (r: usize)
    requires
        size <= 16777216,
        max <= 16777216,
    ensures
        r == spec_color_class(size as int, max as int),
        r < 5,
{
    if size == 1 {
        0
    } else if 5 * (size as u64) < 2 * (max as u64) {
        1
    } else if 5 * (size as u64) < 3 * (max as u64) {
        2
    } else if size == max {
        4
    } else {
        3
    }
}

/// The five colors of a palette, in class order.
pub fn scheme_colors(s: ColorScheme) -> (r: Vec<&'static str>)
    ensures
        r@.len() == 5,
        s == ColorScheme::Bluish ==> r@[0]@ == "#CDC392"@ && r@[1]@ == "#E8E5DA"@ && r@[2]@
            == "#9EB7E5"@ && r@[3]@ == "#648DE5"@ && r@[4]@ == "#304C89"@,
        s == ColorScheme::Tropical ==> r@[0]@ == "#BF3100"@ && r@[1]@ == "#8EA604"@ && r@[2]@
            == "#D76A03"@ && r@[3]@ == "#EC9F05"@ && r@[4]@ == "#F5BB00"@,
        s == ColorScheme::Accented ==> r@[0]@ == "#011627"@ && r@[1]@ == "#D5CAD6"@ && r@[2]@
            == "#2EC4B6"@ && r@[3]@ == "#E71D36"@ && r@[4]@ == "#FF9F1C"@,
        s == ColorScheme::Pastel ==> r@[0]@ == "#1A535C"@ && r@[1]@ == "#4ECDC4"@ && r@[2]@
            == "#721817"@ && r@[3]@ == "#FF6B6B"@ && r@[4]@ == "#F49D37"@,
        s == ColorScheme::Reddish ==> r@[0]@ == "#370617"@ && r@[1]@ == "#DC2F02"@ && r@[2]@
            == "#F48C06"@ && r@[3]@ == "#FFBA08"@ && r@[4]@ == "#9D0208"@,
{
    match s {
        ColorScheme::Bluish => vec!["#CDC392", "#E8E5DA", "#9EB7E5", "#648DE5", "#304C89"],
        ColorScheme::Tropical => vec!["#BF3100", "#8EA604", "#D76A03", "#EC9F05", "#F5BB00"],
        ColorScheme::Accented => vec!["#011627", "#D5CAD6", "#2EC4B6", "#E71D36", "#FF9F1C"],
        ColorScheme::Pastel => vec!["#1A535C", "#4ECDC4", "#721817", "#FF6B6B", "#F49D37"],
        ColorScheme::Reddish => vec!["#370617", "#DC2F02", "#F48C06", "#FFBA08", "#9D0208"],
    }
}

/// The fixed display color of a circle tier.
pub fn tier_color(t: Tier) -> (r: &'static str)
    ensures
        t == Tier::Large ==> r@ == "#E4572E"@,
        t == Tier::Medium ==> r@ == "#F3A712"@,
        t == Tier::Small ==> r@ == "#A8C686"@,
{
    match t {
        Tier::Large => "#E4572E",
        Tier::Medium => "#F3A712",
        Tier::Small => "#A8C686",
    }
}

/// The stroke color of a path that starts outside every circle.
pub fn plain_path_color() -> (r: &'static str)
    ensures
        r@ == "#669BBC"@,
{
    "#669BBC"
}

} // verus!
