use genny::chords::{chord_paths, make_circle_points, make_square_points, strings_scene};
use genny::color::{color_class, plain_path_color, scheme_colors, tier_color};
use genny::circles::Tier;
use genny::config::{
    apply_message, Msg,
    canvas_size, convert_splits, rescale_aperture, str_eq, strings_radius, ColorScheme, HowMany,
    Mode, ModelProperties, ParseError, Size, StringsModeProps, Variant,
};
use genny::geometry::Point;

#[test]
fn defaults_match_the_documented_configuration() {
    let p = ModelProperties::default();
    assert_eq!(p.version, 2);
    assert_eq!(p.step, 15);
    assert!(!p.arrows_enabled && !p.paths_enabled && !p.circles_enabled);
    assert_eq!(p.color_scheme, ColorScheme::Accented);
    assert_eq!(p.variant, Variant::Filled);
    assert_eq!(p.size, Size::Small);
    let props = match p.mode {
        Mode::Strings(props) => props,
        Mode::Squares => panic!("default mode is strings"),
    };
    assert_eq!(props, StringsModeProps::default());
    assert_eq!(props.splits, HowMany::Lots);
    assert_eq!(props.radius, Size::Large);
    assert!(!props.show_base);
    assert_eq!(props.aperture, 30);
}

#[test]
fn names_round_trip_through_parsing() {
    for v in [Variant::Outline, Variant::Filled] {
        assert_eq!(Variant::from_str(v.name()), Ok(v));
    }
    for s in [Size::Small, Size::Medium, Size::Large] {
        assert_eq!(Size::from_str(s.name()), Ok(s));
    }
    for h in [HowMany::Few, HowMany::Several, HowMany::Lots] {
        assert_eq!(HowMany::from_str(h.name()), Ok(h));
    }
    for c in [
        ColorScheme::Bluish,
        ColorScheme::Tropical,
        ColorScheme::Accented,
        ColorScheme::Pastel,
        ColorScheme::Reddish,
    ] {
        assert_eq!(ColorScheme::from_str(c.name()), Ok(c));
    }
    assert_eq!(Mode::from_str("Squares"), Ok(Mode::Squares));
    assert_eq!(Mode::from_str("Strings"), Ok(Mode::default()));
}

#[test]
fn unknown_names_are_rejected_or_defaulted() {
    assert_eq!(Variant::from_str("outline"), Err(ParseError));
    assert_eq!(Size::from_str("XL"), Err(ParseError));
    assert_eq!(HowMany::from_str("Several"), Err(ParseError));
    assert_eq!(ColorScheme::from_str("neon"), Err(ParseError));
    assert_eq!(Mode::from_str("Spirals"), Err(ParseError));
    assert_eq!(Mode::from_name_or_default("Spirals"), Mode::default());
    assert_eq!(Mode::from_name_or_default("Squares"), Mode::Squares);
}

#[test]
fn string_comparison_is_exact() {
    assert!(str_eq("", ""));
    assert!(str_eq("abc", "abc"));
    assert!(!str_eq("abc", "abd"));
    assert!(!str_eq("abc", "ab"));
}

#[test]
fn canvas_sizes_double_from_the_base() {
    assert_eq!(canvas_size(Size::Small), 170);
    assert_eq!(canvas_size(Size::Medium), 340);
    assert_eq!(canvas_size(Size::Large), 680);
}

#[test]
fn split_counts_and_radii_match_their_classes() {
    assert_eq!(convert_splits(HowMany::Few), 40);
    assert_eq!(convert_splits(HowMany::Several), 80);
    assert_eq!(convert_splits(HowMany::Lots), 160);
    assert_eq!(strings_radius(Size::Small), 15);
    assert_eq!(strings_radius(Size::Medium), 30);
    assert_eq!(strings_radius(Size::Large), 45);
}

#[test]
fn aperture_rescaling_keeps_the_fraction() {
    // 30 of 160, moved to 40 chords: 7.5 rounds up to 8
    assert_eq!(rescale_aperture(30, HowMany::Lots, HowMany::Few), 8);
    assert_eq!(rescale_aperture(30, HowMany::Lots, HowMany::Several), 15);
    assert_eq!(rescale_aperture(8, HowMany::Few, HowMany::Lots), 32);
    assert_eq!(rescale_aperture(0, HowMany::Few, HowMany::Lots), 0);
    assert_eq!(rescale_aperture(100, HowMany::Lots, HowMany::Few), 25);
}

#[test]
fn aperture_rescaling_stays_below_the_new_count() {
    // the last offset of the large ring would round to a full turn of
    // the small ring; it is pulled back to the last valid offset
    assert_eq!(rescale_aperture(159, HowMany::Lots, HowMany::Few), 39);
    assert_eq!(rescale_aperture(159, HowMany::Lots, HowMany::Several), 79);
    assert_eq!(rescale_aperture(39, HowMany::Few, HowMany::Few), 39);
    for a in 0..160usize {
        assert!(rescale_aperture(a, HowMany::Lots, HowMany::Few) < 40);
        assert!(rescale_aperture(a, HowMany::Lots, HowMany::Several) < 80);
    }
}

#[test]
fn color_classes_follow_the_thresholds() {
    assert_eq!(color_class(1, 10), 0);
    assert_eq!(color_class(3, 10), 1);
    assert_eq!(color_class(4, 10), 2);
    assert_eq!(color_class(5, 10), 2);
    assert_eq!(color_class(7, 10), 3);
    assert_eq!(color_class(10, 10), 4);
    // exactly two fifths is not below two fifths
    assert_eq!(color_class(2, 5), 2);
}

#[test]
fn palettes_hold_five_ordered_colors() {
    let accented = scheme_colors(ColorScheme::Accented);
    assert_eq!(
        accented,
        vec!["#011627", "#D5CAD6", "#2EC4B6", "#E71D36", "#FF9F1C"]
    );
    for scheme in [
        ColorScheme::Bluish,
        ColorScheme::Tropical,
        ColorScheme::Accented,
        ColorScheme::Pastel,
        ColorScheme::Reddish,
    ] {
        assert_eq!(scheme_colors(scheme).len(), 5);
    }
    assert_eq!(tier_color(Tier::Large), "#E4572E");
    assert_eq!(tier_color(Tier::Medium), "#F3A712");
    assert_eq!(tier_color(Tier::Small), "#A8C686");
    assert_eq!(plain_path_color(), "#669BBC");
}

#[test]
fn circle_ring_holds_one_point_per_split() {
    let center = Point::from_pixels(85, 85);
    let pts = make_circle_points(40, center, 45);
    assert_eq!(pts.len(), 40);
    // the first point sits exactly one radius left of the center
    assert_eq!(pts[0], Point { x: center.x - 45 * 1024, y: center.y });
    // the quarter-way point sits exactly one radius above the center
    assert_eq!(pts[10], Point { x: center.x, y: center.y - 45 * 1024 });
}

#[test]
fn square_ring_walks_the_four_sides() {
    let corner = Point::from_pixels(8, 8);
    let w = 153 * 1024i64;
    let pts = make_square_points(40, corner, w, w);
    assert_eq!(pts.len(), 40);
    assert_eq!(pts[0], corner);
    // the second side starts at the far corner's column
    assert_eq!(pts[10], Point { x: corner.x + w, y: corner.y });
    assert_eq!(pts[20], Point { x: corner.x + w, y: corner.y + w });
    assert_eq!(pts[30], Point { x: corner.x, y: corner.y + w });
}

#[test]
fn chords_interleave_circle_and_square_points() {
    let center = Point::from_pixels(85, 85);
    let corner = Point::from_pixels(8, 8);
    let w = 153 * 1024i64;
    let circle = make_circle_points(40, center, 45);
    let square = make_square_points(40, corner, w, w);
    let (first, second) = chord_paths(&circle, &square, 7);
    assert_eq!(first.len(), 80);
    assert_eq!(second.len(), 80);
    for k in 0..40usize {
        assert_eq!(first[2 * k], circle[k]);
        assert_eq!(first[2 * k + 1], square[k]);
        assert_eq!(second[2 * k], circle[39 - ((k + 7) % 40)]);
        assert_eq!(second[2 * k + 1], square[39 - k]);
    }
}

#[test]
fn messages_update_exactly_their_field() {
    let p = ModelProperties::default();
    assert!(apply_message(&p, Msg::ToggleArrows).arrows_enabled);
    assert!(apply_message(&p, Msg::TogglePaths).paths_enabled);
    assert!(apply_message(&p, Msg::ToggleCircles).circles_enabled);
    assert_eq!(
        apply_message(&p, Msg::UpdateColor(ColorScheme::Reddish)).color_scheme,
        ColorScheme::Reddish
    );
    assert_eq!(
        apply_message(&p, Msg::UpdateVariant(Variant::Outline)).variant,
        Variant::Outline
    );
    assert_eq!(apply_message(&p, Msg::UpdateSize(Size::Large)).size, Size::Large);
    let toggled = apply_message(&p, Msg::ToggleArrows);
    let switched = apply_message(&toggled, Msg::UpdateMode(Mode::Squares));
    assert_eq!(switched.mode, Mode::Squares);
    assert!(!switched.arrows_enabled && !switched.paths_enabled && !switched.circles_enabled);
}

#[test]
fn changing_the_chord_count_rescales_the_aperture() {
    let p = ModelProperties::default();
    // 30 of 160 chords becomes 8 of 40
    let next = apply_message(&p, Msg::UpdateStringsSplits(HowMany::Few));
    match next.mode {
        Mode::Strings(props) => {
            assert_eq!(props.splits, HowMany::Few);
            assert_eq!(props.aperture, 8);
        }
        Mode::Squares => panic!("mode does not change"),
    }
    let next = apply_message(&p, Msg::UpdateStringsAperture(100));
    match next.mode {
        Mode::Strings(props) => assert_eq!(props.aperture, 100),
        Mode::Squares => panic!("mode does not change"),
    }
    let next = apply_message(&p, Msg::UpdateStringsRadius(Size::Small));
    match next.mode {
        Mode::Strings(props) => assert_eq!(props.radius, Size::Small),
        Mode::Squares => panic!("mode does not change"),
    }
    // a last-offset state keeps a valid offset after the count shrinks
    let edge = apply_message(&p, Msg::UpdateStringsAperture(159));
    let next = apply_message(&edge, Msg::UpdateStringsSplits(HowMany::Few));
    match next.mode {
        Mode::Strings(props) => {
            assert_eq!(props.splits, HowMany::Few);
            assert_eq!(props.aperture, 39);
        }
        Mode::Squares => panic!("mode does not change"),
    }
}

#[test]
fn strings_scene_uses_the_configured_splits() {
    let props = StringsModeProps::default();
    let (circle, square, first, second) = strings_scene(170, &props);
    assert_eq!(circle.len(), 160);
    assert_eq!(square.len(), 160);
    assert_eq!(first.len(), 320);
    assert_eq!(second.len(), 320);
    assert_eq!(first[0], circle[0]);
    assert_eq!(first[1], square[0]);
    assert_eq!(second[1], square[159]);
}
