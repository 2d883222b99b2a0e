//! Generation parameters: the mode, canvas size class, palette choice and
//! per-mode settings, together with their persisted-name round trips and
//! the defaults a boundary layer falls back to.

use vstd::prelude::*;
use vstd::utf8::{encode_utf8, encode_utf8_decode_utf8};
use crate::geometry::Point;
use crate::flow::FlowConfig;

verus! {

/// How grid cells are drawn; it never changes the geometry.
#[derive(Clone, Copy, Debug, PartialEq, Eq, Structural)]
pub enum Variant {
    Outline,
    Filled,
}

/// The canvas size class.
#[derive(Clone, Copy, Debug, PartialEq, Eq, Structural)]
pub enum Size {
    Small,
    Medium,
    Large,
}

/// How many chords the strings mode draws.
#[derive(Clone, Copy, Debug, PartialEq, Eq, Structural)]
pub enum HowMany {
    Few,
    Several,
    Lots,
}

/// The five-color palette used for clusters, circles and paths.
#[derive(Clone, Copy, Debug, PartialEq, Eq, Structural)]
pub enum ColorScheme {
    Bluish,
    Tropical,
    Accented,
    Pastel,
    Reddish,
}

/// The settings of the strings mode: how many chords, the circle's size
/// class, whether the base shapes show, and the pairing offset.
#[derive(Clone, Copy, Debug, PartialEq, Eq, Structural)]
pub struct StringsModeProps {
    pub splits: HowMany,
    pub radius: Size,
    pub show_base: bool,
    pub aperture: usize,
}

/// The generation mode, each variant carrying only its own parameters.
#[derive(Clone, Copy, Debug, PartialEq, Eq, Structural)]
pub enum Mode {
    Squares,
    Strings(StringsModeProps),
}

/// Everything one generation pass is configured by.
#[derive(Clone, Copy, Debug, PartialEq, Eq, Structural)]
pub struct ModelProperties {
    pub step: u32,
    pub arrows_enabled: bool,
    pub paths_enabled: bool,
    pub circles_enabled: bool,
    pub color_scheme: ColorScheme,
    pub variant: Variant,
    pub size: Size,
    pub mode: Mode,
    pub version: i32,
}

/// The default strings-mode settings.
pub open spec fn spec_default_strings_props() -> StringsModeProps {
    StringsModeProps { splits: HowMany::Lots, radius: Size::Large, show_base: false, aperture: 30 }
}

impl Default for StringsModeProps {
    /// The documented default strings-mode settings.
    fn default() -> (r: Self)
        ensures
            r == spec_default_strings_props(),
    {
        StringsModeProps {
            splits: HowMany::Lots,
            radius: Size::Large,
            show_base: false,
            aperture: 30,
        }
    }
}

impl Default for Mode {
    /// Strings mode with its defaults.
    fn default() -> (r: Self)
        ensures
            r == Mode::Strings(spec_default_strings_props()),
    {
        Mode::Strings(StringsModeProps::default())
    }
}

/// The documented default configuration.
pub open spec fn spec_default_properties() -> ModelProperties {
    ModelProperties {
        step: 15,
        arrows_enabled: false,
        paths_enabled: false,
        circles_enabled: false,
        color_scheme: ColorScheme::Accented,
        variant: Variant::Filled,
        size: Size::Small,
        mode: Mode::Strings(spec_default_strings_props()),
        version: 2,
    }
}

impl Default for ModelProperties {
    /// The configuration a boundary layer substitutes for missing,
    /// corrupt or version-mismatched persisted data.
    fn default() -> (r: Self)
        ensures
            r == spec_default_properties(),
    {
        ModelProperties {
            step: 15,
            arrows_enabled: false,
            paths_enabled: false,
            circles_enabled: false,
            color_scheme: ColorScheme::Accented,
            variant: Variant::Filled,
            size: Size::Small,
            mode: Mode::default(),
            version: 2,
        }
    }
}

/// Whether two strings hold the same characters.
pub fn str_eq(a: &str, b: &str) -> (r: bool)
    ensures
        r == (a@ == b@),
{
    proof {
        encode_utf8_decode_utf8(a@);
        encode_utf8_decode_utf8(b@);
    }
    let ab: &[u8] = a.as_bytes();
    let bb: &[u8] = b.as_bytes();
    if ab.len() != bb.len() {
        proof {
            assert(a@ != b@);
        }
        return false;
    }
    let mut i: usize = 0;
    while i < ab.len()
        invariant
            ab@ == encode_utf8(a@),
            bb@ == encode_utf8(b@),
            ab@.len() == bb@.len(),
            i <= ab@.len(),
            forall|j: int| 0 <= j < i ==> ab@[j] == bb@[j],
        decreases ab@.len() - i,
    {
        if ab[i] != bb[i] {
            proof {
                assert(encode_utf8(a@)[i as int] != encode_utf8(b@)[i as int]);
            }
            return false;
        }
        i = i + 1;
    }
    proof {
        assert(ab@ =~= bb@);
        encode_utf8_decode_utf8(a@);
        encode_utf8_decode_utf8(b@);
    }
    true
}


/// The persisted variant names are distinct.
proof fn variant_name_facts()
    ensures
        "Outline"@ != "Filled"@,
{
    reveal_strlit("Outline");
    reveal_strlit("Filled");
    assert("Outline"@.len() == 7);
    assert("Filled"@.len() == 6);
}

/// The persisted-name parse of a draw variant.
pub open spec fn spec_parse_variant(s: Seq<char>) -> Option<Variant> {
    if s == "Outline"@ {
        Option::Some(Variant::Outline)
    } else if s == "Filled"@ {
        Option::Some(Variant::Filled)
    } else {
        Option::None
    }
}

impl Variant {
    /// The name this variant is persisted and shown under.
    pub fn name(&self) -> (r: &'static str)
        ensures
            spec_parse_variant(r@) == Option::Some(*self),
    {
        proof {
            variant_name_facts();
        }
        match self {
            Variant::Outline => "Outline",
            Variant::Filled => "Filled",
        }
    }

    /// Parses a persisted variant name; anything unknown is an error for
    /// the boundary layer to replace with a default.
    pub fn from_str(s: &str) -> (r: Result<Variant, ParseError>)
        ensures
            match r {
                Result::Ok(v) => spec_parse_variant(s@) == Option::Some(v),
                Result::Err(e) => spec_parse_variant(s@) is None,
            },
    {
        if str_eq(s, "Outline") {
            Result::Ok(Variant::Outline)
        } else if str_eq(s, "Filled") {
            Result::Ok(Variant::Filled)
        } else {
            Result::Err(ParseError)
        }
    }
}

/// A persisted name did not match anything known.
#[derive(Clone, Copy, Debug, PartialEq, Eq, Structural)]
pub struct ParseError;


/// The persisted size names are distinct.
proof fn size_name_facts()
    ensures
        "S"@ != "M"@,
        "S"@ != "L"@,
        "M"@ != "L"@,
{
    reveal_strlit("S");
    reveal_strlit("M");
    reveal_strlit("L");
    assert("S"@[0] == 'S' && "M"@[0] == 'M' && "L"@[0] == 'L');
}

/// The persisted-name parse of a size class.
pub open spec fn spec_parse_size(s: Seq<char>) -> Option<Size> {
    if s == "S"@ {
        Option::Some(Size::Small)
    } else if s == "M"@ {
        Option::Some(Size::Medium)
    } else if s == "L"@ {
        Option::Some(Size::Large)
    } else {
        Option::None
    }
}

impl Size {
    /// The name this size class is persisted and shown under.
    pub fn name(&self) -> (r: &'static str)
        ensures
            spec_parse_size(r@) == Option::Some(*self),
    {
        proof {
            size_name_facts();
        }
        match self {
            Size::Small => "S",
            Size::Medium => "M",
            Size::Large => "L",
        }
    }

    /// Parses a persisted size name.
    pub fn from_str(s: &str) -> (r: Result<Size, ParseError>)
        ensures
            match r {
                Result::Ok(v) => spec_parse_size(s@) == Option::Some(v),
                Result::Err(e) => spec_parse_size(s@) is None,
            },
    {
        if str_eq(s, "S") {
            Result::Ok(Size::Small)
        } else if str_eq(s, "M") {
            Result::Ok(Size::Medium)
        } else if str_eq(s, "L") {
            Result::Ok(Size::Large)
        } else {
            Result::Err(ParseError)
        }
    }
}


/// The persisted chord-count names are distinct.
proof fn how_many_name_facts()
    ensures
        "Few"@ != "Some"@,
        "Few"@ != "Lots"@,
        "Some"@ != "Lots"@,
{
    reveal_strlit("Few");
    reveal_strlit("Some");
    reveal_strlit("Lots");
    assert("Few"@.len() == 3 && "Some"@.len() == 4 && "Lots"@.len() == 4);
    assert("Some"@[0] == 'S' && "Lots"@[0] == 'L');
}

/// The persisted-name parse of a chord count; the middle class persists
/// under a name of its own.
pub open spec fn spec_parse_how_many(s: Seq<char>) -> Option<HowMany> {
    if s == "Few"@ {
        Option::Some(HowMany::Few)
    } else if s == "Some"@ {
        Option::Some(HowMany::Several)
    } else if s == "Lots"@ {
        Option::Some(HowMany::Lots)
    } else {
        Option::None
    }
}

impl HowMany {
    /// The name this chord count is persisted and shown under.
    pub fn name(&self) -> (r: &'static str)
        ensures
            spec_parse_how_many(r@) == Option::Some(*self),
    {
        proof {
            how_many_name_facts();
        }
        match self {
            HowMany::Few => "Few",
            HowMany::Several => "Some",
            HowMany::Lots => "Lots",
        }
    }

    /// Parses a persisted chord count name.
    pub fn from_str(s: &str) -> (r: Result<HowMany, ParseError>)
        ensures
            match r {
                Result::Ok(v) => spec_parse_how_many(s@) == Option::Some(v),
                Result::Err(e) => spec_parse_how_many(s@) is None,
            },
    {
        if str_eq(s, "Few") {
            Result::Ok(HowMany::Few)
        } else if str_eq(s, "Some") {
            Result::Ok(HowMany::Several)
        } else if str_eq(s, "Lots") {
            Result::Ok(HowMany::Lots)
        } else {
            Result::Err(ParseError)
        }
    }
}


/// The persisted mode names are distinct.
proof fn mode_name_facts()
    ensures
        "Squares"@ != "Strings"@,
{
    reveal_strlit("Squares");
    reveal_strlit("Strings");
    assert("Squares"@.len() == 7 && "Strings"@.len() == 7);
    assert("Squares"@[1] == 'q' && "Strings"@[1] == 't');
}

/// The persisted-name parse of a mode. The strings mode always starts
/// from its default settings.
pub open spec fn spec_parse_mode(s: Seq<char>) -> Option<Mode> {
    if s == "Squares"@ {
        Option::Some(Mode::Squares)
    } else if s == "Strings"@ {
        Option::Some(Mode::Strings(spec_default_strings_props()))
    } else {
        Option::None
    }
}

impl Mode {
    /// The name this mode is persisted and shown under.
    pub fn name(&self) -> (r: &'static str)
        ensures
            match *self {
                Mode::Squares => r@ == "Squares"@,
                Mode::Strings(p) => r@ == "Strings"@,
            },
    {
        match self {
            Mode::Squares => "Squares",
            Mode::Strings(_) => "Strings",
        }
    }

    /// Parses a persisted mode name.
    pub fn from_str(s: &str) -> (r: Result<Mode, ParseError>)
        ensures
            match r {
                Result::Ok(v) => spec_parse_mode(s@) == Option::Some(v),
                Result::Err(e) => spec_parse_mode(s@) is None,
            },
    {
        if str_eq(s, "Squares") {
            Result::Ok(Mode::Squares)
        } else if str_eq(s, "Strings") {
            Result::Ok(Mode::Strings(StringsModeProps::default()))
        } else {
            Result::Err(ParseError)
        }
    }

    /// Parses a persisted mode name, falling back to the default mode
    /// for anything unknown.
    pub fn from_name_or_default(s: &str) -> (r: Mode)
        ensures
            r == (match spec_parse_mode(s@) {
                Option::Some(m) => m,
                Option::None => Mode::Strings(spec_default_strings_props()),
            }),
    {
        match Mode::from_str(s) {
            Result::Ok(m) => m,
            Result::Err(e) => Mode::default(),
        }
    }
}


/// The persisted palette names are distinct.
proof fn scheme_name_facts()
    ensures
        "bluish"@ != "tropical"@,
        "bluish"@ != "accented"@,
        "bluish"@ != "pastel"@,
        "bluish"@ != "reddish"@,
        "tropical"@ != "accented"@,
        "tropical"@ != "pastel"@,
        "tropical"@ != "reddish"@,
        "accented"@ != "pastel"@,
        "accented"@ != "reddish"@,
        "pastel"@ != "reddish"@,
{
    reveal_strlit("bluish");
    reveal_strlit("tropical");
    reveal_strlit("accented");
    reveal_strlit("pastel");
    reveal_strlit("reddish");
    assert("bluish"@.len() == 6 && "tropical"@.len() == 8 && "accented"@.len() == 8
        && "pastel"@.len() == 6 && "reddish"@.len() == 7);
    assert("bluish"@[0] == 'b' && "tropical"@[0] == 't' && "accented"@[0] == 'a'
        && "pastel"@[0] == 'p');
}

/// The persisted-name parse of a palette.
pub open spec fn spec_parse_scheme(s: Seq<char>) -> Option<ColorScheme> {
    if s == "bluish"@ {
        Option::Some(ColorScheme::Bluish)
    } else if s == "tropical"@ {
        Option::Some(ColorScheme::Tropical)
    } else if s == "accented"@ {
        Option::Some(ColorScheme::Accented)
    } else if s == "pastel"@ {
        Option::Some(ColorScheme::Pastel)
    } else if s == "reddish"@ {
        Option::Some(ColorScheme::Reddish)
    } else {
        Option::None
    }
}

impl ColorScheme {
    /// The name this palette is persisted and shown under.
    pub fn name(&self) -> (r: &'static str)
        ensures
            spec_parse_scheme(r@) == Option::Some(*self),
    {
        proof {
            scheme_name_facts();
        }
        match self {
            ColorScheme::Bluish => "bluish",
            ColorScheme::Tropical => "tropical",
            ColorScheme::Accented => "accented",
            ColorScheme::Pastel => "pastel",
            ColorScheme::Reddish => "reddish",
        }
    }

    /// Parses a persisted palette name.
    pub fn from_str(s: &str) -> (r: Result<ColorScheme, ParseError>)
        ensures
            match r {
                Result::Ok(v) => spec_parse_scheme(s@) == Option::Some(v),
                Result::Err(e) => spec_parse_scheme(s@) is None,
            },
    {
        proof {
            scheme_name_facts();
        }
        if str_eq(s, "bluish") {
            Result::Ok(ColorScheme::Bluish)
        } else if str_eq(s, "tropical") {
            Result::Ok(ColorScheme::Tropical)
        } else if str_eq(s, "pastel") {
            Result::Ok(ColorScheme::Pastel)
        } else if str_eq(s, "reddish") {
            Result::Ok(ColorScheme::Reddish)
        } else if str_eq(s, "accented") {
            Result::Ok(ColorScheme::Accented)
        } else {
            Result::Err(ParseError)
        }
    }
}

/// The canvas side length of a size class, in pixels.
pub open spec fn spec_canvas_size(s: Size) -> int {
    match s {
        Size::Small => 170,
        Size::Medium => 340,
        Size::Large => 680,
    }
}

/// The canvas side length of a size class: the base size, doubled and
/// quadrupled for the larger classes. Width and height are equal.
pub fn canvas_size(s: Size) -> (r: u32)
    ensures
        r == spec_canvas_size(s),
{
    match s {
        Size::Small => 170,
        Size::Medium => 340,
        Size::Large => 680,
    }
}

/// How many chords each chord-count class draws.
pub open spec fn spec_convert_splits(h: HowMany) -> int {
    match h {
        HowMany::Few => 40,
        HowMany::Several => 80,
        HowMany::Lots => 160,
    }
}

/// How many chords each chord-count class draws.
pub fn convert_splits(h: HowMany) -> (r: u32)
    ensures
        r == spec_convert_splits(h),
{
    match h {
        HowMany::Few => 40,
        HowMany::Several => 80,
        HowMany::Lots => 160,
    }
}

/// The strings-mode circle radius of a size class, in pixels.
pub fn strings_radius(s: Size) -> (r: u32)
    ensures
        s == Size::Small ==> r == 15,
        s == Size::Medium ==> r == 30,
        s == Size::Large ==> r == 45,
{
    match s {
        Size::Small => 15,
        Size::Medium => 30,
        Size::Large => 45,
    }
}

/// When the chord count changes, the pairing offset is rescaled to the
/// same fraction of the new count, rounded to the nearest whole offset
/// and kept below the new count.
pub open spec fn spec_rescale_aperture(aperture: int, from: HowMany, to: HowMany) -> int {
    let scaled = (2 * aperture * spec_convert_splits(to) + spec_convert_splits(from)) / (2
        * spec_convert_splits(from));
    if scaled >= spec_convert_splits(to) {
        spec_convert_splits(to) - 1
    } else {
        scaled
    }
}

/// Rescales the pairing offset to a new chord count, keeping its
/// fraction of the full count; a full-circle offset is pulled back to
/// the last valid one, so the result always stays below the new count.
pub fn rescale_aperture(aperture: usize, from: HowMany, to: HowMany) -> (r: usize)
    requires
        aperture <= 65536,
    ensures
        r == spec_rescale_aperture(aperture as int, from, to),
        r < spec_convert_splits(to),
{
    let f: u64 = convert_splits(from) as u64;
    let t: u64 = convert_splits(to) as u64;
    proof {
        assert(0 <= 2 * (aperture as int) * (t as int) <= 20971520int) by (nonlinear_arith)
            requires
                aperture <= 65536,
                0 <= t <= 160,
        ;
    }
    let r: u64 = (2 * (aperture as u64) * t + f) / (2 * f);
    proof {
        vstd::arithmetic::div_mod::lemma_div_nonincreasing(
            2 * (aperture as int) * (t as int) + f,
            2 * (f as int),
        );
        vstd::arithmetic::div_mod::lemma_div_pos_is_pos(
            2 * (aperture as int) * (t as int) + f,
            2 * (f as int),
        );
    }
    if r >= t {
        (t - 1) as usize
    } else {
        r as usize
    }
}

/// The flow parameters a configuration stands for: a square canvas of
/// the configured size class, the configured step, and the fixed focal
/// point of the directional bias.
pub fn flow_config(p: &ModelProperties) -> (cfg: FlowConfig)
    requires
        1 <= p.step <= 4096,
    ensures
        cfg.width == spec_canvas_size(p.size),
        cfg.height == spec_canvas_size(p.size),
        cfg.step == p.step,
        cfg.focal == Option::Some(Point { x: 256000, y: 256000 }),
        crate::flow::valid_config(cfg),
{
    let side: u32 = canvas_size(p.size);
    FlowConfig {
        width: side,
        height: side,
        step: p.step,
        focal: Option::Some(Point::from_pixels(250, 250)),
    }
}

/// One user decision over the configuration.
#[derive(Clone, Copy, Debug, PartialEq, Eq, Structural)]
pub enum Msg {
    ToggleArrows,
    TogglePaths,
    ToggleCircles,
    UpdateColor(ColorScheme),
    UpdateVariant(Variant),
    UpdateSize(Size),
    UpdateMode(Mode),
    UpdateStringsRadius(Size),
    UpdateStringsSplits(HowMany),
    UpdateStringsAperture(usize),
}

/// Whether a message touches only the strings mode's settings; such a
/// message is meaningless - and rejected - outside that mode.
pub open spec fn strings_only(msg: Msg) -> bool {
    match msg {
        Msg::UpdateStringsRadius(s) => true,
        Msg::UpdateStringsSplits(h) => true,
        Msg::UpdateStringsAperture(a) => true,
        _ => false,
    }
}

/// The configuration after one user decision: toggles flip their layer,
/// updates replace their field, a mode switch turns every layer off, and
/// a chord-count change rescales the aperture to the same fraction of
/// the new count.
pub fn apply_message(p: &ModelProperties, msg: Msg) -> (next: ModelProperties)
    requires
        strings_only(msg) ==> p.mode is Strings,
        p.mode is Strings ==> (p.mode matches Mode::Strings(props) && props.aperture <= 65536),
    ensures
        msg == Msg::ToggleArrows ==> next == (ModelProperties {
            arrows_enabled: !p.arrows_enabled,
            ..*p
        }),
        msg == Msg::TogglePaths ==> next == (ModelProperties {
            paths_enabled: !p.paths_enabled,
            ..*p
        }),
        msg == Msg::ToggleCircles ==> next == (ModelProperties {
            circles_enabled: !p.circles_enabled,
            ..*p
        }),
        forall|c: ColorScheme|
            msg == Msg::UpdateColor(c) ==> next == (ModelProperties { color_scheme: c, ..*p }),
        forall|v: Variant|
            msg == Msg::UpdateVariant(v) ==> next == (ModelProperties { variant: v, ..*p }),
        forall|s: Size| msg == Msg::UpdateSize(s) ==> next == (ModelProperties { size: s, ..*p }),
        forall|m: Mode|
            msg == Msg::UpdateMode(m) ==> next == (ModelProperties {
                mode: m,
                arrows_enabled: false,
                paths_enabled: false,
                circles_enabled: false,
                ..*p
            }),
        forall|s: Size, props: StringsModeProps|
            msg == Msg::UpdateStringsRadius(s) && p.mode == Mode::Strings(props) ==> next == (
            ModelProperties { mode: Mode::Strings(StringsModeProps { radius: s, ..props }), ..*p }),
        forall|h: HowMany, props: StringsModeProps|
            msg == Msg::UpdateStringsSplits(h) && p.mode == Mode::Strings(props) ==> next == (
            ModelProperties {
                mode: Mode::Strings(
                    StringsModeProps {
                        splits: h,
                        aperture: spec_rescale_aperture(
                            props.aperture as int,
                            props.splits,
                            h,
                        ) as usize,
                        ..props
                    },
                ),
                ..*p
            }),
        forall|a: usize, props: StringsModeProps|
            msg == Msg::UpdateStringsAperture(a) && p.mode == Mode::Strings(props) ==> next == (
            ModelProperties { mode: Mode::Strings(StringsModeProps { aperture: a, ..props }), ..*p
            }),
{
    match msg {
        Msg::ToggleArrows => ModelProperties { arrows_enabled: !p.arrows_enabled, ..*p },
        Msg::TogglePaths => ModelProperties { paths_enabled: !p.paths_enabled, ..*p },
        Msg::ToggleCircles => ModelProperties { circles_enabled: !p.circles_enabled, ..*p },
        Msg::UpdateColor(c) => ModelProperties { color_scheme: c, ..*p },
        Msg::UpdateVariant(v) => ModelProperties { variant: v, ..*p },
        Msg::UpdateSize(s) => ModelProperties { size: s, ..*p },
        Msg::UpdateMode(m) => ModelProperties {
            mode: m,
            arrows_enabled: false,
            paths_enabled: false,
            circles_enabled: false,
            ..*p
        },
        Msg::UpdateStringsRadius(s) => {
            match p.mode {
                Mode::Strings(props) => ModelProperties {
                    mode: Mode::Strings(StringsModeProps { radius: s, ..props }),
                    ..*p
                },
                Mode::Squares => *p,
            }
        },
        Msg::UpdateStringsSplits(h) => {
            match p.mode {
                Mode::Strings(props) => {
                    let aperture: usize = rescale_aperture(props.aperture, props.splits, h);
                    ModelProperties {
                        mode: Mode::Strings(StringsModeProps { splits: h, aperture, ..props }),
                        ..*p
                    }
                },
                Mode::Squares => *p,
            }
        },
        Msg::UpdateStringsAperture(a) => {
            match p.mode {
                Mode::Strings(props) => ModelProperties {
                    mode: Mode::Strings(StringsModeProps { aperture: a, ..props }),
                    ..*p
                },
                Mode::Squares => *p,
            }
        },
    }
}

} // verus!
