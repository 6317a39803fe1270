use vstd::prelude::*;
use bevy_turborand::prelude::GlobalRng;
use crate::rng::draw_in;

verus! {

/// A color in hue / saturation / lightness / alpha form, in fixed point:
/// `hue` in tenths of a degree, the other channels in units of 1/10000.
#[derive(Clone, Copy, Debug, PartialEq, Eq, Structural)]
pub struct Hsla {
    pub hue: u64,
    pub saturation: u64,
    pub lightness: u64,
    pub alpha: u64,
}

/// The same color with its lightness halved, rounding down (generated colors
/// have an even lightness, so for them it is exact).
pub open spec fn darkened(c: Hsla) -> Hsla {
    Hsla { lightness: c.lightness / 2, ..c }
}

/// Channel-wise sum of two colors, without clamping or wrapping: a sum of
/// saturations above 1 (10000) stays as it is.
pub open spec fn sum(a: Hsla, b: Hsla) -> Hsla {
    Hsla {
        hue: (a.hue + b.hue) as u64,
        saturation: (a.saturation + b.saturation) as u64,
        lightness: (a.lightness + b.lightness) as u64,
        alpha: (a.alpha + b.alpha) as u64,
    }
}

/// The color of a group formed from `a` and `b`.
pub open spec fn combined(a: Hsla, b: Hsla) -> Hsla {
    sum(darkened(a), darkened(b))
}

/// Whether the channel-wise sum of the darkened colors fits in the representation.
pub open spec fn combinable(a: Hsla, b: Hsla) -> bool {
    &&& a.hue + b.hue <= u64::MAX
    &&& a.saturation + b.saturation <= u64::MAX
    &&& a.lightness / 2 + b.lightness / 2 <= u64::MAX
    &&& a.alpha + b.alpha <= u64::MAX
}

impl Hsla {
    /// The color with the given channels, in the units of the fields.
    pub fn hsla(hue: u64, saturation: u64, lightness: u64, alpha: u64) -> (r: Hsla)
        ensures
            r == (Hsla { hue, saturation, lightness, alpha }),
    {
        Hsla { hue, saturation, lightness, alpha }
    }

    /// This color with its lightness halved; the other channels are kept.
    pub fn dark(self) -> (r: Hsla)
        ensures
            r == darkened(self),
    {
        Hsla { lightness: self.lightness / 2, ..self }
    }
}

/// Alpha of every generated color (0.7).
pub const ALPHA: u64 = 7000;

/// Range of the hue draw, in tenths of a degree.
pub const HUE_TENTHS: usize = 3600;
/// Range of the saturation draw, in thousandths.
pub const SATURATION_MIN: usize = 200;
pub const SATURATION_END: usize = 900;
/// Range of the lightness draw, in thousandths.
pub const LIGHTNESS_MIN: usize = 600;
pub const LIGHTNESS_END: usize = 900;

/// The band that generated colors lie in: hue in [0, 360), saturation in
/// [0.2, 0.9), lightness in [0.6, 0.9), saturation and lightness in whole
/// thousandths, alpha 0.7.
pub open spec fn in_band(c: Hsla) -> bool {
    &&& c.hue < HUE_TENTHS
    &&& 10 * SATURATION_MIN <= c.saturation < 10 * SATURATION_END
    &&& 10 * LIGHTNESS_MIN <= c.lightness < 10 * LIGHTNESS_END
    &&& c.alpha == ALPHA
    &&& c.saturation % 10 == 0
    &&& c.lightness % 10 == 0
}

/// The color given by three draws: hue in tenths of a degree, saturation and
/// lightness in thousandths.
pub fn color_from_draws(hue_tenths: u64, saturation_milli: u64, lightness_milli: u64) -> (r: Hsla)
    requires
        saturation_milli <= u64::MAX / 10,
        lightness_milli <= u64::MAX / 10,
    ensures
        r == (Hsla {
            hue: hue_tenths,
            saturation: (10 * saturation_milli) as u64,
            lightness: (10 * lightness_milli) as u64,
            alpha: ALPHA,
        }),
{
    Hsla { hue: hue_tenths, saturation: 10 * saturation_milli, lightness: 10 * lightness_milli, alpha: ALPHA }
}

/// A random color of pleasant tone: hue, saturation and lightness are drawn
/// from `rng`, alpha is fixed.
pub fn random_color(rng: &mut GlobalRng) -> (r: Hsla)
    ensures
        in_band(r),
{
    let hue = draw_in(rng, 0, HUE_TENTHS);
    let saturation = draw_in(rng, SATURATION_MIN, SATURATION_END);
    let lightness = draw_in(rng, LIGHTNESS_MIN, LIGHTNESS_END);
    color_from_draws(hue as u64, saturation as u64, lightness as u64)
}

/// A group of two circles: the color it shows and the colors of its members.
#[derive(Clone, Copy, Debug)]
pub struct CircleGroup {
    pub combined_color: Hsla,
    pub individual_colors: (Hsla, Hsla),
}

impl CircleGroup {
    /// The group of a circle of color `one` and a circle of color `two`: each
    /// color is darkened (lightness halved) and the two are summed channel-wise.
    pub fn from_colors(one: Hsla, two: Hsla) -> (r: CircleGroup)
        requires
            combinable(one, two),
        ensures
            r.combined_color == combined(one, two),
            r.individual_colors == (one, two),
    {
        let a = one.dark();
        let b = two.dark();
        let combined_color = Hsla {
            hue: a.hue + b.hue,
            saturation: a.saturation + b.saturation,
            lightness: a.lightness + b.lightness,
            alpha: a.alpha + b.alpha,
        };
        CircleGroup { combined_color, individual_colors: (one, two) }
    }
}

/// Combining is a function of the two colors alone: groups formed by
/// `CircleGroup::from_colors` from equal colors are equal, in the color they
/// show and in the colors they keep.
pub proof fn lemma_combine_deterministic(
    a1: Hsla,
    b1: Hsla,
    a2: Hsla,
    b2: Hsla,
    g1: CircleGroup,
    g2: CircleGroup,
)
    requires
        a1 == a2,
        b1 == b2,
        g1.combined_color == combined(a1, b1),
        g1.individual_colors == (a1, b1),
        g2.combined_color == combined(a2, b2),
        g2.individual_colors == (a2, b2),
    ensures
        g1.combined_color == g2.combined_color,
        g1.individual_colors == g2.individual_colors,
{
}

/// In this representation combining is commutative: no channel is clamped or
/// wrapped, so the order of the two colors does not change the result.
pub proof fn lemma_combine_commutative(a: Hsla, b: Hsla)
    ensures
        combined(a, b) == combined(b, a),
{
}

} // verus!
