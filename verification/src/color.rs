//! Colors in two forms: fixed-point channels in `[0, SCALE]` and
//! eight-bit integer channels in `[0, 255]`, with clamping conversions.

use vstd::prelude::*;
use crate::fixed::{SCALE, MAX_COORD, tdiv, fmul_spec, clamp_spec, fmul, div_t, clamp,
    lemma_tdiv_shape, lemma_tdiv_bound, lemma_tdiv_exact, lemma_mul_bounds};

verus! {

/// A color with fixed-point channels, each conceptually in `[0, SCALE]`.
#[derive(Clone, Copy, Debug, PartialEq, Eq, Structural)]
pub struct RgbFloat {
    pub r: i64,
    pub g: i64,
    pub b: i64,
}

impl RgbFloat {
    /// All channels lie inside the displayable range.
    pub open spec fn valid(self) -> bool {
        0 <= self.r <= SCALE && 0 <= self.g <= SCALE && 0 <= self.b <= SCALE
    }

    /// All channels are small enough for the conversions to stay in range.
    pub open spec fn bounded(self) -> bool {
        -MAX_COORD <= self.r <= MAX_COORD && -MAX_COORD <= self.g <= MAX_COORD
            && -MAX_COORD <= self.b <= MAX_COORD
    }

    pub fn new(r: i64, g: i64, b: i64) -> (c: Self)
        ensures
            c == (RgbFloat { r, g, b }),
    {
        RgbFloat { r, g, b }
    }
}

/// A color with eight-bit integer channels.
#[derive(Clone, Copy, Debug, PartialEq, Eq, Structural)]
pub struct RgbInt {
    pub r: u8,
    pub g: u8,
    pub b: u8,
}

impl RgbInt {
    pub fn new(r: u8, g: u8, b: u8) -> (c: Self)
        ensures
            c == (RgbInt { r, g, b }),
    {
        RgbInt { r, g, b }
    }
}

/// One channel scaled from fixed point to `[0, 255]`, with truncation and clamping.
pub open spec fn chan_to_int(f: int) -> int {
    clamp_spec(tdiv(f * 255, SCALE as int), 0, 255)
}

/// One channel scaled from `[0, 255]` to fixed point, with truncation.
pub open spec fn chan_to_float(c: int) -> int {
    tdiv(c * (SCALE as int), 255)
}

/// A color in either of its two forms.
#[derive(Clone, Copy, Debug, PartialEq, Eq, Structural)]
pub enum Color {
    RgbF(RgbFloat),
    RgbI(RgbInt),
}

/// The float-form red channel of a color.
pub open spec fn fr(c: Color) -> int {
    match c {
        Color::RgbF(f) => f.r as int,
        Color::RgbI(i) => chan_to_float(i.r as int),
    }
}

/// The float-form green channel of a color.
pub open spec fn fg(c: Color) -> int {
    match c {
        Color::RgbF(f) => f.g as int,
        Color::RgbI(i) => chan_to_float(i.g as int),
    }
}

/// The float-form blue channel of a color.
pub open spec fn fb(c: Color) -> int {
    match c {
        Color::RgbF(f) => f.b as int,
        Color::RgbI(i) => chan_to_float(i.b as int),
    }
}

/// The channels a color shows once quantized for display.
pub open spec fn int_form_spec(c: Color) -> (int, int, int) {
    match c {
        Color::RgbI(i) => (i.r as int, i.g as int, i.b as int),
        Color::RgbF(f) => (chan_to_int(f.r as int), chan_to_int(f.g as int), chan_to_int(
            f.b as int,
        )),
    }
}

/// Float channels are in `[0, SCALE]`, or the color is already integer form.
pub open spec fn color_valid(c: Color) -> bool {
    match c {
        Color::RgbF(f) => f.valid(),
        Color::RgbI(_) => true,
    }
}

/// Float channels are bounded enough for conversions not to overflow.
pub open spec fn color_bounded(c: Color) -> bool {
    match c {
        Color::RgbF(f) => f.bounded(),
        Color::RgbI(_) => true,
    }
}

/// A bounded color's float-form channels are bounded by `MAX_COORD`.
pub proof fn lemma_channels_bounded(c: Color)
    requires
        color_bounded(c),
    ensures
        -MAX_COORD <= fr(c) <= MAX_COORD,
        -MAX_COORD <= fg(c) <= MAX_COORD,
        -MAX_COORD <= fb(c) <= MAX_COORD,
{
    match c {
        Color::RgbF(_) => {},
        Color::RgbI(i) => {
            lemma_mul_bounds(i.r as int, SCALE as int, 255, SCALE as int);
            lemma_mul_bounds(i.g as int, SCALE as int, 255, SCALE as int);
            lemma_mul_bounds(i.b as int, SCALE as int, 255, SCALE as int);
            lemma_tdiv_bound((i.r as int) * (SCALE as int), 255, SCALE as int);
            lemma_tdiv_bound((i.g as int) * (SCALE as int), 255, SCALE as int);
            lemma_tdiv_bound((i.b as int) * (SCALE as int), 255, SCALE as int);
        },
    }
}

/// A displayable color's float-form channels lie in `[0, SCALE]`.
pub proof fn lemma_channels_valid(c: Color)
    requires
        color_valid(c),
    ensures
        0 <= fr(c) <= SCALE as int,
        0 <= fg(c) <= SCALE as int,
        0 <= fb(c) <= SCALE as int,
{
    match c {
        Color::RgbF(_) => {},
        Color::RgbI(i) => {
            lemma_mul_bounds(i.r as int, SCALE as int, 255, SCALE as int);
            lemma_mul_bounds(i.g as int, SCALE as int, 255, SCALE as int);
            lemma_mul_bounds(i.b as int, SCALE as int, 255, SCALE as int);
            lemma_tdiv_bound((i.r as int) * (SCALE as int), 255, SCALE as int);
            lemma_tdiv_bound((i.g as int) * (SCALE as int), 255, SCALE as int);
            lemma_tdiv_bound((i.b as int) * (SCALE as int), 255, SCALE as int);
            lemma_tdiv_shape((i.r as int) * (SCALE as int), 255);
            lemma_tdiv_shape((i.g as int) * (SCALE as int), 255);
            lemma_tdiv_shape((i.b as int) * (SCALE as int), 255);
            assert((i.r as int) * (SCALE as int) >= 0) by (nonlinear_arith);
            assert((i.g as int) * (SCALE as int) >= 0) by (nonlinear_arith);
            assert((i.b as int) * (SCALE as int) >= 0) by (nonlinear_arith);
        },
    }
}

/// Scaling a displayable channel by a displayable ratio never exceeds the
/// channel itself, and stays displayable.
pub proof fn lemma_blend_dominated(a: int, r: int)
    requires
        0 <= a <= SCALE,
        0 <= r <= SCALE,
    ensures
        0 <= clamp_spec(fmul_spec(a, r), 0, SCALE as int) <= a,
{
    assert(a * r >= 0) by (nonlinear_arith)
        requires a >= 0 && r >= 0;
    assert(a * r <= (SCALE as int) * a) by (nonlinear_arith)
        requires 0 <= a && 0 <= r <= SCALE as int;
    assert(-(a * (SCALE as int)) <= a * r) by (nonlinear_arith)
        requires a >= 0 && r >= 0 && (SCALE as int) > 0;
    assert(a * (SCALE as int) == (SCALE as int) * a) by (nonlinear_arith);
    lemma_tdiv_bound(a * r, SCALE as int, a);
    lemma_tdiv_shape(a * r, SCALE as int);
}

/// One interpolated channel: each side is scaled and clamped, then the sum is
/// clamped, exactly as the executable path computes it.
pub open spec fn gradient_chan(a: int, b: int, r: int) -> int {
    clamp_spec(
        clamp_spec(fmul_spec(a, SCALE - r), 0, SCALE as int) + clamp_spec(
            fmul_spec(b, r),
            0,
            SCALE as int,
        ),
        0,
        SCALE as int,
    )
}

/// The interpolation of two colors at a ratio already clamped into `[0, SCALE]`.
pub open spec fn gradient_spec(c1: Color, ratial: int, c2: Color) -> Color {
    let r = clamp_spec(ratial, 0, SCALE as int);
    Color::RgbF(
        RgbFloat {
            r: gradient_chan(fr(c1), fr(c2), r) as i64,
            g: gradient_chan(fg(c1), fg(c2), r) as i64,
            b: gradient_chan(fb(c1), fb(c2), r) as i64,
        },
    )
}

impl Default for Color {
    /// Black, in float form.
    fn default() -> (c: Self)
        ensures
            c == Color::RgbF(RgbFloat { r: 0, g: 0, b: 0 }),
    {
        Color::RgbF(RgbFloat { r: 0, g: 0, b: 0 })
    }
}

impl Color {
    /// A color from integer channels.
    pub fn new(r: u8, g: u8, b: u8) -> (c: Self)
        ensures
            c == Color::RgbI(RgbInt { r, g, b }),
    {
        Color::RgbI(RgbInt::new(r, g, b))
    }

    /// A color from fixed-point channels (not checked against `[0, SCALE]`).
    pub fn newf(r: i64, g: i64, b: i64) -> (c: Self)
        ensures
            c == Color::RgbF(RgbFloat { r, g, b }),
    {
        Color::RgbF(RgbFloat::new(r, g, b))
    }

    /// The color quantized to integer channels.
    pub fn int_form(&self) -> (c: RgbInt)
        requires
            color_bounded(*self),
        ensures
            (c.r as int, c.g as int, c.b as int) == int_form_spec(*self),
    {
        match self {
            Color::RgbI(c) => *c,
            Color::RgbF(f) => {
                let r = Self::quantize(f.r);
                let g = Self::quantize(f.g);
                let b = Self::quantize(f.b);
                RgbInt::new(r, g, b)
            },
        }
    }

    /// One fixed-point channel scaled to `[0, 255]`.
    fn quantize(f: i64) -> (c: u8)
        requires
            -MAX_COORD <= f <= MAX_COORD,
        ensures
            c as int == chan_to_int(f as int),
    {
        proof {
            lemma_tdiv_bound((f as int) * 255, SCALE as int, 255 * (MAX_COORD as int));
        }
        let t = div_t(f * 255, SCALE);
        clamp(t, 0, 255) as u8
    }

    /// The color in float form.
    pub fn float_form(&self) -> (c: RgbFloat)
        ensures
            c.r as int == fr(*self),
            c.g as int == fg(*self),
            c.b as int == fb(*self),
            color_valid(*self) ==> c.valid(),
    {
        match self {
            Color::RgbF(f) => *f,
            Color::RgbI(c) => {
                proof {
                    lemma_tdiv_bound((c.r as int) * (SCALE as int), 255, (SCALE as int) * 256);
                    lemma_tdiv_bound((c.g as int) * (SCALE as int), 255, (SCALE as int) * 256);
                    lemma_tdiv_bound((c.b as int) * (SCALE as int), 255, (SCALE as int) * 256);
                    lemma_tdiv_bound((c.r as int) * (SCALE as int), 255, SCALE as int);
                    lemma_tdiv_bound((c.g as int) * (SCALE as int), 255, SCALE as int);
                    lemma_tdiv_bound((c.b as int) * (SCALE as int), 255, SCALE as int);
                }
                let r = div_t((c.r as i64) * SCALE, 255);
                let g = div_t((c.g as i64) * SCALE, 255);
                let b = div_t((c.b as i64) * SCALE, 255);
                RgbFloat::new(r, g, b)
            },
        }
    }

    /// The linear interpolation from `self` (ratio 0) to `rhs` (ratio `SCALE`),
    /// the ratio clamped into `[0, SCALE]` first and every channel clamped last.
    pub fn gradient(&self, ratial: i64, rhs: Color) -> (c: Color)
        requires
            color_bounded(*self),
            color_bounded(rhs),
        ensures
            c == gradient_spec(*self, ratial as int, rhs),
    {
        proof {
            lemma_channels_bounded(*self);
            lemma_channels_bounded(rhs);
        }
        let r = clamp(ratial, 0, SCALE);
        let a = self.float_form();
        let b = rhs.float_form();
        Color::newf(
            Self::gradient_channel(a.r, b.r, r),
            Self::gradient_channel(a.g, b.g, r),
            Self::gradient_channel(a.b, b.b, r),
        )
    }

    /// The mirror-image interpolation: `self` carries the ratio, `rhs` the rest.
    pub fn mix(&self, ratial: i64, rhs: Color) -> (c: Color)
        requires
            color_bounded(*self),
            color_bounded(rhs),
        ensures
            c == gradient_spec(rhs, clamp_spec(ratial as int, 0, SCALE as int), *self),
    {
        proof {
            lemma_channels_bounded(*self);
            lemma_channels_bounded(rhs);
        }
        let r = clamp(ratial, 0, SCALE);
        let a = self.float_form();
        let b = rhs.float_form();
        Color::newf(
            Self::gradient_channel(b.r, a.r, r),
            Self::gradient_channel(b.g, a.g, r),
            Self::gradient_channel(b.b, a.b, r),
        )
    }

    /// One channel of an interpolation at a ratio already in `[0, SCALE]`.
    fn gradient_channel(a: i64, b: i64, r: i64) -> (c: i64)
        requires
            -MAX_COORD <= a <= MAX_COORD,
            -MAX_COORD <= b <= MAX_COORD,
            0 <= r <= SCALE,
        ensures
            c as int == gradient_chan(a as int, b as int, r as int),
    {
        proof {
            lemma_mul_bounds(a as int, (SCALE - r) as int, MAX_COORD as int, SCALE as int);
            lemma_mul_bounds(b as int, r as int, MAX_COORD as int, SCALE as int);
        }
        let left = clamp(fmul(a, SCALE - r), 0, SCALE);
        let right = clamp(fmul(b, r), 0, SCALE);
        clamp(left + right, 0, SCALE)
    }

    /// The channelwise clamped sum of two colors.
    pub fn add(&self, rhs: &Color) -> (c: Color)
        requires
            color_bounded(*self),
            color_bounded(*rhs),
        ensures
            c == Color::RgbF(
                RgbFloat {
                    r: clamp_spec(fr(*self) + fr(*rhs), 0, SCALE as int) as i64,
                    g: clamp_spec(fg(*self) + fg(*rhs), 0, SCALE as int) as i64,
                    b: clamp_spec(fb(*self) + fb(*rhs), 0, SCALE as int) as i64,
                },
            ),
    {
        proof {
            lemma_channels_bounded(*self);
            lemma_channels_bounded(*rhs);
        }
        let a = self.float_form();
        let b = rhs.float_form();
        Color::newf(
            clamp(a.r + b.r, 0, SCALE),
            clamp(a.g + b.g, 0, SCALE),
            clamp(a.b + b.b, 0, SCALE),
        )
    }

    /// The color scaled by a fixed-point factor, each channel clamped.
    pub fn mul(&self, rhs: i64) -> (c: Color)
        requires
            color_bounded(*self),
            -MAX_COORD <= rhs <= MAX_COORD,
        ensures
            c == Color::RgbF(
                RgbFloat {
                    r: clamp_spec(fmul_spec(fr(*self), rhs as int), 0, SCALE as int) as i64,
                    g: clamp_spec(fmul_spec(fg(*self), rhs as int), 0, SCALE as int) as i64,
                    b: clamp_spec(fmul_spec(fb(*self), rhs as int), 0, SCALE as int) as i64,
                },
            ),
    {
        proof {
            lemma_channels_bounded(*self);
            lemma_mul_bounds(fr(*self), rhs as int, MAX_COORD as int, MAX_COORD as int);
            lemma_mul_bounds(fg(*self), rhs as int, MAX_COORD as int, MAX_COORD as int);
            lemma_mul_bounds(fb(*self), rhs as int, MAX_COORD as int, MAX_COORD as int);
        }
        let a = self.float_form();
        Color::newf(
            clamp(fmul(a.r, rhs), 0, SCALE),
            clamp(fmul(a.g, rhs), 0, SCALE),
            clamp(fmul(a.b, rhs), 0, SCALE),
        )
    }

    /// The channelwise product of two colors: the fraction of each channel
    /// that survives a scattering event.
    pub fn blend(&self, rhs: &Color) -> (c: Color)
        requires
            color_bounded(*self),
            color_bounded(*rhs),
        ensures
            c == Color::RgbF(
                RgbFloat {
                    r: clamp_spec(fmul_spec(fr(*self), fr(*rhs)), 0, SCALE as int) as i64,
                    g: clamp_spec(fmul_spec(fg(*self), fg(*rhs)), 0, SCALE as int) as i64,
                    b: clamp_spec(fmul_spec(fb(*self), fb(*rhs)), 0, SCALE as int) as i64,
                },
            ),
    {
        proof {
            lemma_channels_bounded(*self);
            lemma_channels_bounded(*rhs);
            lemma_mul_bounds(fr(*self), fr(*rhs), MAX_COORD as int, MAX_COORD as int);
            lemma_mul_bounds(fg(*self), fg(*rhs), MAX_COORD as int, MAX_COORD as int);
            lemma_mul_bounds(fb(*self), fb(*rhs), MAX_COORD as int, MAX_COORD as int);
        }
        let a = self.float_form();
        let b = rhs.float_form();
        Color::newf(
            clamp(fmul(a.r, b.r), 0, SCALE),
            clamp(fmul(a.g, b.g), 0, SCALE),
            clamp(fmul(a.b, b.b), 0, SCALE),
        )
    }
}

/// Quantizing a displayable channel and scaling it back loses at most one
/// eight-bit step: the round trip never overshoots, and what it loses is
/// below `SCALE/255` plus one quantum.
pub proof fn lemma_chan_round_trip(f: int)
    requires
        0 <= f <= SCALE,
    ensures
        0 <= f - chan_to_float(chan_to_int(f)),
        255 * (f - chan_to_float(chan_to_int(f))) < SCALE + 255,
{
    lemma_tdiv_shape(f * 255, SCALE as int);
    let g = tdiv(f * 255, SCALE as int);
    assert(g * 255 <= f * 255) by (nonlinear_arith)
        requires (SCALE as int) * g <= f * 255 && SCALE as int >= 255 && g >= 0;
    assert(0 <= g <= 255) by {
        lemma_tdiv_bound(f * 255, SCALE as int, 255);
        assert(f * 255 <= 255 * (SCALE as int)) by (nonlinear_arith)
            requires f <= SCALE as int;
        assert(f * 255 >= 0) by (nonlinear_arith)
            requires f >= 0;
    }
    assert(chan_to_int(f) == g);
    lemma_tdiv_shape(g * (SCALE as int), 255);
    let rt = tdiv(g * (SCALE as int), 255);
    // The two floors each lose less than one unit of their divisor.
    assert(g * (SCALE as int) > (f * 255 - (SCALE as int)) * 1) by (nonlinear_arith)
        requires (SCALE as int) * (g + 1) > f * 255;
    assert(255 * rt > g * (SCALE as int) - 255);
    assert(255 * rt <= g * (SCALE as int));
    assert(g * (SCALE as int) == (SCALE as int) * g) by (nonlinear_arith);
    assert((SCALE as int) * g <= f * 255);
    assert(255 * rt <= f * 255);
    assert(rt <= f) by (nonlinear_arith)
        requires 255 * rt <= f * 255;
    assert(255 * rt > f * 255 - (SCALE as int) - 255);
    assert(255 * (f - rt) < SCALE + 255) by (nonlinear_arith)
        requires 255 * rt > f * 255 - (SCALE as int) - 255;
    assert(0 <= rt) by {
        lemma_tdiv_shape(g * (SCALE as int), 255);
        assert(g * (SCALE as int) >= 0) by (nonlinear_arith)
            requires g >= 0;
    }
}

/// Converting a displayable float-form color to integer form and back moves
/// no channel by more than one quantization step.
pub proof fn lemma_color_round_trip(c: RgbFloat)
    requires
        c.valid(),
    ensures
        ({
            let (ir, ig, ib) = int_form_spec(Color::RgbF(c));
            0 <= c.r - chan_to_float(ir) && 255 * (c.r - chan_to_float(ir)) < SCALE + 255
                && 0 <= c.g - chan_to_float(ig) && 255 * (c.g - chan_to_float(ig)) < SCALE + 255
                && 0 <= c.b - chan_to_float(ib) && 255 * (c.b - chan_to_float(ib)) < SCALE + 255
        }),
{
    lemma_chan_round_trip(c.r as int);
    lemma_chan_round_trip(c.g as int);
    lemma_chan_round_trip(c.b as int);
}

/// At ratio zero a gradient is its left endpoint; at ratio `SCALE` it is its
/// right endpoint, for any two displayable float-form colors.
pub proof fn lemma_gradient_identity(c1: RgbFloat, c2: RgbFloat)
    requires
        c1.valid(),
        c2.valid(),
    ensures
        gradient_spec(Color::RgbF(c1), 0, Color::RgbF(c2)) == Color::RgbF(c1),
        gradient_spec(Color::RgbF(c1), SCALE as int, Color::RgbF(c2)) == Color::RgbF(c2),
{
    lemma_gradient_end(c1.r as int, c2.r as int);
    lemma_gradient_end(c1.g as int, c2.g as int);
    lemma_gradient_end(c1.b as int, c2.b as int);
}

/// One channel of a gradient at either end keeps the endpoint exactly.
proof fn lemma_gradient_end(a: int, b: int)
    requires
        0 <= a <= SCALE,
        0 <= b <= SCALE,
    ensures
        gradient_chan(a, b, 0) == a,
        gradient_chan(a, b, SCALE as int) == b,
{
    lemma_tdiv_exact(a, SCALE as int);
    lemma_tdiv_exact(b, SCALE as int);
    assert(fmul_spec(a, SCALE as int) == a) by {
        assert(a * (SCALE as int) == a * (SCALE as int));
    }
    assert(fmul_spec(b, SCALE as int) == b);
    assert(fmul_spec(a, 0) == 0) by {
        assert(a * 0 == 0) by (nonlinear_arith);
    }
    assert(fmul_spec(b, 0) == 0) by {
        assert(b * 0 == 0) by (nonlinear_arith);
    }
}

} // verus!
