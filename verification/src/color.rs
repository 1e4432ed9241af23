//! The color model: RGB and HSL values and the conversions between them.
//!
//! All arithmetic is fixed-point. Saturation and lightness are measured in
//! units of 0.0001 (so `10000` is 100%), hue in units of 0.0001 degrees
//! (so `3600000` is 360 degrees). Fractions are rounded to the nearest
//! unit with `rdiv`.

use vstd::prelude::*;
use vstd::arithmetic::div_mod::{
    lemma_div_is_ordered, lemma_div_multiples_vanish, lemma_div_pos_is_pos,
    lemma_fundamental_div_mod, lemma_mod_division_less_than_divisor, lemma_multiply_divide_lt,
    lemma_small_mod,
};
use vstd::arithmetic::mul::{lemma_mul_inequality, lemma_mul_is_distributive_add_other_way};

verus! {

/// Full saturation or lightness: 100% in units of 0.0001.
pub const UNIT_MAX: u32 = 10000;

/// One full turn of the hue circle in units of 0.0001 degrees.
pub const HUE_MAX: u32 = 3600000;

/// One 60-degree hue sector in units of 0.0001 degrees.
pub const HUE_SECTOR: u32 = 600000;

/// An RGB color with three 8-bit channels; equality is exact channel equality.
#[derive(Clone, Copy, Debug, PartialEq, Eq, Structural)]
pub struct Rgb {
    pub r: u8,
    pub g: u8,
    pub b: u8,
}

/// A fixed-point HSL color: hue in `[0, HUE_MAX)`, saturation and
/// lightness in `[0, UNIT_MAX]`.
#[derive(Clone, Copy, Debug, PartialEq, Eq, Structural)]
pub struct Hsl {
    pub h: u32,
    pub s: u32,
    pub l: u32,
}

/// Division rounded to the nearest integer (ties toward the rounding of `b/2`).
pub open spec fn rdiv(a: int, b: int) -> int {
    (a + b / 2) / b
}

/// The larger of two integers.
pub open spec fn max2(a: int, b: int) -> int {
    if a >= b { a } else { b }
}

/// The smaller of two integers.
pub open spec fn min2(a: int, b: int) -> int {
    if a <= b { a } else { b }
}

/// The absolute difference of two integers.
pub open spec fn abs_diff(a: int, b: int) -> int {
    if a >= b { a - b } else { b - a }
}

/// The largest channel of an RGB color.
pub open spec fn chan_max(c: Rgb) -> int {
    max2(c.r as int, max2(c.g as int, c.b as int))
}

/// The smallest channel of an RGB color.
pub open spec fn chan_min(c: Rgb) -> int {
    min2(c.r as int, min2(c.g as int, c.b as int))
}

/// The hue of a non-achromatic RGB color, in units of 0.0001 degrees:
/// the standard piecewise formula over six 60-degree sectors, keyed by
/// which channel is the largest (red, then green, then blue).
pub open spec fn spec_hue_of(c: Rgb, mx: int, d: int) -> int {
    if c.r as int == mx {
        if c.g >= c.b {
            rdiv((c.g - c.b) * (HUE_SECTOR as int), d)
        } else {
            HUE_MAX as int - rdiv((c.b - c.g) * (HUE_SECTOR as int), d)
        }
    } else if c.g as int == mx {
        if c.b >= c.r {
            1200000 + rdiv((c.b - c.r) * (HUE_SECTOR as int), d)
        } else {
            1200000 - rdiv((c.r - c.b) * (HUE_SECTOR as int), d)
        }
    } else {
        if c.r >= c.g {
            2400000 + rdiv((c.r - c.g) * (HUE_SECTOR as int), d)
        } else {
            2400000 - rdiv((c.g - c.r) * (HUE_SECTOR as int), d)
        }
    }
}

/// The HSL value of an RGB color. Lightness is the mean of the channel
/// extremes; an achromatic color (all channels equal) has hue and
/// saturation zero; otherwise saturation is the chroma over the headroom
/// on the nearer side of half lightness.
pub open spec fn spec_rgb_to_hsl(c: Rgb) -> Hsl {
    let mx: int = chan_max(c);
    let mn: int = chan_min(c);
    let l: int = rdiv((mx + mn) * 10000, 510);
    if mx == mn {
        Hsl { h: 0, s: 0, l: l as u32 }
    } else {
        let d: int = mx - mn;
        let sum: int = mx + mn;
        let s: int = if sum > 255 { rdiv(d * 10000, 510 - sum) } else { rdiv(d * 10000, sum) };
        Hsl { h: spec_hue_of(c, mx, d) as u32, s: s as u32, l: l as u32 }
    }
}

/// The chroma of an HSL color: `(1 - |2l - 1|) * s` in fixed point.
pub open spec fn spec_chroma(s: int, l: int) -> int {
    rdiv((10000 - abs_diff(2 * l, 10000)) * s, 10000)
}

/// The triangular hue weight `1 - |(h / 60deg) mod 2 - 1|` in fixed point,
/// scaled by one hue sector.
pub open spec fn spec_hue_factor(h: int) -> int {
    HUE_SECTOR as int - abs_diff(h % 1200000, HUE_SECTOR as int)
}

/// The middle channel component `c * (1 - |(h / 60deg) mod 2 - 1|)`.
pub open spec fn spec_x(h: int, c: int) -> int {
    rdiv(c * spec_hue_factor(h), HUE_SECTOR as int)
}

/// One output channel: `255 * (component + l - c/2)` rounded, computed
/// over doubled units so that `c/2` needs no half-units.
pub open spec fn spec_channel(comp: int, l: int, c: int) -> int {
    rdiv(255 * (2 * comp + 2 * l - c), 20000)
}

/// Builds an RGB value from the three channel components of one sector.
pub open spec fn spec_rgb_of(ca: int, cb: int, cc: int, l: int, c: int) -> Rgb {
    Rgb {
        r: spec_channel(ca, l, c) as u8,
        g: spec_channel(cb, l, c) as u8,
        b: spec_channel(cc, l, c) as u8,
    }
}

/// The RGB value of a well-formed HSL color: the standard piecewise
/// hue-to-channel function over six 60-degree sectors, with channels
/// rounded to the nearest 8-bit value.
pub open spec fn spec_hsl_to_rgb(hsl: Hsl) -> Rgb {
    let l: int = hsl.l as int;
    let c: int = spec_chroma(hsl.s as int, l);
    let x: int = spec_x(hsl.h as int, c);
    let sec: int = hsl.h as int / (HUE_SECTOR as int);
    if sec == 0 {
        spec_rgb_of(c, x, 0, l, c)
    } else if sec == 1 {
        spec_rgb_of(x, c, 0, l, c)
    } else if sec == 2 {
        spec_rgb_of(0, c, x, l, c)
    } else if sec == 3 {
        spec_rgb_of(0, x, c, l, c)
    } else if sec == 4 {
        spec_rgb_of(x, 0, c, l, c)
    } else {
        spec_rgb_of(c, 0, x, l, c)
    }
}

/// Rounded division never exceeds a bound that the exact quotient respects.
pub proof fn lemma_rdiv_le(a: int, b: int, q: int)
    requires
        1 <= b,
        0 <= a,
        0 <= q,
        a <= q * b,
    ensures
        0 <= rdiv(a, b) <= q,
{
    assert(b / 2 < b);
    assert((q + 1) * b == q * b + b) by {
        lemma_mul_is_distributive_add_other_way(b, q, 1);
    }
    assert(a + b / 2 < (q + 1) * b);
    lemma_multiply_divide_lt(a + b / 2, b, q + 1);
    lemma_div_pos_is_pos(a + b / 2, b);
}

/// Rounded division never falls below a bound that the exact quotient respects.
pub proof fn lemma_rdiv_ge(a: int, b: int, q: int)
    requires
        1 <= b,
        0 <= q,
        q * b <= a,
    ensures
        q <= rdiv(a, b),
{
    lemma_div_is_ordered(q * b, a + b / 2, b);
    lemma_div_multiples_vanish(q, b);
    assert(b * q == q * b);
}

impl Hsl {
    /// A well-formed HSL value: hue below one turn, saturation and
    /// lightness at most 100%.
    pub open spec fn wf(self) -> bool {
        self.h < HUE_MAX && self.s <= UNIT_MAX && self.l <= UNIT_MAX
    }

    /// Builds an HSL value from its three components.
    pub fn new(h: u32, s: u32, l: u32) -> (c: Hsl)
        requires
            h < HUE_MAX,
            s <= UNIT_MAX,
            l <= UNIT_MAX,
        ensures
            c == (Hsl { h, s, l }),
            c.wf(),
    {
        Hsl { h, s, l }
    }
}

impl Rgb {
    /// Builds an RGB color from its three channels.
    pub fn new(r: u8, g: u8, b: u8) -> (c: Rgb)
        ensures
            c == (Rgb { r, g, b }),
    {
        Rgb { r, g, b }
    }

    /// Converts this color to HSL by the standard piecewise formula.
    #[verifier::rlimit(100)]
    pub fn to_hsl(self) -> (c: Hsl)
        ensures
            c == spec_rgb_to_hsl(self),
            c.wf(),
    {
        let r: u64 = self.r as u64;
        let g: u64 = self.g as u64;
        let b: u64 = self.b as u64;
        let mx: u64 = if r >= g && r >= b { r } else if g >= b { g } else { b };
        let mn: u64 = if r <= g && r <= b { r } else if g <= b { g } else { b };
        assert(mx as int == chan_max(self));
        assert(mn as int == chan_min(self));
        let l: u64 = ((mx + mn) * 10000 + 255) / 510;
        proof {
            lemma_rdiv_le((mx + mn) * 10000, 510, 10000);
        }
        if mx == mn {
            return Hsl { h: 0, s: 0, l: l as u32 };
        }
        let d: u64 = mx - mn;
        let sum: u64 = mx + mn;
        let s: u64 = if sum > 255 {
            proof {
                lemma_rdiv_le(d as int * 10000, 510 - sum as int, 10000);
                assert(d as int * 10000 <= 10000 * (510 - sum as int)) by {
                    lemma_mul_inequality(d as int, 510 - sum as int, 10000);
                }
            }
            (d * 10000 + (510 - sum) / 2) / (510 - sum)
        } else {
            proof {
                lemma_rdiv_le(d as int * 10000, sum as int, 10000);
                assert(d as int * 10000 <= 10000 * sum as int) by {
                    lemma_mul_inequality(d as int, sum as int, 10000);
                }
            }
            (d * 10000 + sum / 2) / sum
        };
        let h: u64 = if r == mx {
            if g >= b {
                proof {
                    lemma_rdiv_le((g - b) as int * (HUE_SECTOR as int), d as int, HUE_SECTOR as int);
                    assert((g - b) as int * (HUE_SECTOR as int) <= (HUE_SECTOR as int) * d as int)
                        by {
                        lemma_mul_inequality((g - b) as int, d as int, HUE_SECTOR as int);
                    }
                }
                ((g - b) * (HUE_SECTOR as u64) + d / 2) / d
            } else {
                proof {
                    lemma_rdiv_le((b - g) as int * (HUE_SECTOR as int), d as int, HUE_SECTOR as int);
                    lemma_rdiv_ge((b - g) as int * (HUE_SECTOR as int), d as int, 1);
                    assert((b - g) as int * (HUE_SECTOR as int) <= (HUE_SECTOR as int) * d as int)
                        by {
                        lemma_mul_inequality((b - g) as int, d as int, HUE_SECTOR as int);
                    }
                    assert(1 * d as int <= (b - g) as int * (HUE_SECTOR as int)) by {
                        lemma_mul_inequality(1, (b - g) as int, d as int);
                        lemma_mul_inequality(d as int, HUE_SECTOR as int, (b - g) as int);
                    }
                }
                (HUE_MAX as u64) - ((b - g) * (HUE_SECTOR as u64) + d / 2) / d
            }
        } else if g == mx {
            if b >= r {
                proof {
                    lemma_rdiv_le((b - r) as int * (HUE_SECTOR as int), d as int, HUE_SECTOR as int);
                    assert((b - r) as int * (HUE_SECTOR as int) <= (HUE_SECTOR as int) * d as int)
                        by {
                        lemma_mul_inequality((b - r) as int, d as int, HUE_SECTOR as int);
                    }
                }
                1200000 + ((b - r) * (HUE_SECTOR as u64) + d / 2) / d
            } else {
                proof {
                    lemma_rdiv_le((r - b) as int * (HUE_SECTOR as int), d as int, HUE_SECTOR as int);
                    assert((r - b) as int * (HUE_SECTOR as int) <= (HUE_SECTOR as int) * d as int)
                        by {
                        lemma_mul_inequality((r - b) as int, d as int, HUE_SECTOR as int);
                    }
                }
                1200000 - ((r - b) * (HUE_SECTOR as u64) + d / 2) / d
            }
        } else {
            if r >= g {
                proof {
                    lemma_rdiv_le((r - g) as int * (HUE_SECTOR as int), d as int, HUE_SECTOR as int);
                    assert((r - g) as int * (HUE_SECTOR as int) <= (HUE_SECTOR as int) * d as int)
                        by {
                        lemma_mul_inequality((r - g) as int, d as int, HUE_SECTOR as int);
                    }
                }
                2400000 + ((r - g) * (HUE_SECTOR as u64) + d / 2) / d
            } else {
                proof {
                    lemma_rdiv_le((g - r) as int * (HUE_SECTOR as int), d as int, HUE_SECTOR as int);
                    assert((g - r) as int * (HUE_SECTOR as int) <= (HUE_SECTOR as int) * d as int)
                        by {
                        lemma_mul_inequality((g - r) as int, d as int, HUE_SECTOR as int);
                    }
                }
                2400000 - ((g - r) * (HUE_SECTOR as u64) + d / 2) / d
            }
        };
        Hsl { h: h as u32, s: s as u32, l: l as u32 }
    }
}

/// The conversion to HSL always yields a well-formed value.
pub proof fn lemma_rgb_to_hsl_wf(c: Rgb)
    ensures
        spec_rgb_to_hsl(c).wf(),
{
    let mx: int = chan_max(c);
    let mn: int = chan_min(c);
    lemma_rdiv_le((mx + mn) * 10000, 510, 10000);
    if mx != mn {
        let d: int = mx - mn;
        let sum: int = mx + mn;
        if sum > 255 {
            assert(d * 10000 <= 10000 * (510 - sum)) by {
                lemma_mul_inequality(d, 510 - sum, 10000);
                assert((510 - sum) * 10000 == 10000 * (510 - sum));
            }
            lemma_rdiv_le(d * 10000, 510 - sum, 10000);
        } else {
            assert(d * 10000 <= 10000 * sum) by {
                lemma_mul_inequality(d, sum, 10000);
                assert(sum * 10000 == 10000 * sum);
            }
            lemma_rdiv_le(d * 10000, sum, 10000);
        }
        lemma_hue_of_range(c, mx, mn, d);
    }
}

/// One rounded hue term stays within one sector, and is positive for a
/// positive numerator.
proof fn lemma_hue_term(a: int, d: int)
    requires
        0 <= a <= d,
        1 <= d <= 255,
    ensures
        0 <= rdiv(a * (HUE_SECTOR as int), d) <= HUE_SECTOR as int,
        a >= 1 ==> rdiv(a * (HUE_SECTOR as int), d) >= 1,
{
    let sector: int = HUE_SECTOR as int;
    assert(a * sector <= sector * d) by {
        lemma_mul_inequality(a, d, sector);
        assert(a * sector == sector * a);
        assert(d * sector == sector * d);
    }
    lemma_rdiv_le(a * sector, d, sector);
    if a >= 1 {
        assert(1 * d <= a * sector) by {
            lemma_mul_inequality(1, a, sector);
            assert(1 * sector == sector);
            assert(a * sector >= sector);
        }
        lemma_rdiv_ge(a * sector, d, 1);
    }
}

/// The hue formula lands inside one full turn.
proof fn lemma_hue_of_range(c: Rgb, mx: int, mn: int, d: int)
    requires
        mx == chan_max(c),
        mn == chan_min(c),
        d == mx - mn,
        mx != mn,
    ensures
        0 <= spec_hue_of(c, mx, d) < HUE_MAX,
{
    if c.r as int == mx {
        if c.g >= c.b {
            lemma_hue_term(c.g as int - c.b as int, d);
        } else {
            lemma_hue_term(c.b as int - c.g as int, d);
        }
    } else if c.g as int == mx {
        if c.b >= c.r {
            lemma_hue_term(c.b as int - c.r as int, d);
        } else {
            lemma_hue_term(c.r as int - c.b as int, d);
        }
    } else {
        if c.r >= c.g {
            lemma_hue_term(c.r as int - c.g as int, d);
        } else {
            lemma_hue_term(c.g as int - c.r as int, d);
        }
    }
}
pub proof fn lemma_chroma_bounds(s: int, l: int)
    requires
        0 <= s <= UNIT_MAX,
        0 <= l <= UNIT_MAX,
    ensures
        0 <= spec_chroma(s, l),
        spec_chroma(s, l) <= 2 * l,
        spec_chroma(s, l) + 2 * l <= 20000,
{
    let base: int = 10000 - abs_diff(2 * l, 10000);
    assert(base * s <= base * 10000) by {
        lemma_mul_inequality(s, 10000, base);
        assert(s * base == base * s);
        assert(10000 * base == base * 10000);
    }
    lemma_rdiv_le(base * s, 10000, base);
    assert(base * 10000 == 10000 * base);
}

/// The middle channel component never exceeds the chroma.
pub proof fn lemma_x_bounds(h: int, c: int)
    requires
        0 <= h,
        0 <= c <= 10000,
    ensures
        0 <= spec_x(h, c) <= c,
{
    vstd::arithmetic::div_mod::lemma_mod_division_less_than_divisor(h, 1200000);
    let factor: int = spec_hue_factor(h);
    assert(0 <= factor <= HUE_SECTOR as int);
    assert(c * factor <= c * (HUE_SECTOR as int)) by {
        lemma_mul_inequality(factor, HUE_SECTOR as int, c);
        assert(factor * c == c * factor);
        assert((HUE_SECTOR as int) * c == c * (HUE_SECTOR as int));
    }
    assert(0 <= c * factor) by (nonlinear_arith)
        requires
            0 <= c,
            0 <= factor,
    ;
    lemma_rdiv_le(c * factor, HUE_SECTOR as int, c);
}

/// On a dark synthesis lightness every channel stays small.
proof fn lemma_channel_low(comp: int, l: int, c: int)
    requires
        0 <= comp <= c,
        c <= 2 * l,
        0 <= l <= 1400,
    ensures
        0 <= spec_channel(comp, l, c) <= 72,
{
    lemma_rdiv_le(255 * (2 * comp + 2 * l - c), 20000, 72);
}

/// On a light synthesis lightness every channel stays large.
proof fn lemma_channel_high(comp: int, l: int, c: int)
    requires
        0 <= comp <= c,
        c <= 2 * l,
        c + 2 * l <= 20000,
        8200 <= l <= 10000,
    ensures
        163 <= spec_channel(comp, l, c) <= 255,
{
    lemma_rdiv_ge(255 * (2 * comp + 2 * l - c), 20000, 163);
    lemma_rdiv_le(255 * (2 * comp + 2 * l - c), 20000, 255);
}

/// A color synthesized at lightness at most 14% reads back below 60%
/// lightness.
pub proof fn lemma_synth_lightness_dark(hsl: Hsl)
    requires
        hsl.wf(),
        hsl.l <= 1400,
    ensures
        spec_rgb_to_hsl(spec_hsl_to_rgb(hsl)).l <= 6000,
{
    let l: int = hsl.l as int;
    let c: int = spec_chroma(hsl.s as int, l);
    lemma_chroma_bounds(hsl.s as int, l);
    let x: int = spec_x(hsl.h as int, c);
    lemma_x_bounds(hsl.h as int, c);
    lemma_channel_low(0, l, c);
    lemma_channel_low(x, l, c);
    lemma_channel_low(c, l, c);
    let rgb: Rgb = spec_hsl_to_rgb(hsl);
    assert(rgb.r <= 72 && rgb.g <= 72 && rgb.b <= 72);
    lemma_rdiv_le((chan_max(rgb) + chan_min(rgb)) * 10000, 510, 6000);
}

/// A color synthesized at lightness at least 82% reads back above 40%
/// lightness.
pub proof fn lemma_synth_lightness_light(hsl: Hsl)
    requires
        hsl.wf(),
        hsl.l >= 8200,
    ensures
        spec_rgb_to_hsl(spec_hsl_to_rgb(hsl)).l >= 4000,
{
    let l: int = hsl.l as int;
    let c: int = spec_chroma(hsl.s as int, l);
    lemma_chroma_bounds(hsl.s as int, l);
    let x: int = spec_x(hsl.h as int, c);
    lemma_x_bounds(hsl.h as int, c);
    lemma_channel_high(0, l, c);
    lemma_channel_high(x, l, c);
    lemma_channel_high(c, l, c);
    let rgb: Rgb = spec_hsl_to_rgb(hsl);
    assert(rgb.r >= 163 && rgb.g >= 163 && rgb.b >= 163);
    lemma_rdiv_ge((chan_max(rgb) + chan_min(rgb)) * 10000, 510, 4000);
    lemma_rdiv_le((chan_max(rgb) + chan_min(rgb)) * 10000, 510, 10000);
}

/// Abbreviations for the round-trip proof: the derived HSL value and the
/// intermediate quantities of the conversion back.
spec fn rt_hsl(col: Rgb) -> Hsl {
    spec_rgb_to_hsl(col)
}

spec fn rt_l(col: Rgb) -> int {
    rt_hsl(col).l as int
}

spec fn rt_h(col: Rgb) -> int {
    rt_hsl(col).h as int
}

spec fn rt_c(col: Rgb) -> int {
    spec_chroma(rt_hsl(col).s as int, rt_l(col))
}

spec fn rt_x(col: Rgb) -> int {
    spec_x(rt_h(col), rt_c(col))
}

spec fn rt_f(col: Rgb) -> int {
    spec_hue_factor(rt_h(col))
}

/// A scaled channel numerator within half a step of a channel value
/// rounds back to exactly that value.
proof fn lemma_channel_hits(num: int, v: int, err: int)
    requires
        510 * num == 40000 * v + err,
        -5000 <= err <= 5000,
        0 <= v <= 255,
    ensures
        spec_channel_of_num(num) == v,
{
    assert(2 * (255 * num - 20000 * v) == err);
    let rem: int = 255 * num + 10000 - 20000 * v;
    assert(0 <= rem < 20000);
    vstd::arithmetic::div_mod::lemma_fundamental_div_mod_converse(
        255 * num + 10000,
        20000,
        v,
        rem,
    );
}

/// The rounded channel of a numerator in doubled units.
spec fn spec_channel_of_num(num: int) -> int {
    (255 * num + 10000) / 20000
}

/// A hue between two sector boundaries divides to that sector index.
proof fn lemma_sector(h: int, k: int)
    requires
        0 <= k,
        k * 600000 <= h < (k + 1) * 600000,
    ensures
        h / (HUE_SECTOR as int) == k,
{
    vstd::arithmetic::div_mod::lemma_fundamental_div_mod_converse(
        h,
        600000,
        k,
        h - k * 600000,
    );
}

/// A hue between two double-sector boundaries reduces to its offset.
proof fn lemma_hue_mod(h: int, q: int)
    requires
        0 <= q,
        q * 1200000 <= h < (q + 1) * 1200000,
    ensures
        h % 1200000 == h - q * 1200000,
{
    vstd::arithmetic::div_mod::lemma_fundamental_div_mod_converse(
        h,
        1200000,
        q,
        h - q * 1200000,
    );
}

/// The error-propagation core of the round-trip proof. Whenever the
/// triangular hue weight tracks the middle channel's offset `ep` closely,
/// each rounded conversion step stays within half a channel step, so the
/// three channel components read back the maximal, middle and minimal
/// channels exactly.
#[verifier::rlimit(100)]
proof fn lemma_rt_core(col: Rgb, ep: int, df: int)
    requires
        chan_max(col) > chan_min(col),
        0 <= ep <= chan_max(col) - chan_min(col),
        (chan_max(col) - chan_min(col)) * rt_f(col) == 600000 * ep + df,
        -255 <= df <= 255,
        0 <= rt_f(col) <= 600000,
    ensures
        spec_channel(rt_c(col), rt_l(col), rt_c(col)) == chan_max(col),
        spec_channel(rt_x(col), rt_l(col), rt_c(col)) == chan_min(col) + ep,
        spec_channel(0, rt_l(col), rt_c(col)) == chan_min(col),
{
    let mx: int = chan_max(col);
    let mn: int = chan_min(col);
    let d: int = mx - mn;
    let sum: int = mx + mn;
    lemma_rgb_to_hsl_wf(col);
    let hsl: Hsl = rt_hsl(col);
    let l: int = rt_l(col);
    let s: int = hsl.s as int;

    // The stored lightness misses the exact ratio by less than half a unit.
    lemma_rdiv_le(sum * 10000, 510, 10000);
    assert(l == (sum * 10000 + 255) / 510);
    let dl: int = 510 * l - 10000 * sum;
    assert(-255 <= dl <= 255) by {
        lemma_fundamental_div_mod(sum * 10000 + 255, 510);
        lemma_mod_division_less_than_divisor(sum * 10000 + 255, 510);
    }

    // The stored saturation misses the exact ratio by less than half a unit.
    let den: int = if sum > 255 { 510 - sum } else { sum };
    assert(1 <= den <= 255);
    assert(s == (d * 10000 + den / 2) / den);
    let ds: int = den * s - 10000 * d;
    assert(-255 <= ds <= 255) by {
        lemma_fundamental_div_mod(d * 10000 + den / 2, den);
        lemma_mod_division_less_than_divisor(d * 10000 + den / 2, den);
    }
    assert(0 <= s <= 10000) by {
        assert(d * 10000 <= 10000 * den) by {
            lemma_mul_inequality(d, den, 10000);
        }
        lemma_rdiv_le(d * 10000, den, 10000);
    }

    // The chroma base tracks twice the smaller lightness headroom.
    let base: int = 10000 - abs_diff(2 * l, 10000);
    let db: int = 510 * base - 20000 * den;
    assert(-510 <= db <= 510);

    // The stored chroma misses the exact chroma by a couple of units.
    let c: int = rt_c(col);
    lemma_chroma_bounds(s, l);
    assert(c == (base * s + 5000) / 10000);
    let dc: int = 10000 * c - base * s;
    assert(-5000 <= dc <= 5000) by {
        lemma_fundamental_div_mod(base * s + 5000, 10000);
        lemma_mod_division_less_than_divisor(base * s + 5000, 10000);
    }
    let ec: int = 510 * c - 20000 * d;
    assert(10000 * ec == 20000 * ds + db * s + 510 * dc) by (nonlinear_arith)
        requires
            510 * base == 20000 * den + db,
            den * s == 10000 * d + ds,
            10000 * c == base * s + dc,
            10000 * ec == 510 * (10000 * c) - 20000 * (10000 * d),
    ;
    assert(-1275 <= ec <= 1275) by {
        assert(-5100000 <= db * s <= 5100000) by (nonlinear_arith)
            requires
                -510 <= db <= 510,
                0 <= s <= 10000,
        ;
    }

    // The middle component tracks the middle channel's offset.
    let f: int = rt_f(col);
    let x: int = rt_x(col);
    lemma_x_bounds(rt_h(col), c);
    assert(x == (c * f + 300000) / 600000);
    let dx: int = 600000 * x - c * f;
    assert(-300000 <= dx <= 300000) by {
        lemma_fundamental_div_mod(c * f + 300000, 600000);
        lemma_mod_division_less_than_divisor(c * f + 300000, 600000);
    }
    let ex: int = 510 * x - 20000 * ep;
    assert(600000 * ex == 20000 * df + ec * f + 510 * dx) by (nonlinear_arith)
        requires
            510 * c == 20000 * d + ec,
            d * f == 600000 * ep + df,
            600000 * x == c * f + dx,
            600000 * ex == 510 * (600000 * x) - 20000 * (600000 * ep),
    ;
    assert(-1539 <= ex <= 1539) by {
        assert(-765000000 <= ec * f <= 765000000) by (nonlinear_arith)
            requires
                -1275 <= ec <= 1275,
                0 <= f <= 600000,
        ;
    }

    // Each channel lands within half a step of its original value.
    let num_mx: int = 2 * c + 2 * l - c;
    let num_mid: int = 2 * x + 2 * l - c;
    let num_mn: int = 2 * 0 + 2 * l - c;
    assert(510 * num_mx == 40000 * mx + (ec + 2 * dl));
    assert(510 * num_mid == 40000 * (mn + ep) + (2 * ex + 2 * dl - ec));
    assert(510 * num_mn == 40000 * mn + (2 * dl - ec));
    lemma_channel_hits(num_mx, mx, ec + 2 * dl);
    lemma_channel_hits(num_mid, mn + ep, 2 * ex + 2 * dl - ec);
    lemma_channel_hits(num_mn, mn, 2 * dl - ec);
}

/// Round trip for a color whose largest channel is red and green at least
/// blue: the hue lies in the first sector.
proof fn lemma_rt_red_up(col: Rgb)
    requires
        col.r >= col.g,
        col.g >= col.b,
        col.r > col.b,
    ensures
        spec_hsl_to_rgb(spec_rgb_to_hsl(col)) == col,
{
    let r: int = col.r as int;
    let g: int = col.g as int;
    let b: int = col.b as int;
    let d: int = r - b;
    let e: int = g - b;
    assert(chan_max(col) == r && chan_min(col) == b);
    lemma_rgb_to_hsl_wf(col);
    let h: int = rt_h(col);
    lemma_hue_term(e, d);
    assert(h == (e * (HUE_SECTOR as int) + d / 2) / d);
    let dh: int = d * h - 600000 * e;
    assert(-255 <= dh <= 255) by {
        lemma_fundamental_div_mod(e * 600000 + d / 2, d);
        lemma_mod_division_less_than_divisor(e * 600000 + d / 2, d);
    }
    assert(0 <= h <= 600000);
    lemma_small_mod(h as nat, 1200000);
    assert(rt_f(col) == h);
    lemma_rt_core(col, e, dh);
    let l: int = rt_l(col);
    let c: int = rt_c(col);
    let x: int = rt_x(col);
    if h < 600000 {
        lemma_sector(h, 0);
        assert(spec_hsl_to_rgb(rt_hsl(col)) == spec_rgb_of(c, x, 0, l, c));
    } else {
        assert(600000 * (d - e) == dh);
        assert(d == e) by {
            if d - e >= 1 {
                assert(600000 * (d - e) >= 600000) by (nonlinear_arith)
                    requires
                        d - e >= 1,
                ;
            }
        }
        assert(g == r);
        lemma_sector(h, 1);
        assert(spec_hsl_to_rgb(rt_hsl(col)) == spec_rgb_of(x, c, 0, l, c));
    }
}

/// Round trip for a color whose largest channel is red and blue above
/// green: the hue lies in the last sector.
proof fn lemma_rt_red_down(col: Rgb)
    requires
        col.r >= col.g,
        col.r >= col.b,
        col.b > col.g,
    ensures
        spec_hsl_to_rgb(spec_rgb_to_hsl(col)) == col,
{
    let r: int = col.r as int;
    let g: int = col.g as int;
    let b: int = col.b as int;
    let d: int = r - g;
    let e: int = b - g;
    assert(chan_max(col) == r && chan_min(col) == g);
    lemma_rgb_to_hsl_wf(col);
    let h: int = rt_h(col);
    let f: int = (e * (HUE_SECTOR as int) + d / 2) / d;
    lemma_hue_term(e, d);
    assert(h == HUE_MAX as int - f);
    let dh: int = d * f - 600000 * e;
    assert(-255 <= dh <= 255) by {
        lemma_fundamental_div_mod(e * 600000 + d / 2, d);
        lemma_mod_division_less_than_divisor(e * 600000 + d / 2, d);
    }
    assert(1 <= f <= 600000);
    assert(3000000 <= h <= 3599999);
    lemma_hue_mod(h, 2);
    assert(rt_f(col) == f);
    lemma_rt_core(col, e, dh);
    let l: int = rt_l(col);
    let c: int = rt_c(col);
    let x: int = rt_x(col);
    lemma_sector(h, 5);
    assert(spec_hsl_to_rgb(rt_hsl(col)) == spec_rgb_of(c, 0, x, l, c));
}

/// Round trip for a color whose largest channel is green and blue at
/// least red: the hue lies in the third sector.
proof fn lemma_rt_green_up(col: Rgb)
    requires
        col.g > col.r,
        col.g >= col.b,
        col.b >= col.r,
    ensures
        spec_hsl_to_rgb(spec_rgb_to_hsl(col)) == col,
{
    let r: int = col.r as int;
    let g: int = col.g as int;
    let b: int = col.b as int;
    let d: int = g - r;
    let e: int = b - r;
    assert(chan_max(col) == g && chan_min(col) == r);
    lemma_rgb_to_hsl_wf(col);
    let h: int = rt_h(col);
    let f: int = (e * (HUE_SECTOR as int) + d / 2) / d;
    lemma_hue_term(e, d);
    assert(h == 1200000 + f);
    let dh: int = d * f - 600000 * e;
    assert(-255 <= dh <= 255) by {
        lemma_fundamental_div_mod(e * 600000 + d / 2, d);
        lemma_mod_division_less_than_divisor(e * 600000 + d / 2, d);
    }
    assert(1200000 <= h <= 1800000);
    lemma_hue_mod(h, 1);
    assert(rt_f(col) == f);
    lemma_rt_core(col, e, dh);
    let l: int = rt_l(col);
    let c: int = rt_c(col);
    let x: int = rt_x(col);
    if h < 1800000 {
        lemma_sector(h, 2);
        assert(spec_hsl_to_rgb(rt_hsl(col)) == spec_rgb_of(0, c, x, l, c));
    } else {
        assert(600000 * (d - e) == dh);
        assert(d == e) by {
            if d - e >= 1 {
                assert(600000 * (d - e) >= 600000) by (nonlinear_arith)
                    requires
                        d - e >= 1,
                ;
            }
        }
        assert(b == g);
        lemma_sector(h, 3);
        assert(spec_hsl_to_rgb(rt_hsl(col)) == spec_rgb_of(0, x, c, l, c));
    }
}

/// Round trip for a color whose largest channel is green and red above
/// blue: the hue lies in the second sector.
proof fn lemma_rt_green_down(col: Rgb)
    requires
        col.g > col.r,
        col.g >= col.b,
        col.r > col.b,
    ensures
        spec_hsl_to_rgb(spec_rgb_to_hsl(col)) == col,
{
    let r: int = col.r as int;
    let g: int = col.g as int;
    let b: int = col.b as int;
    let d: int = g - b;
    let e: int = r - b;
    assert(chan_max(col) == g && chan_min(col) == b);
    lemma_rgb_to_hsl_wf(col);
    let h: int = rt_h(col);
    let f: int = (e * (HUE_SECTOR as int) + d / 2) / d;
    lemma_hue_term(e, d);
    assert(h == 1200000 - f);
    let dh: int = d * f - 600000 * e;
    assert(-255 <= dh <= 255) by {
        lemma_fundamental_div_mod(e * 600000 + d / 2, d);
        lemma_mod_division_less_than_divisor(e * 600000 + d / 2, d);
    }
    assert(1 <= f <= 600000);
    assert(600000 <= h <= 1199999);
    lemma_small_mod(h as nat, 1200000);
    assert(rt_f(col) == f);
    lemma_rt_core(col, e, dh);
    let l: int = rt_l(col);
    let c: int = rt_c(col);
    let x: int = rt_x(col);
    lemma_sector(h, 1);
    assert(spec_hsl_to_rgb(rt_hsl(col)) == spec_rgb_of(x, c, 0, l, c));
}

/// Round trip for a color whose largest channel is blue and red at least
/// green: the hue lies in the fifth sector.
proof fn lemma_rt_blue_up(col: Rgb)
    requires
        col.b > col.r,
        col.b > col.g,
        col.r >= col.g,
    ensures
        spec_hsl_to_rgb(spec_rgb_to_hsl(col)) == col,
{
    let r: int = col.r as int;
    let g: int = col.g as int;
    let b: int = col.b as int;
    let d: int = b - g;
    let e: int = r - g;
    assert(chan_max(col) == b && chan_min(col) == g);
    lemma_rgb_to_hsl_wf(col);
    let h: int = rt_h(col);
    let f: int = (e * (HUE_SECTOR as int) + d / 2) / d;
    lemma_hue_term(e, d);
    assert(h == 2400000 + f);
    let dh: int = d * f - 600000 * e;
    assert(-255 <= dh <= 255) by {
        lemma_fundamental_div_mod(e * 600000 + d / 2, d);
        lemma_mod_division_less_than_divisor(e * 600000 + d / 2, d);
    }
    assert(2400000 <= h <= 3000000);
    lemma_hue_mod(h, 2);
    assert(rt_f(col) == f);
    lemma_rt_core(col, e, dh);
    let l: int = rt_l(col);
    let c: int = rt_c(col);
    let x: int = rt_x(col);
    if h < 3000000 {
        lemma_sector(h, 4);
        assert(spec_hsl_to_rgb(rt_hsl(col)) == spec_rgb_of(x, 0, c, l, c));
    } else {
        assert(600000 * (d - e) == dh);
        assert(d == e) by {
            if d - e >= 1 {
                assert(600000 * (d - e) >= 600000) by (nonlinear_arith)
                    requires
                        d - e >= 1,
                ;
            }
        }
        assert(r == b);
        lemma_sector(h, 5);
        assert(spec_hsl_to_rgb(rt_hsl(col)) == spec_rgb_of(c, 0, x, l, c));
    }
}

/// Round trip for a color whose largest channel is blue and green above
/// red: the hue lies in the fourth sector.
proof fn lemma_rt_blue_down(col: Rgb)
    requires
        col.b > col.r,
        col.b > col.g,
        col.g > col.r,
    ensures
        spec_hsl_to_rgb(spec_rgb_to_hsl(col)) == col,
{
    let r: int = col.r as int;
    let g: int = col.g as int;
    let b: int = col.b as int;
    let d: int = b - r;
    let e: int = g - r;
    assert(chan_max(col) == b && chan_min(col) == r);
    lemma_rgb_to_hsl_wf(col);
    let h: int = rt_h(col);
    let f: int = (e * (HUE_SECTOR as int) + d / 2) / d;
    lemma_hue_term(e, d);
    assert(h == 2400000 - f);
    let dh: int = d * f - 600000 * e;
    assert(-255 <= dh <= 255) by {
        lemma_fundamental_div_mod(e * 600000 + d / 2, d);
        lemma_mod_division_less_than_divisor(e * 600000 + d / 2, d);
    }
    assert(1 <= f <= 600000);
    assert(1800000 <= h <= 2399999);
    lemma_hue_mod(h, 1);
    assert(rt_f(col) == f);
    lemma_rt_core(col, e, dh);
    let l: int = rt_l(col);
    let c: int = rt_c(col);
    let x: int = rt_x(col);
    lemma_sector(h, 3);
    assert(spec_hsl_to_rgb(rt_hsl(col)) == spec_rgb_of(0, x, c, l, c));
}

/// Converting any color to HSL and back returns the same color: the
/// fixed-point grid is fine enough that every rounding error stays below
/// half a channel step, so the round trip is exact, well within a
/// one-step tolerance per channel.
pub proof fn lemma_hsl_round_trip(col: Rgb)
    ensures
        spec_hsl_to_rgb(spec_rgb_to_hsl(col)) == col,
{
    if col.r == col.g && col.g == col.b {
        lemma_gray_round_trip(col);
    } else if col.r >= col.g && col.r >= col.b {
        if col.g >= col.b {
            lemma_rt_red_up(col);
        } else {
            lemma_rt_red_down(col);
        }
    } else if col.g >= col.b {
        if col.b >= col.r {
            lemma_rt_green_up(col);
        } else {
            lemma_rt_green_down(col);
        }
    } else {
        if col.r >= col.g {
            lemma_rt_blue_up(col);
        } else {
            lemma_rt_blue_down(col);
        }
    }
}

/// An achromatic color survives the round trip through HSL exactly.
pub proof fn lemma_gray_round_trip(c: Rgb)
    requires
        c.r == c.g,
        c.g == c.b,
    ensures
        spec_hsl_to_rgb(spec_rgb_to_hsl(c)) == c,
{
    let r: int = c.r as int;
    let hsl: Hsl = spec_rgb_to_hsl(c);
    lemma_rdiv_le(2 * r * 10000, 510, 10000);
    let l: int = hsl.l as int;
    assert(l == (20000 * r + 255) / 510);
    vstd::arithmetic::div_mod::lemma_fundamental_div_mod(20000 * r + 255, 510);
    let rem: int = (20000 * r + 255) % 510;
    vstd::arithmetic::div_mod::lemma_mod_division_less_than_divisor(20000 * r + 255, 510);
    assert(510 * l == 20000 * r + 255 - rem);
    assert(spec_chroma(0, l) == rdiv(0, 10000));
    assert(rdiv(0, 10000) == 0);
    assert(spec_x(0, 0) == rdiv(0, HUE_SECTOR as int));
    assert(rdiv(0, HUE_SECTOR as int) == 0);
    let num: int = 255 * (2 * l - 0) + 10000;
    assert(num == 20000 * r + (10255 - rem));
    assert(0 <= 10255 - rem < 20000);
    vstd::arithmetic::div_mod::lemma_fundamental_div_mod_converse(num, 20000, r, 10255 - rem);
    assert(spec_channel(0, l, 0) == r);
}
fn channel(comp: u64, l: u64, c: u64) -> (v: u8)
    requires
        comp <= c,
        c <= 2 * l,
        c + 2 * l <= 20000,
    ensures
        v as int == spec_channel(comp as int, l as int, c as int),
{
    let num: u64 = 2 * comp + 2 * l - c;
    proof {
        lemma_multiply_divide_lt(255 * num as int + 10000, 20000, 256);
        lemma_div_pos_is_pos(255 * num as int + 10000, 20000);
    }
    ((255 * num + 10000) / 20000) as u8
}

impl Hsl {
    /// Converts this color to RGB by the standard piecewise hue-to-channel
    /// function; channels are rounded to the nearest 8-bit value.
    pub fn to_rgb(self) -> (c: Rgb)
        requires
            self.wf(),
        ensures
            c == spec_hsl_to_rgb(self),
    {
        let l: u64 = self.l as u64;
        let s: u64 = self.s as u64;
        let h: u64 = self.h as u64;
        let base: u64 = if 2 * l >= 10000 { 10000 - (2 * l - 10000) } else { 10000 - (10000 - 2 * l) };
        proof {
            assert(base as int * s as int <= 10000 * 10000) by (nonlinear_arith)
                requires
                    0 <= base as int <= 10000,
                    0 <= s as int <= 10000,
            ;
        }
        let c: u64 = (base * s + 5000) / 10000;
        proof {
            lemma_chroma_bounds(s as int, l as int);
        }
        let hm: u64 = h % 1200000;
        let factor: u64 = if hm >= HUE_SECTOR as u64 {
            HUE_SECTOR as u64 - (hm - HUE_SECTOR as u64)
        } else {
            HUE_SECTOR as u64 - (HUE_SECTOR as u64 - hm)
        };
        proof {
            assert(c as int * factor as int <= 10000 * 600000) by (nonlinear_arith)
                requires
                    0 <= c as int <= 10000,
                    0 <= factor as int <= 600000,
            ;
        }
        let x: u64 = (c * factor + 300000) / 600000;
        proof {
            assert(c as int * factor as int <= c as int * (HUE_SECTOR as int))
                by (nonlinear_arith)
                requires
                    0 <= c as int,
                    factor as int <= HUE_SECTOR as int,
            ;
            lemma_rdiv_le(c as int * factor as int, HUE_SECTOR as int, c as int);
        }
        let sec: u64 = h / (HUE_SECTOR as u64);
        if sec == 0 {
            Rgb { r: channel(c, l, c), g: channel(x, l, c), b: channel(0, l, c) }
        } else if sec == 1 {
            Rgb { r: channel(x, l, c), g: channel(c, l, c), b: channel(0, l, c) }
        } else if sec == 2 {
            Rgb { r: channel(0, l, c), g: channel(c, l, c), b: channel(x, l, c) }
        } else if sec == 3 {
            Rgb { r: channel(0, l, c), g: channel(x, l, c), b: channel(c, l, c) }
        } else if sec == 4 {
            Rgb { r: channel(x, l, c), g: channel(0, l, c), b: channel(c, l, c) }
        } else {
            Rgb { r: channel(c, l, c), g: channel(0, l, c), b: channel(x, l, c) }
        }
    }
}

} // verus!
