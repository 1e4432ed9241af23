//! Seed-color mode: a full palette derived from one color's hue through
//! fixed saturation and lightness tables keyed only by the mode, with no
//! sampling or classification.

use vstd::prelude::*;
use vstd::arithmetic::div_mod::lemma_mod_division_less_than_divisor;
use crate::color::{max2, min2, spec_hsl_to_rgb, spec_rgb_to_hsl, Hsl, Rgb, HUE_MAX};
use crate::palette::{ExtendedPalette, Palette};
use crate::synth::{ansi_hue, spec_ansi_hue};

verus! {

/// A hue turned by an offset, wrapped around the circle.
pub open spec fn spec_offset_hue(h: int, off: int) -> int {
    (h + off) % (HUE_MAX as int)
}

/// The seed background: the seed hue at low saturation near the mode's
/// lightness extreme.
pub open spec fn spec_seed_background(source: Rgb, light: bool) -> Rgb {
    let h: Hsl = spec_rgb_to_hsl(source);
    spec_hsl_to_rgb(
        Hsl {
            h: h.h,
            s: min2(h.s as int, 1500) as u32,
            l: if light {
                9200
            } else {
                800
            },
        },
    )
}

/// The seed foreground: nearly gray at the opposite lightness extreme.
pub open spec fn spec_seed_foreground(source: Rgb, light: bool) -> Rgb {
    let h: Hsl = spec_rgb_to_hsl(source);
    spec_hsl_to_rgb(
        Hsl {
            h: h.h,
            s: min2(h.s as int, 1000) as u32,
            l: if light {
                1500
            } else {
                8500
            },
        },
    )
}

/// The seed bright-black slot.
pub open spec fn spec_seed_bright_black(source: Rgb, light: bool) -> Rgb {
    let h: Hsl = spec_rgb_to_hsl(source);
    spec_hsl_to_rgb(
        Hsl {
            h: h.h,
            s: min2(h.s as int, 1500) as u32,
            l: if light {
                7500
            } else {
                2500
            },
        },
    )
}

/// Base accent slot `i`: the seed hue turned by the canonical offset, at
/// 60% saturation and the mode's accent lightness.
pub open spec fn spec_seed_slot(source: Rgb, light: bool, i: int) -> Rgb {
    let h: Hsl = spec_rgb_to_hsl(source);
    spec_hsl_to_rgb(
        Hsl {
            h: spec_offset_hue(h.h as int, spec_ansi_hue(i)) as u32,
            s: 6000,
            l: if light {
                4500
            } else {
                5500
            },
        },
    )
}

/// Bright accent slot `i`: the same hue at 70% saturation and the mode's
/// bright lightness.
pub open spec fn spec_seed_bright_slot(source: Rgb, light: bool, i: int) -> Rgb {
    let h: Hsl = spec_rgb_to_hsl(source);
    spec_hsl_to_rgb(
        Hsl {
            h: spec_offset_hue(h.h as int, spec_ansi_hue(i)) as u32,
            s: 7000,
            l: if light {
                3500
            } else {
                6500
            },
        },
    )
}

/// The sixteen slots of the seed palette.
pub open spec fn spec_seed_slots(source: Rgb, light: bool) -> Seq<Rgb> {
    seq![
        spec_seed_background(source, light),
        spec_seed_slot(source, light, 0),
        spec_seed_slot(source, light, 1),
        spec_seed_slot(source, light, 2),
        spec_seed_slot(source, light, 3),
        spec_seed_slot(source, light, 4),
        spec_seed_slot(source, light, 5),
        spec_seed_foreground(source, light),
        spec_seed_bright_black(source, light),
        spec_seed_bright_slot(source, light, 0),
        spec_seed_bright_slot(source, light, 1),
        spec_seed_bright_slot(source, light, 2),
        spec_seed_bright_slot(source, light, 3),
        spec_seed_bright_slot(source, light, 4),
        spec_seed_bright_slot(source, light, 5),
        spec_seed_foreground(source, light),
    ]
}

/// The named semantic accent.
pub open spec fn spec_seed_accent(source: Rgb, light: bool) -> Rgb {
    let h: Hsl = spec_rgb_to_hsl(source);
    spec_hsl_to_rgb(
        Hsl {
            h: h.h,
            s: max2(h.s as int, 5000) as u32,
            l: if light {
                4500
            } else {
                5500
            },
        },
    )
}

/// The dimmed semantic accent.
pub open spec fn spec_seed_accent_dim(source: Rgb, light: bool) -> Rgb {
    let h: Hsl = spec_rgb_to_hsl(source);
    spec_hsl_to_rgb(
        Hsl {
            h: h.h,
            s: max2(h.s as int, 4000) as u32,
            l: if light {
                6000
            } else {
                3500
            },
        },
    )
}

/// The brightened semantic accent.
pub open spec fn spec_seed_accent_bright(source: Rgb, light: bool) -> Rgb {
    let h: Hsl = spec_rgb_to_hsl(source);
    spec_hsl_to_rgb(
        Hsl {
            h: h.h,
            s: min2(h.s as int * 11 / 10, 10000) as u32,
            l: if light {
                3500
            } else {
                7000
            },
        },
    )
}

/// The secondary accent on the opposite hue.
pub open spec fn spec_seed_secondary(source: Rgb, light: bool) -> Rgb {
    let h: Hsl = spec_rgb_to_hsl(source);
    spec_hsl_to_rgb(
        Hsl {
            h: spec_offset_hue(h.h as int, 1800000) as u32,
            s: 4000,
            l: if light {
                4500
            } else {
                5500
            },
        },
    )
}

/// The surface color close to the background.
pub open spec fn spec_seed_surface(source: Rgb, light: bool) -> Rgb {
    let h: Hsl = spec_rgb_to_hsl(source);
    spec_hsl_to_rgb(
        Hsl {
            h: h.h,
            s: 1000,
            l: if light {
                8700
            } else {
                1400
            },
        },
    )
}

/// The color drawn on top of the accent: near-black on a light accent,
/// near-white on a dark one.
pub open spec fn spec_seed_on_accent(source: Rgb, light: bool) -> Rgb {
    let h: Hsl = spec_rgb_to_hsl(source);
    if (if light {
        4500int
    } else {
        5500int
    }) > 5000 {
        spec_hsl_to_rgb(Hsl { h: h.h, s: 1500, l: 1000 })
    } else {
        spec_hsl_to_rgb(Hsl { h: h.h, s: 500, l: 9500 })
    }
}

/// Turns a hue by an offset, wrapping around the circle.
fn offset_hue(h: u32, off: u32) -> (r: u32)
    requires
        h < HUE_MAX,
        off <= 3000000,
    ensures
        r as int == spec_offset_hue(h as int, off as int),
        r < HUE_MAX,
{
    proof {
        lemma_mod_division_less_than_divisor(h as int + off as int, HUE_MAX as int);
    }
    (h + off) % HUE_MAX
}

/// Derives the full extended palette from one seed color: the sixteen
/// slots and the seven named semantic colors, all functions of the seed's
/// HSL value and the mode alone.
pub fn generate_from_color(source: Rgb, light_mode: bool) -> (p: ExtendedPalette)
    ensures
        p.palette@ == spec_seed_slots(source, light_mode),
        p.accent == spec_seed_accent(source, light_mode),
        p.accent_dim == spec_seed_accent_dim(source, light_mode),
        p.accent_bright == spec_seed_accent_bright(source, light_mode),
        p.secondary == spec_seed_secondary(source, light_mode),
        p.surface == spec_seed_surface(source, light_mode),
        p.on_accent == spec_seed_on_accent(source, light_mode),
        p.on_surface == spec_seed_foreground(source, light_mode),
{
    let hsl: Hsl = source.to_hsl();
    let bg_l: u32 = if light_mode {
        9200
    } else {
        800
    };
    let fg_l: u32 = if light_mode {
        1500
    } else {
        8500
    };
    let color_l: u32 = if light_mode {
        4500
    } else {
        5500
    };
    let bright_l: u32 = if light_mode {
        3500
    } else {
        6500
    };
    let s15: u32 = if hsl.s <= 1500 {
        hsl.s
    } else {
        1500
    };
    let s10: u32 = if hsl.s <= 1000 {
        hsl.s
    } else {
        1000
    };
    let background: Rgb = Hsl::new(hsl.h, s15, bg_l).to_rgb();
    let foreground: Rgb = Hsl::new(hsl.h, s10, fg_l).to_rgb();
    let bright_black: Rgb = Hsl::new(
        hsl.h,
        s15,
        if light_mode {
            7500
        } else {
            2500
        },
    ).to_rgb();
    let c0: Rgb = Hsl::new(offset_hue(hsl.h, ansi_hue(0)), 6000, color_l).to_rgb();
    let c1: Rgb = Hsl::new(offset_hue(hsl.h, ansi_hue(1)), 6000, color_l).to_rgb();
    let c2: Rgb = Hsl::new(offset_hue(hsl.h, ansi_hue(2)), 6000, color_l).to_rgb();
    let c3: Rgb = Hsl::new(offset_hue(hsl.h, ansi_hue(3)), 6000, color_l).to_rgb();
    let c4: Rgb = Hsl::new(offset_hue(hsl.h, ansi_hue(4)), 6000, color_l).to_rgb();
    let c5: Rgb = Hsl::new(offset_hue(hsl.h, ansi_hue(5)), 6000, color_l).to_rgb();
    let b0: Rgb = Hsl::new(offset_hue(hsl.h, ansi_hue(0)), 7000, bright_l).to_rgb();
    let b1: Rgb = Hsl::new(offset_hue(hsl.h, ansi_hue(1)), 7000, bright_l).to_rgb();
    let b2: Rgb = Hsl::new(offset_hue(hsl.h, ansi_hue(2)), 7000, bright_l).to_rgb();
    let b3: Rgb = Hsl::new(offset_hue(hsl.h, ansi_hue(3)), 7000, bright_l).to_rgb();
    let b4: Rgb = Hsl::new(offset_hue(hsl.h, ansi_hue(4)), 7000, bright_l).to_rgb();
    let b5: Rgb = Hsl::new(offset_hue(hsl.h, ansi_hue(5)), 7000, bright_l).to_rgb();
    let s_acc: u32 = if hsl.s >= 5000 {
        hsl.s
    } else {
        5000
    };
    let accent: Rgb = Hsl::new(hsl.h, s_acc, color_l).to_rgb();
    let s_dim: u32 = if hsl.s >= 4000 {
        hsl.s
    } else {
        4000
    };
    let accent_dim: Rgb = Hsl::new(
        hsl.h,
        s_dim,
        if light_mode {
            6000
        } else {
            3500
        },
    ).to_rgb();
    let s_br: u32 = if hsl.s * 11 / 10 <= 10000 {
        hsl.s * 11 / 10
    } else {
        10000
    };
    let accent_bright: Rgb = Hsl::new(
        hsl.h,
        s_br,
        if light_mode {
            3500
        } else {
            7000
        },
    ).to_rgb();
    let secondary: Rgb = Hsl::new(offset_hue(hsl.h, 1800000), 4000, color_l).to_rgb();
    let surface: Rgb = Hsl::new(
        hsl.h,
        1000,
        if light_mode {
            8700
        } else {
            1400
        },
    ).to_rgb();
    let on_accent: Rgb = if color_l > 5000 {
        Hsl::new(hsl.h, 1500, 1000).to_rgb()
    } else {
        Hsl::new(hsl.h, 500, 9500).to_rgb()
    };
    let arr: [Rgb; 16] = [
        background,
        c0,
        c1,
        c2,
        c3,
        c4,
        c5,
        foreground,
        bright_black,
        b0,
        b1,
        b2,
        b3,
        b4,
        b5,
        foreground,
    ];
    let palette: Palette = Palette::new(arr);
    proof {
        assert(palette@ =~= spec_seed_slots(source, light_mode));
    }
    ExtendedPalette {
        palette,
        accent,
        accent_dim,
        accent_bright,
        secondary,
        surface,
        on_accent,
        on_surface: foreground,
    }
}

} // verus!
