//! Palette synthesis: the three generation strategies, the brightness
//! normalizer, and the dispatcher from raw samples to a finished palette.

use vstd::prelude::*;
use vstd::pervasive::VecAdditionalExecFns;
use crate::color::{abs_diff, max2, min2, spec_hsl_to_rgb, spec_rgb_to_hsl, Hsl, Rgb, HUE_MAX};
use crate::classify::{
    chromatic_of, classify, spec_classify, Classification,
};
use crate::palette::{spec_default_palette, Palette};
use crate::select::{
    bg_scan, clamp2, darkest_upto, find_background, find_best_color_match, find_foreground,
    find_lightness_extremes, lemma_bg_scan_bounds, lemma_fg_contrast,
    lemma_match_scan_bounds, lightest_upto, match_scan, spec_fg_selection_lightness,
    spec_find_background, spec_find_foreground, MIN_FG_CONTRAST,
};

verus! {

/// Bright variants move 18 lightness points away from the base.
pub const BRIGHT_L_BOOST: u32 = 1800;

/// Accents on a very dark background are raised to 55% lightness.
pub const MIN_L_ON_DARK_BG: u32 = 5500;

/// Accents on a very light background are lowered to 45% lightness.
pub const MAX_L_ON_LIGHT_BG: u32 = 4500;

/// A background below 20% lightness counts as very dark.
pub const VERY_DARK_BG: u32 = 2000;

/// A background above 80% lightness counts as very light.
pub const VERY_LIGHT_BG: u32 = 8000;

/// The monochrome ramp runs at 5% saturation.
pub const MONOCHROME_SAT: u32 = 500;

/// The subtle strategy colors its slots at 28% saturation.
pub const SUBTLE_SAT: u32 = 2800;

/// The canonical hue of ANSI slot `i`: red, green, yellow, blue, magenta,
/// cyan, in palette order.
pub open spec fn spec_ansi_hue(i: int) -> int {
    if i == 0 {
        0
    } else if i == 1 {
        1200000
    } else if i == 2 {
        600000
    } else if i == 3 {
        2400000
    } else if i == 4 {
        3000000
    } else {
        1800000
    }
}

/// The canonical hue of ANSI slot `i`.
pub fn ansi_hue(i: usize) -> (h: u32)
    requires
        i < 6,
    ensures
        h as int == spec_ansi_hue(i as int),
        h < HUE_MAX,
{
    if i == 0 {
        0
    } else if i == 1 {
        1200000
    } else if i == 2 {
        600000
    } else if i == 3 {
        2400000
    } else if i == 4 {
        3000000
    } else {
        1800000
    }
}

/// The bright variant of one color: lightness moved 18 points away from
/// the background's side, saturation boosted by a quarter and capped.
pub open spec fn spec_make_bright_one(c: Rgb, light: bool) -> Rgb {
    let hsl: Hsl = spec_rgb_to_hsl(c);
    let l: int = if light {
        clamp2(hsl.l as int - BRIGHT_L_BOOST, 0, 10000)
    } else {
        clamp2(hsl.l as int + BRIGHT_L_BOOST, 0, 10000)
    };
    let s: int = min2(hsl.s as int * 5 / 4, 10000);
    spec_hsl_to_rgb(Hsl { h: hsl.h, s: s as u32, l: l as u32 })
}

/// The bright variants of a slot list.
pub open spec fn spec_make_bright(s: Seq<Rgb>, light: bool) -> Seq<Rgb> {
    Seq::new(s.len(), |i: int| spec_make_bright_one(s[i], light))
}

/// One slot after brightness normalization against a background
/// lightness: raised to 55% on a very dark background, lowered to 45% on
/// a very light one, otherwise unchanged; changes below 0.1 points are
/// no-ops.
pub open spec fn spec_normalize_one(c: Rgb, bg_l: int, light: bool) -> Rgb {
    let hsl: Hsl = spec_rgb_to_hsl(c);
    let new_l: int = if !light && bg_l < VERY_DARK_BG && hsl.l < MIN_L_ON_DARK_BG {
        MIN_L_ON_DARK_BG as int
    } else if light && bg_l > VERY_LIGHT_BG && hsl.l > MAX_L_ON_LIGHT_BG {
        MAX_L_ON_LIGHT_BG as int
    } else {
        hsl.l as int
    };
    if abs_diff(new_l, hsl.l as int) > 10 {
        spec_hsl_to_rgb(Hsl { h: hsl.h, s: hsl.s, l: new_l as u32 })
    } else {
        c
    }
}

/// A slot list after brightness normalization against a background.
pub open spec fn spec_normalize(s: Seq<Rgb>, bg: Rgb, light: bool) -> Seq<Rgb> {
    Seq::new(s.len(), |i: int| spec_normalize_one(s[i], spec_rgb_to_hsl(bg).l as int, light))
}

/// Derives the bright variants of the six base slots.
pub fn make_bright(colors: &Vec<Rgb>, light_mode: bool) -> (out: Vec<Rgb>)
    ensures
        out@ == spec_make_bright(colors@, light_mode),
{
    let n: usize = colors.len();
    let mut out: Vec<Rgb> = Vec::new();
    let mut i: usize = 0;
    while i < n
        invariant
            i <= n,
            n == colors@.len(),
            out@.len() == i,
            forall|k: int| 0 <= k < i ==> out@[k] == spec_make_bright_one(colors@[k], light_mode),
        decreases n - i,
    {
        let hsl: Hsl = colors[i].to_hsl();
        let l: u32 = if light_mode {
            if hsl.l >= BRIGHT_L_BOOST {
                hsl.l - BRIGHT_L_BOOST
            } else {
                0
            }
        } else {
            if hsl.l + BRIGHT_L_BOOST <= 10000 {
                hsl.l + BRIGHT_L_BOOST
            } else {
                10000
            }
        };
        let s: u32 = if hsl.s * 5 / 4 <= 10000 {
            hsl.s * 5 / 4
        } else {
            10000
        };
        out.push(Hsl::new(hsl.h, s, l).to_rgb());
        i = i + 1;
    }
    proof {
        assert(out@ =~= spec_make_bright(colors@, light_mode));
    }
    out
}

/// Normalizes the six base or bright slots against the background.
pub fn normalize_brightness(colors: &mut Vec<Rgb>, bg: &Rgb, light_mode: bool)
    ensures
        final(colors)@ == spec_normalize(old(colors)@, *bg, light_mode),
{
    let bg_l: u32 = bg.to_hsl().l;
    let n: usize = colors.len();
    let mut i: usize = 0;
    while i < n
        invariant
            i <= n,
            n == colors@.len(),
            colors@.len() == old(colors)@.len(),
            bg_l == spec_rgb_to_hsl(*bg).l,
            forall|k: int|
                0 <= k < i ==> colors@[k] == spec_normalize_one(
                    old(colors)@[k],
                    bg_l as int,
                    light_mode,
                ),
            forall|k: int| i <= k < n ==> colors@[k] == old(colors)@[k],
        decreases n - i,
    {
        let hsl: Hsl = colors[i].to_hsl();
        let new_l: u32 = if !light_mode && bg_l < VERY_DARK_BG && hsl.l < MIN_L_ON_DARK_BG {
            MIN_L_ON_DARK_BG
        } else if light_mode && bg_l > VERY_LIGHT_BG && hsl.l > MAX_L_ON_LIGHT_BG {
            MAX_L_ON_LIGHT_BG
        } else {
            hsl.l
        };
        let diff: u32 = if new_l >= hsl.l {
            new_l - hsl.l
        } else {
            hsl.l - new_l
        };
        if diff > 10 {
            let c: Rgb = Hsl::new(hsl.h, hsl.s, new_l).to_rgb();
            colors.set(i, c);
        }
        i = i + 1;
    }
    proof {
        assert(colors@ =~= spec_normalize(old(colors)@, *bg, light_mode));
    }
}

/// Lays the parts out in palette order: background, the six base slots,
/// foreground, bright-black, the six bright slots, and the last slot.
#[verifier::opaque]
pub open spec fn assemble16(
    bg: Rgb,
    ansi: Seq<Rgb>,
    fg: Rgb,
    bright_black: Rgb,
    bright: Seq<Rgb>,
    last: Rgb,
) -> Seq<Rgb> {
    seq![
        bg,
        ansi[0],
        ansi[1],
        ansi[2],
        ansi[3],
        ansi[4],
        ansi[5],
        fg,
        bright_black,
        bright[0],
        bright[1],
        bright[2],
        bright[3],
        bright[4],
        bright[5],
        last,
    ]
}

/// An assembled palette always has sixteen slots.
pub broadcast proof fn lemma_assemble16_len(
    bg: Rgb,
    ansi: Seq<Rgb>,
    fg: Rgb,
    bright_black: Rgb,
    bright: Seq<Rgb>,
    last: Rgb,
)
    ensures
        (#[trigger] assemble16(bg, ansi, fg, bright_black, bright, last)).len() == 16,
{
    reveal(assemble16);
}

/// One ANSI slot pick of the chromatic strategy: the best unused hue
/// match, or a synthesized fallback at the canonical hue, 50% saturation
/// and mode-dependent lightness. Returns the slot and the used set after.
pub open spec fn spec_ansi_step(
    colors: Seq<Rgb>,
    hsls: Seq<Hsl>,
    used: Seq<bool>,
    light: bool,
    i: int,
) -> (Rgb, Seq<bool>) {
    match match_scan(hsls, used, spec_ansi_hue(i), hsls.len() as int) {
        Some(k) => (colors[k], used.update(k, true)),
        None => {
            let l: int = if light {
                4500int
            } else {
                5500int
            };
            (spec_hsl_to_rgb(Hsl { h: spec_ansi_hue(i) as u32, s: 5000, l: l as u32 }), used)
        },
    }
}

/// The first `i` ANSI slots of the chromatic strategy and the used set
/// they leave behind.
pub open spec fn spec_ansi_slots(
    colors: Seq<Rgb>,
    hsls: Seq<Hsl>,
    used: Seq<bool>,
    light: bool,
    i: int,
) -> (Seq<Rgb>, Seq<bool>)
    decreases i,
{
    if i <= 0 {
        (Seq::empty(), used)
    } else {
        let prev: (Seq<Rgb>, Seq<bool>) = spec_ansi_slots(colors, hsls, used, light, i - 1);
        let step: (Rgb, Seq<bool>) = spec_ansi_step(colors, hsls, prev.1, light, i - 1);
        (prev.0.push(step.0), step.1)
    }
}

/// The slot list grows one color per step and the used set keeps its length.
pub proof fn lemma_ansi_slots_len(
    colors: Seq<Rgb>,
    hsls: Seq<Hsl>,
    used: Seq<bool>,
    light: bool,
    i: int,
)
    requires
        0 <= i,
        used.len() == hsls.len(),
    ensures
        spec_ansi_slots(colors, hsls, used, light, i).0.len() == i,
        spec_ansi_slots(colors, hsls, used, light, i).1.len() == used.len(),
    decreases i,
{
    if i > 0 {
        lemma_ansi_slots_len(colors, hsls, used, light, i - 1);
        let prev: (Seq<Rgb>, Seq<bool>) = spec_ansi_slots(colors, hsls, used, light, i - 1);
        lemma_match_scan_bounds(hsls, prev.1, spec_ansi_hue(i - 1), hsls.len() as int);
    }
}

/// The used set the chromatic strategy starts from: only the background
/// sample is marked.
pub open spec fn spec_chromatic_used1(hsls: Seq<Hsl>, light: bool) -> Seq<bool> {
    Seq::new(hsls.len(), |i: int| false).update(
        bg_scan(hsls, light, hsls.len() as int).0,
        true,
    )
}

/// The background color of the chromatic strategy.
pub open spec fn spec_chromatic_bg(colors: Seq<Rgb>, hsls: Seq<Hsl>, light: bool) -> Rgb {
    spec_find_background(colors, hsls, light).1
}

/// The chromatic strategy: background and foreground from the selectors,
/// six hue-matched base slots, bright-black nudged off the background,
/// bright variants of the normalized base slots, all accents normalized.
pub open spec fn spec_generate_chromatic(colors: Seq<Rgb>, hsls: Seq<Hsl>, light: bool) -> Seq<
    Rgb,
> {
    let bg: Rgb = spec_chromatic_bg(colors, hsls, light);
    let used1: Seq<bool> = spec_chromatic_used1(hsls, light);
    let fgp: (int, Rgb) = spec_find_foreground(colors, hsls, bg, used1, light);
    let fg: Rgb = fgp.1;
    let used2: Seq<bool> = used1.update(fgp.0, true);
    let bg_hsl: Hsl = spec_rgb_to_hsl(bg);
    let slots: Seq<Rgb> = spec_ansi_slots(colors, hsls, used2, light, 6).0;
    let ansi: Seq<Rgb> = spec_normalize(slots, bg, light);
    let bb_l: int = if light {
        clamp2(bg_hsl.l as int - 1500, 0, 10000)
    } else {
        clamp2(bg_hsl.l as int + 1500, 0, 10000)
    };
    let bright_black: Rgb = spec_hsl_to_rgb(
        Hsl { h: bg_hsl.h, s: (bg_hsl.s / 2) as u32, l: bb_l as u32 },
    );
    let bright: Seq<Rgb> = spec_normalize(spec_make_bright(ansi, light), bg, light);
    assemble16(bg, ansi, fg, bright_black, bright, fg)
}

/// Generates the chromatic palette from the samples.
#[verifier::rlimit(100)]
#[verifier::spinoff_prover]
pub fn generate_chromatic_palette(
    colors: &Vec<Rgb>,
    hsl_colors: &Vec<Hsl>,
    light_mode: bool,
) -> (p: Palette)
    requires
        colors@.len() == hsl_colors@.len(),
        colors@.len() > 0,
        forall|i: int| 0 <= i < hsl_colors@.len() ==> (#[trigger] hsl_colors@[i]).wf(),
    ensures
        p@ == spec_generate_chromatic(colors@, hsl_colors@, light_mode),
{
    let n: usize = colors.len();
    let mut used: Vec<bool> = Vec::new();
    let mut i: usize = 0;
    while i < n
        invariant
            i <= n,
            used@ =~= Seq::new(i as nat, |k: int| false),
        decreases n - i,
    {
        used.push(false);
        proof {
            assert(used@ =~= Seq::new((i + 1) as nat, |k: int| false));
        }
        i = i + 1;
    }
    let bg_pick: (usize, Rgb) = find_background(colors, hsl_colors, light_mode);
    let bg_idx: usize = bg_pick.0;
    let bg: Rgb = bg_pick.1;
    used.set(bg_idx, true);
    proof {
        assert(used@ == spec_chromatic_used1(hsl_colors@, light_mode));
    }
    let fg_pick: (usize, Rgb) = find_foreground(colors, hsl_colors, &bg, light_mode, &used);
    let fg_idx: usize = fg_pick.0;
    let fg: Rgb = fg_pick.1;
    used.set(fg_idx, true);
    let ghost used2: Seq<bool> = used@;
    let bg_hsl: Hsl = bg.to_hsl();
    let mut ansi: Vec<Rgb> = Vec::new();
    proof {
        assert(ansi@ =~= spec_ansi_slots(colors@, hsl_colors@, used2, light_mode, 0).0);
    }
    let mut i: usize = 0;
    while i < 6
        invariant
            i <= 6,
            n == colors@.len(),
            n == hsl_colors@.len(),
            n > 0,
            forall|k: int| 0 <= k < hsl_colors@.len() ==> (#[trigger] hsl_colors@[k]).wf(),
            ansi@ == spec_ansi_slots(colors@, hsl_colors@, used2, light_mode, i as int).0,
            used@ == spec_ansi_slots(colors@, hsl_colors@, used2, light_mode, i as int).1,
            used@.len() == n,
        decreases 6 - i,
    {
        let target: u32 = ansi_hue(i);
        match find_best_color_match(colors, hsl_colors, target, &used) {
            Some((idx, color)) => {
                proof {
                    lemma_match_scan_bounds(
                        hsl_colors@,
                        used@,
                        target as int,
                        hsl_colors@.len() as int,
                    );
                }
                ansi.push(color);
                used.set(idx, true);
            },
            None => {
                let l: u32 = if light_mode {
                    4500
                } else {
                    5500
                };
                ansi.push(Hsl::new(target, 5000, l).to_rgb());
            },
        }
        i = i + 1;
    }
    proof {
        lemma_ansi_slots_len(colors@, hsl_colors@, used2, light_mode, 6);
    }
    normalize_brightness(&mut ansi, &bg, light_mode);
    let bb_l: u32 = if light_mode {
        if bg_hsl.l >= 1500 {
            bg_hsl.l - 1500
        } else {
            0
        }
    } else {
        if bg_hsl.l + 1500 <= 10000 {
            bg_hsl.l + 1500
        } else {
            10000
        }
    };
    let bright_black: Rgb = Hsl::new(bg_hsl.h, bg_hsl.s / 2, bb_l).to_rgb();
    let mut bright: Vec<Rgb> = make_bright(&ansi, light_mode);
    normalize_brightness(&mut bright, &bg, light_mode);
    let arr: [Rgb; 16] = [
        bg,
        ansi[0],
        ansi[1],
        ansi[2],
        ansi[3],
        ansi[4],
        ansi[5],
        fg,
        bright_black,
        bright[0],
        bright[1],
        bright[2],
        bright[3],
        bright[4],
        bright[5],
        fg,
    ];
    let p: Palette = Palette::new(arr);
    proof {
        reveal(assemble16);
        assert(p@ =~= spec_generate_chromatic(colors@, hsl_colors@, light_mode));
    }
    p
}

/// The lightness ramp window of the monochrome strategy: mode-dependent
/// offsets off the darkest and lightest samples, falling back to the raw
/// extremes when the window collapses.
pub open spec fn spec_mono_window(dl: int, ll: int, light: bool) -> (int, int) {
    if light {
        let s: int = min2(dl + 1000, ll - 1000);
        let e: int = min2(dl + 4000, ll - 1000);
        if e <= s {
            (dl, ll)
        } else {
            (s, e)
        }
    } else {
        let s: int = max2(dl + 3000, ll - 4000);
        let e: int = ll - 1000;
        if e <= s {
            (dl + 1000, ll)
        } else {
            (s, e)
        }
    }
}

/// The monochrome strategy: the raw lightness extremes as background and
/// foreground, a six-step lightness ramp at 5% saturation on the darkest
/// sample's hue, and mode-directional nudges for the bright row.
pub open spec fn spec_generate_monochrome(colors: Seq<Rgb>, hsls: Seq<Hsl>, light: bool) -> Seq<
    Rgb,
> {
    let n: int = hsls.len() as int;
    let di: int = darkest_upto(hsls, n);
    let li: int = lightest_upto(hsls, n);
    let dl: int = hsls[di].l as int;
    let ll: int = hsls[li].l as int;
    let base_hue: u32 = hsls[di].h;
    let bg: Rgb = if light {
        colors[li]
    } else {
        colors[di]
    };
    let fg: Rgb = if light {
        colors[di]
    } else {
        colors[li]
    };
    let win: (int, int) = spec_mono_window(dl, ll, light);
    let start: int = win.0;
    let range: int = max2(win.1 - start, 1500);
    let ansi0: Seq<Rgb> = Seq::new(
        6,
        |i: int|
            spec_hsl_to_rgb(
                Hsl {
                    h: base_hue,
                    s: MONOCHROME_SAT,
                    l: clamp2(start + i * range / 5, 0, 10000) as u32,
                },
            ),
    );
    let ansi: Seq<Rgb> = spec_normalize(ansi0, bg, light);
    let bb_l: int = if light {
        clamp2(dl + 500, 0, 10000)
    } else {
        clamp2(ll - 2500, 0, 10000)
    };
    let bright_black: Rgb = spec_hsl_to_rgb(Hsl { h: base_hue, s: 250, l: bb_l as u32 });
    let bright0: Seq<Rgb> = Seq::new(
        6,
        |i: int|
            spec_hsl_to_rgb(
                Hsl {
                    h: base_hue,
                    s: MONOCHROME_SAT,
                    l: clamp2(
                        start + i * range / 5 + if light {
                            -1000int
                        } else {
                            1000int
                        },
                        0,
                        10000,
                    ) as u32,
                },
            ),
    );
    let bright: Seq<Rgb> = spec_normalize(bright0, bg, light);
    let bw_l: int = if light {
        clamp2(dl - 500, 0, 10000)
    } else {
        clamp2(ll + 500, 0, 10000)
    };
    let bright_white: Rgb = spec_hsl_to_rgb(Hsl { h: base_hue, s: 200, l: bw_l as u32 });
    assemble16(bg, ansi, fg, bright_black, bright, bright_white)
}

/// Clamps a ramp lightness into the valid range.
fn clamp_l(v: i64) -> (r: u32)
    requires
        -100000 <= v <= 100000,
    ensures
        r as int == clamp2(v as int, 0, 10000),
{
    if v < 0 {
        0
    } else if v > 10000 {
        10000
    } else {
        v as u32
    }
}

/// Generates the monochrome palette from the samples.
#[verifier::rlimit(100)]
#[verifier::spinoff_prover]
pub fn generate_monochrome_palette(
    colors: &Vec<Rgb>,
    hsl_colors: &Vec<Hsl>,
    light_mode: bool,
) -> (p: Palette)
    requires
        colors@.len() == hsl_colors@.len(),
        colors@.len() > 0,
        forall|i: int| 0 <= i < hsl_colors@.len() ==> (#[trigger] hsl_colors@[i]).wf(),
    ensures
        p@ == spec_generate_monochrome(colors@, hsl_colors@, light_mode),
{
    let n: usize = colors.len();
    let extremes: (usize, usize) = find_lightness_extremes(hsl_colors);
    let di: usize = extremes.0;
    let li: usize = extremes.1;
    let dl: i64 = hsl_colors[di].l as i64;
    let ll: i64 = hsl_colors[li].l as i64;
    let base_hue: u32 = hsl_colors[di].h;
    proof {
        assert(hsl_colors@[di as int].wf());
        assert(hsl_colors@[li as int].wf());
    }
    let bg: Rgb = if light_mode {
        colors[li]
    } else {
        colors[di]
    };
    let fg: Rgb = if light_mode {
        colors[di]
    } else {
        colors[li]
    };
    let win: (i64, i64) = if light_mode {
        let s: i64 = if dl + 1000 <= ll - 1000 {
            dl + 1000
        } else {
            ll - 1000
        };
        let e: i64 = if dl + 4000 <= ll - 1000 {
            dl + 4000
        } else {
            ll - 1000
        };
        if e <= s {
            (dl, ll)
        } else {
            (s, e)
        }
    } else {
        let s: i64 = if dl + 3000 >= ll - 4000 {
            dl + 3000
        } else {
            ll - 4000
        };
        let e: i64 = ll - 1000;
        if e <= s {
            (dl + 1000, ll)
        } else {
            (s, e)
        }
    };
    let start: i64 = win.0;
    let end: i64 = win.1;
    let range: i64 = if end - start >= 1500 {
        end - start
    } else {
        1500
    };
    let ghost swin: (int, int) = spec_mono_window(dl as int, ll as int, light_mode);
    proof {
        assert(start as int == swin.0);
        assert(range as int == max2(swin.1 - swin.0, 1500));
    }
    let mut ansi: Vec<Rgb> = Vec::new();
    let mut i: usize = 0;
    while i < 6
        invariant
            i <= 6,
            base_hue < HUE_MAX,
            -30000 <= start <= 20000,
            1500 <= range <= 30000,
            ansi@.len() == i,
            forall|k: int|
                0 <= k < i ==> ansi@[k] == spec_hsl_to_rgb(
                    Hsl {
                        h: base_hue,
                        s: MONOCHROME_SAT,
                        l: clamp2(start as int + k * (range as int) / 5, 0, 10000) as u32,
                    },
                ),
        decreases 6 - i,
    {
        proof {
            assert(0 <= (i as int) * (range as int) <= 150000) by (nonlinear_arith)
                requires
                    0 <= (i as int) && (i as int) < 6,
                    1500 <= range as int <= 30000,
            ;
        }
        let l: u32 = clamp_l(start + (i as i64) * range / 5);
        ansi.push(Hsl::new(base_hue, MONOCHROME_SAT, l).to_rgb());
        i = i + 1;
    }
    proof {
        assert(ansi@ =~= Seq::new(
            6,
            |i: int|
                spec_hsl_to_rgb(
                    Hsl {
                        h: base_hue,
                        s: MONOCHROME_SAT,
                        l: clamp2(swin.0 + i * max2(swin.1 - swin.0, 1500) / 5, 0, 10000) as u32,
                    },
                ),
        ));
    }
    normalize_brightness(&mut ansi, &bg, light_mode);
    let bb_l: u32 = if light_mode {
        clamp_l(dl + 500)
    } else {
        clamp_l(ll - 2500)
    };
    let bright_black: Rgb = Hsl::new(base_hue, 250, bb_l).to_rgb();
    let mut bright: Vec<Rgb> = Vec::new();
    let mut i: usize = 0;
    while i < 6
        invariant
            i <= 6,
            base_hue < HUE_MAX,
            -30000 <= start <= 20000,
            1500 <= range <= 30000,
            bright@.len() == i,
            forall|k: int|
                0 <= k < i ==> bright@[k] == spec_hsl_to_rgb(
                    Hsl {
                        h: base_hue,
                        s: MONOCHROME_SAT,
                        l: clamp2(
                            start as int + k * (range as int) / 5 + if light_mode {
                                -1000int
                            } else {
                                1000int
                            },
                            0,
                            10000,
                        ) as u32,
                    },
                ),
        decreases 6 - i,
    {
        proof {
            assert(0 <= (i as int) * (range as int) <= 150000) by (nonlinear_arith)
                requires
                    0 <= (i as int) && (i as int) < 6,
                    1500 <= range as int <= 30000,
            ;
        }
        let base_l: i64 = start + (i as i64) * range / 5;
        let l: u32 = if light_mode {
            clamp_l(base_l - 1000)
        } else {
            clamp_l(base_l + 1000)
        };
        bright.push(Hsl::new(base_hue, MONOCHROME_SAT, l).to_rgb());
        i = i + 1;
    }
    proof {
        assert(bright@ =~= Seq::new(
            6,
            |i: int|
                spec_hsl_to_rgb(
                    Hsl {
                        h: base_hue,
                        s: MONOCHROME_SAT,
                        l: clamp2(
                            swin.0 + i * max2(swin.1 - swin.0, 1500) / 5 + if light_mode {
                                -1000int
                            } else {
                                1000int
                            },
                            0,
                            10000,
                        ) as u32,
                    },
                ),
        ));
    }
    normalize_brightness(&mut bright, &bg, light_mode);
    let bw_l: u32 = if light_mode {
        clamp_l(dl - 500)
    } else {
        clamp_l(ll + 500)
    };
    let bright_white: Rgb = Hsl::new(base_hue, 200, bw_l).to_rgb();
    let arr: [Rgb; 16] = [
        bg,
        ansi[0],
        ansi[1],
        ansi[2],
        ansi[3],
        ansi[4],
        ansi[5],
        fg,
        bright_black,
        bright[0],
        bright[1],
        bright[2],
        bright[3],
        bright[4],
        bright[5],
        bright_white,
    ];
    let p: Palette = Palette::new(arr);
    proof {
        reveal(assemble16);
        assert(p@ =~= spec_generate_monochrome(colors@, hsl_colors@, light_mode));
    }
    p
}

/// The hues of a sample list added up.
pub open spec fn hue_sum(s: Seq<Hsl>) -> int
    decreases s.len(),
{
    if s.len() == 0 {
        0
    } else {
        hue_sum(s.drop_last()) + s.last().h
    }
}

/// The average hue the subtle strategy tints its gray slots with: the
/// mean hue of the chromatic subset, or the darkest sample's hue when
/// there is none.
pub open spec fn spec_avg_hue(hsls: Seq<Hsl>) -> int {
    let chrom: Seq<Hsl> = chromatic_of(hsls);
    if chrom.len() == 0 {
        hsls[darkest_upto(hsls, hsls.len() as int)].h as int
    } else {
        hue_sum(chrom) / chrom.len() as int
    }
}

/// The subtle strategy: the raw lightness extremes as background and
/// foreground, the six canonical hues at 28% saturation on a symmetric
/// lightness ramp, and the average chromatic hue tinting the bright
/// anchors.
pub open spec fn spec_generate_subtle(colors: Seq<Rgb>, hsls: Seq<Hsl>, light: bool) -> Seq<Rgb> {
    let n: int = hsls.len() as int;
    let di: int = darkest_upto(hsls, n);
    let li: int = lightest_upto(hsls, n);
    let dl: int = hsls[di].l as int;
    let ll: int = hsls[li].l as int;
    let avg: int = spec_avg_hue(hsls);
    let bg: Rgb = if light {
        colors[li]
    } else {
        colors[di]
    };
    let fg: Rgb = if light {
        colors[di]
    } else {
        colors[li]
    };
    let ansi0: Seq<Rgb> = Seq::new(
        6,
        |i: int|
            spec_hsl_to_rgb(
                Hsl { h: spec_ansi_hue(i) as u32, s: SUBTLE_SAT, l: (4000 + i * 400) as u32 },
            ),
    );
    let ansi: Seq<Rgb> = spec_normalize(ansi0, bg, light);
    let bb_l: int = if light {
        clamp2(ll - 1500, 0, 10000)
    } else {
        clamp2(dl + 1500, 0, 10000)
    };
    let bright_black: Rgb = spec_hsl_to_rgb(Hsl { h: avg as u32, s: 1400, l: bb_l as u32 });
    let bright0: Seq<Rgb> = Seq::new(
        6,
        |i: int|
            spec_hsl_to_rgb(
                Hsl {
                    h: spec_ansi_hue(i) as u32,
                    s: 3600,
                    l: clamp2(
                        4000 + i * 400 + if light {
                            -800int
                        } else {
                            800int
                        },
                        0,
                        10000,
                    ) as u32,
                },
            ),
    );
    let bright: Seq<Rgb> = spec_normalize(bright0, bg, light);
    let bw_l: int = if light {
        clamp2(dl - 500, 0, 10000)
    } else {
        clamp2(ll + 500, 0, 10000)
    };
    let bright_white: Rgb = spec_hsl_to_rgb(Hsl { h: avg as u32, s: 840, l: bw_l as u32 });
    assemble16(bg, ansi, fg, bright_black, bright, bright_white)
}

/// Generates the subtle palette from the samples.
#[verifier::rlimit(100)]
#[verifier::spinoff_prover]
pub fn generate_subtle_palette(colors: &Vec<Rgb>, hsl_colors: &Vec<Hsl>, light_mode: bool) -> (p:
    Palette)
    requires
        colors@.len() == hsl_colors@.len(),
        colors@.len() > 0,
        colors@.len() < 100000000,
        forall|i: int| 0 <= i < hsl_colors@.len() ==> (#[trigger] hsl_colors@[i]).wf(),
    ensures
        p@ == spec_generate_subtle(colors@, hsl_colors@, light_mode),
{
    let n: usize = colors.len();
    let extremes: (usize, usize) = find_lightness_extremes(hsl_colors);
    let di: usize = extremes.0;
    let li: usize = extremes.1;
    proof {
        assert(hsl_colors@[di as int].wf());
        assert(hsl_colors@[li as int].wf());
    }
    let dl: i64 = hsl_colors[di].l as i64;
    let ll: i64 = hsl_colors[li].l as i64;
    let mut chrom: Vec<Hsl> = Vec::new();
    let mut i: usize = 0;
    while i < n
        invariant
            i <= n,
            n == hsl_colors@.len(),
            chrom@ == chromatic_of(hsl_colors@.take(i as int)),
        decreases n - i,
    {
        if hsl_colors[i].s >= crate::classify::SAT_THRESHOLD {
            let c: Hsl = hsl_colors[i];
            chrom.push(c);
        }
        proof {
            assert(hsl_colors@.take(i + 1).drop_last() =~= hsl_colors@.take(i as int));
            assert(hsl_colors@.take(i + 1).last() == hsl_colors@[i as int]);
        }
        i = i + 1;
    }
    proof {
        assert(hsl_colors@.take(n as int) =~= hsl_colors@);
        crate::classify::lemma_chromatic_wf(hsl_colors@);
        crate::classify::lemma_chromatic_len(hsl_colors@);
    }
    let avg: u32;
    if chrom.len() == 0 {
        avg = hsl_colors[di].h;
    } else {
        let m: usize = chrom.len();
        let mut sum: u64 = 0;
        let mut i: usize = 0;
        while i < m
            invariant
                i <= m,
                m == chrom@.len(),
                m < 100000000,
                forall|k: int| 0 <= k < chrom@.len() ==> (#[trigger] chrom@[k]).wf(),
                sum as int == hue_sum(chrom@.take(i as int)),
                sum as int <= (i as int) * 3599999,
            decreases m - i,
        {
            proof {
                assert(chrom@.take(i + 1).drop_last() =~= chrom@.take(i as int));
                assert(chrom@.take(i + 1).last() == chrom@[i as int]);
                assert(chrom@[i as int].wf());
            }
            sum = sum + (chrom[i].h as u64);
            i = i + 1;
        }
        proof {
            assert(chrom@.take(m as int) =~= chrom@);
            vstd::arithmetic::div_mod::lemma_multiply_divide_le(
                sum as int,
                m as int,
                3599999,
            );
            vstd::arithmetic::div_mod::lemma_div_pos_is_pos(sum as int, m as int);
        }
        avg = (sum / (m as u64)) as u32;
    }
    proof {
        assert(avg as int == spec_avg_hue(hsl_colors@));
        assert(avg < HUE_MAX);
    }
    let bg: Rgb = if light_mode {
        colors[li]
    } else {
        colors[di]
    };
    let fg: Rgb = if light_mode {
        colors[di]
    } else {
        colors[li]
    };
    let mut ansi: Vec<Rgb> = Vec::new();
    let mut i: usize = 0;
    while i < 6
        invariant
            i <= 6,
            ansi@.len() == i,
            forall|k: int|
                0 <= k < i ==> ansi@[k] == spec_hsl_to_rgb(
                    Hsl {
                        h: spec_ansi_hue(k) as u32,
                        s: SUBTLE_SAT,
                        l: (4000 + k * 400) as u32,
                    },
                ),
        decreases 6 - i,
    {
        let l: u32 = 4000 + (i as u32) * 400;
        ansi.push(Hsl::new(ansi_hue(i), SUBTLE_SAT, l).to_rgb());
        i = i + 1;
    }
    proof {
        assert(ansi@ =~= Seq::new(
            6,
            |i: int|
                spec_hsl_to_rgb(
                    Hsl { h: spec_ansi_hue(i) as u32, s: SUBTLE_SAT, l: (4000 + i * 400) as u32 },
                ),
        ));
    }
    normalize_brightness(&mut ansi, &bg, light_mode);
    let bb_l: u32 = if light_mode {
        clamp_l(ll - 1500)
    } else {
        clamp_l(dl + 1500)
    };
    let bright_black: Rgb = Hsl::new(avg, 1400, bb_l).to_rgb();
    let mut bright: Vec<Rgb> = Vec::new();
    let mut i: usize = 0;
    while i < 6
        invariant
            i <= 6,
            bright@.len() == i,
            forall|k: int|
                0 <= k < i ==> bright@[k] == spec_hsl_to_rgb(
                    Hsl {
                        h: spec_ansi_hue(k) as u32,
                        s: 3600,
                        l: clamp2(
                            4000 + k * 400 + if light_mode {
                                -800int
                            } else {
                                800int
                            },
                            0,
                            10000,
                        ) as u32,
                    },
                ),
        decreases 6 - i,
    {
        let base_l: u32 = 4000 + (i as u32) * 400;
        let l: u32 = if light_mode {
            base_l - 800
        } else {
            base_l + 800
        };
        bright.push(Hsl::new(ansi_hue(i), 3600, l).to_rgb());
        i = i + 1;
    }
    proof {
        assert(bright@ =~= Seq::new(
            6,
            |i: int|
                spec_hsl_to_rgb(
                    Hsl {
                        h: spec_ansi_hue(i) as u32,
                        s: 3600,
                        l: clamp2(
                            4000 + i * 400 + if light_mode {
                                -800int
                            } else {
                                800int
                            },
                            0,
                            10000,
                        ) as u32,
                    },
                ),
        ));
    }
    normalize_brightness(&mut bright, &bg, light_mode);
    let bw_l: u32 = if light_mode {
        clamp_l(dl - 500)
    } else {
        clamp_l(ll + 500)
    };
    let bright_white: Rgb = Hsl::new(avg, 840, bw_l).to_rgb();
    let arr: [Rgb; 16] = [
        bg,
        ansi[0],
        ansi[1],
        ansi[2],
        ansi[3],
        ansi[4],
        ansi[5],
        fg,
        bright_black,
        bright[0],
        bright[1],
        bright[2],
        bright[3],
        bright[4],
        bright[5],
        bright_white,
    ];
    let p: Palette = Palette::new(arr);
    proof {
        reveal(assemble16);
        assert(p@ =~= spec_generate_subtle(colors@, hsl_colors@, light_mode));
    }
    p
}

/// The HSL values of a sample list, derived once and used throughout.
pub open spec fn spec_hsl_list(colors: Seq<Rgb>) -> Seq<Hsl> {
    Seq::new(colors.len(), |i: int| spec_rgb_to_hsl(colors[i]))
}

/// A finished palette from raw samples: the built-in default for an empty
/// list, otherwise the strategy the classifier picks.
pub open spec fn spec_extract_palette(colors: Seq<Rgb>, light: bool) -> Seq<Rgb> {
    if colors.len() == 0 {
        spec_default_palette()
    } else {
        let hsls: Seq<Hsl> = spec_hsl_list(colors);
        if spec_classify(hsls) is Monochrome {
            spec_generate_monochrome(colors, hsls, light)
        } else if spec_classify(hsls) is LowDiversity {
            spec_generate_subtle(colors, hsls, light)
        } else {
            spec_generate_chromatic(colors, hsls, light)
        }
    }
}

/// Synthesizes the palette for a sample list: classifies the samples and
/// dispatches to the matching strategy; an empty list yields the built-in
/// default palette.
pub fn extract_palette(colors: &Vec<Rgb>, light_mode: bool) -> (p: Palette)
    requires
        colors@.len() < 100000000,
    ensures
        p@ == spec_extract_palette(colors@, light_mode),
{
    if colors.len() == 0 {
        return Palette::default();
    }
    let n: usize = colors.len();
    let mut hsls: Vec<Hsl> = Vec::new();
    let mut i: usize = 0;
    while i < n
        invariant
            i <= n,
            n == colors@.len(),
            hsls@.len() == i,
            forall|k: int| 0 <= k < i ==> hsls@[k] == spec_rgb_to_hsl(colors@[k]),
            forall|k: int| 0 <= k < i ==> (#[trigger] hsls@[k]).wf(),
        decreases n - i,
    {
        hsls.push(colors[i].to_hsl());
        i = i + 1;
    }
    proof {
        assert(hsls@ =~= spec_hsl_list(colors@));
    }
    match classify(&hsls) {
        Classification::Monochrome => generate_monochrome_palette(colors, &hsls, light_mode),
        Classification::LowDiversity => generate_subtle_palette(colors, &hsls, light_mode),
        Classification::Chromatic => generate_chromatic_palette(colors, &hsls, light_mode),
    }
}

/// The lightness the chromatic strategy's selection attributes to the
/// foreground.
pub open spec fn spec_chromatic_fg_lightness(colors: Seq<Rgb>, hsls: Seq<Hsl>, light: bool) -> int {
    spec_fg_selection_lightness(
        colors,
        hsls,
        spec_chromatic_bg(colors, hsls, light),
        spec_chromatic_used1(hsls, light),
        light,
    )
}

/// For chromatic-strategy output the foreground's selection lightness and
/// the background's lightness always differ by at least 40 points: the
/// re-synthesized background lands in a band that leaves room for the
/// contrast target on the opposite side.
pub proof fn lemma_chromatic_contrast(colors: Seq<Rgb>, hsls: Seq<Hsl>, light: bool)
    requires
        hsls.len() > 0,
        colors.len() == hsls.len(),
    ensures
        abs_diff(
            spec_chromatic_fg_lightness(colors, hsls, light),
            spec_rgb_to_hsl(spec_chromatic_bg(colors, hsls, light)).l as int,
        ) >= MIN_FG_CONTRAST,
{
    let idx: int = bg_scan(hsls, light, hsls.len() as int).0;
    lemma_bg_scan_bounds(hsls, light, hsls.len() as int);
    let hsl: Hsl = spec_rgb_to_hsl(colors[idx]);
    crate::color::lemma_rgb_to_hsl_wf(colors[idx]);
    let l: int = if light {
        clamp2(hsl.l as int, 8200, 9200)
    } else {
        clamp2(hsl.l as int, 800, 1400)
    };
    let synth: Hsl = Hsl { h: hsl.h, s: min2(hsl.s as int, 1500) as u32, l: l as u32 };
    assert(synth.wf());
    assert(spec_chromatic_bg(colors, hsls, light) == spec_hsl_to_rgb(synth));
    if light {
        crate::color::lemma_synth_lightness_light(synth);
    } else {
        crate::color::lemma_synth_lightness_dark(synth);
    }
    lemma_fg_contrast(
        colors,
        hsls,
        spec_chromatic_bg(colors, hsls, light),
        spec_chromatic_used1(hsls, light),
        light,
    );
}

/// The chromatic strategy fills exactly sixteen slots.
#[verifier::rlimit(100)]
pub proof fn lemma_chromatic_sixteen(colors: Seq<Rgb>, hsls: Seq<Hsl>, light: bool)
    ensures
        spec_generate_chromatic(colors, hsls, light).len() == 16,
{
    broadcast use lemma_assemble16_len;

}

/// The monochrome strategy fills exactly sixteen slots.
#[verifier::rlimit(100)]
pub proof fn lemma_monochrome_sixteen(colors: Seq<Rgb>, hsls: Seq<Hsl>, light: bool)
    ensures
        spec_generate_monochrome(colors, hsls, light).len() == 16,
{
    broadcast use lemma_assemble16_len;

}

/// The subtle strategy fills exactly sixteen slots.
#[verifier::rlimit(100)]
pub proof fn lemma_subtle_sixteen(colors: Seq<Rgb>, hsls: Seq<Hsl>, light: bool)
    ensures
        spec_generate_subtle(colors, hsls, light).len() == 16,
{
    broadcast use lemma_assemble16_len;

}

/// Every strategy fills exactly sixteen slots, and the dispatcher always
/// returns sixteen slots; every channel of every slot is a valid 8-bit
/// value by construction.
pub proof fn lemma_palette_completeness(colors: Seq<Rgb>, hsls: Seq<Hsl>, light: bool)
    requires
        hsls.len() > 0,
        colors.len() > 0,
        colors.len() == hsls.len(),
    ensures
        spec_generate_chromatic(colors, hsls, light).len() == 16,
        spec_generate_monochrome(colors, hsls, light).len() == 16,
        spec_generate_subtle(colors, hsls, light).len() == 16,
        spec_extract_palette(colors, light).len() == 16,
{
    lemma_chromatic_sixteen(colors, hsls, light);
    lemma_monochrome_sixteen(colors, hsls, light);
    lemma_subtle_sixteen(colors, hsls, light);
    let dh: Seq<Hsl> = spec_hsl_list(colors);
    lemma_chromatic_sixteen(colors, dh, light);
    lemma_monochrome_sixteen(colors, dh, light);
    lemma_subtle_sixteen(colors, dh, light);
}

/// Two syntheses from the same sample list and mode give bit-identical
/// palettes: the result is a function of the inputs alone.
pub proof fn lemma_determinism(colors: Seq<Rgb>, light: bool, p1: Palette, p2: Palette)
    requires
        p1@ == spec_extract_palette(colors, light),
        p2@ == spec_extract_palette(colors, light),
    ensures
        p1@ == p2@,
{
}

} // verus!
