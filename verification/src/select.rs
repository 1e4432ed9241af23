//! Sample selection: lightness extremes, background and foreground
//! candidates, and the best hue match for an ANSI slot.

use vstd::prelude::*;
use crate::color::{abs_diff, max2, min2, spec_hsl_to_rgb, spec_rgb_to_hsl, Hsl, Rgb, HUE_MAX};
use crate::classify::spec_hue_distance;

verus! {

/// Backgrounds in dark mode avoid lightness below 8%.
pub const MIN_BG_LIGHT_DARK: u32 = 800;

/// Backgrounds in light mode avoid lightness above 92%.
pub const MAX_BG_LIGHT_LIGHT: u32 = 9200;

/// Foreground and background lightness must differ by at least 40 points.
pub const MIN_FG_CONTRAST: u32 = 4000;

/// Clamps a value into a closed interval.
pub open spec fn clamp2(v: int, lo: int, hi: int) -> int {
    if v < lo {
        lo
    } else if v > hi {
        hi
    } else {
        v
    }
}

/// The index of the first sample of minimal lightness among the first `n`.
pub open spec fn darkest_upto(s: Seq<Hsl>, n: int) -> int
    decreases n,
{
    if n <= 1 {
        0
    } else {
        let p: int = darkest_upto(s, n - 1);
        if s[n - 1].l < s[p].l {
            n - 1
        } else {
            p
        }
    }
}

/// The index of the first sample of maximal lightness among the first `n`.
pub open spec fn lightest_upto(s: Seq<Hsl>, n: int) -> int
    decreases n,
{
    if n <= 1 {
        0
    } else {
        let p: int = lightest_upto(s, n - 1);
        if s[n - 1].l > s[p].l {
            n - 1
        } else {
            p
        }
    }
}

/// The extreme indices stay in range and really are the extremes.
pub proof fn lemma_extremes_bounds(s: Seq<Hsl>, n: int)
    requires
        1 <= n <= s.len(),
    ensures
        0 <= darkest_upto(s, n) < n,
        0 <= lightest_upto(s, n) < n,
        forall|j: int| 0 <= j < n ==> s[darkest_upto(s, n)].l <= (#[trigger] s[j]).l,
        forall|j: int| 0 <= j < n ==> s[lightest_upto(s, n)].l >= (#[trigger] s[j]).l,
    decreases n,
{
    if n > 1 {
        lemma_extremes_bounds(s, n - 1);
    }
}

/// Finds the first darkest and first lightest samples.
pub fn find_lightness_extremes(colors: &Vec<Hsl>) -> (res: (usize, usize))
    requires
        colors@.len() > 0,
    ensures
        res.0 as int == darkest_upto(colors@, colors@.len() as int),
        res.1 as int == lightest_upto(colors@, colors@.len() as int),
        res.0 < colors@.len(),
        res.1 < colors@.len(),
{
    let n: usize = colors.len();
    let mut darkest: usize = 0;
    let mut lightest: usize = 0;
    let mut min_l: u32 = colors[0].l;
    let mut max_l: u32 = colors[0].l;
    let mut i: usize = 1;
    while i < n
        invariant
            1 <= i <= n,
            n == colors@.len(),
            darkest as int == darkest_upto(colors@, i as int),
            lightest as int == lightest_upto(colors@, i as int),
            darkest < i,
            lightest < i,
            min_l == colors@[darkest as int].l,
            max_l == colors@[lightest as int].l,
        decreases n - i,
    {
        if colors[i].l < min_l {
            min_l = colors[i].l;
            darkest = i;
        }
        if colors[i].l > max_l {
            max_l = colors[i].l;
            lightest = i;
        }
        i = i + 1;
    }
    proof {
        lemma_extremes_bounds(colors@, n as int);
    }
    (darkest, lightest)
}

/// The background scan state after the first `n` samples: the candidate
/// index and its lightness. In dark mode the scan wants the lowest
/// lightness still at or above 8%; in light mode the highest still at or
/// below 92%. Index 0 is the sentinel when nothing qualifies.
pub open spec fn bg_scan(s: Seq<Hsl>, light: bool, n: int) -> (int, int)
    decreases n,
{
    if n <= 0 {
        (0, if light {
            0int
        } else {
            10000int
        })
    } else {
        let p: (int, int) = bg_scan(s, light, n - 1);
        let l: int = s[n - 1].l as int;
        if light {
            if l <= MAX_BG_LIGHT_LIGHT && l > p.1 {
                (n - 1, l)
            } else {
                p
            }
        } else {
            if l >= MIN_BG_LIGHT_DARK && l < p.1 {
                (n - 1, l)
            } else {
                p
            }
        }
    }
}

/// The scan index stays in range.
pub proof fn lemma_bg_scan_bounds(s: Seq<Hsl>, light: bool, n: int)
    requires
        0 <= n,
    ensures
        0 <= bg_scan(s, light, n).0 < max2(n, 1),
    decreases n,
{
    if n > 0 {
        lemma_bg_scan_bounds(s, light, n - 1);
    }
}

/// The background pick: the scanned candidate, re-synthesized with
/// saturation capped at 15% and lightness clamped into the mode's narrow
/// band near its target extreme (dark: 8% to 14%, light: 82% to 92%).
pub open spec fn spec_find_background(colors: Seq<Rgb>, hsls: Seq<Hsl>, light: bool) -> (
    int,
    Rgb,
) {
    let idx: int = bg_scan(hsls, light, hsls.len() as int).0;
    let hsl: Hsl = spec_rgb_to_hsl(colors[idx]);
    let l: int = if light {
        clamp2(hsl.l as int, 8200, 9200)
    } else {
        clamp2(hsl.l as int, 800, 1400)
    };
    (
        idx,
        spec_hsl_to_rgb(
            Hsl { h: hsl.h, s: min2(hsl.s as int, 1500) as u32, l: l as u32 },
        ),
    )
}

/// Picks the background sample and re-synthesizes it into a usable
/// near-black or near-white surface.
pub fn find_background(colors: &Vec<Rgb>, hsl_colors: &Vec<Hsl>, light_mode: bool) -> (res: (
    usize,
    Rgb,
))
    requires
        colors@.len() == hsl_colors@.len(),
        colors@.len() > 0,
    ensures
        res.0 as int == spec_find_background(colors@, hsl_colors@, light_mode).0,
        res.1 == spec_find_background(colors@, hsl_colors@, light_mode).1,
        res.0 < colors@.len(),
{
    let n: usize = hsl_colors.len();
    let mut best_idx: usize = 0;
    let mut best_l: u32 = if light_mode {
        0
    } else {
        10000
    };
    let mut i: usize = 0;
    while i < n
        invariant
            i <= n,
            n == hsl_colors@.len(),
            best_idx as int == bg_scan(hsl_colors@, light_mode, i as int).0,
            best_l as int == bg_scan(hsl_colors@, light_mode, i as int).1,
            best_idx < max2(i as int, 1),
        decreases n - i,
    {
        let l: u32 = hsl_colors[i].l;
        if light_mode {
            if l <= MAX_BG_LIGHT_LIGHT && l > best_l {
                best_l = l;
                best_idx = i;
            }
        } else {
            if l >= MIN_BG_LIGHT_DARK && l < best_l {
                best_l = l;
                best_idx = i;
            }
        }
        i = i + 1;
    }
    let hsl: Hsl = colors[best_idx].to_hsl();
    let l: u32 = if light_mode {
        if hsl.l < 8200 {
            8200
        } else if hsl.l > 9200 {
            9200
        } else {
            hsl.l
        }
    } else {
        if hsl.l < 800 {
            800
        } else if hsl.l > 1400 {
            1400
        } else {
            hsl.l
        }
    };
    let s: u32 = if hsl.s <= 1500 {
        hsl.s
    } else {
        1500
    };
    let bg: Rgb = Hsl::new(hsl.h, s, l).to_rgb();
    (best_idx, bg)
}

/// The foreground scan state after the first `n` samples: the index of
/// the unused sample whose lightness is most extreme opposite the mode
/// (lightest in dark mode, darkest in light mode), and that lightness.
/// Index 0 is the sentinel when nothing beats the starting bound.
pub open spec fn fg_scan(s: Seq<Hsl>, used: Seq<bool>, light: bool, n: int) -> (int, int)
    decreases n,
{
    if n <= 0 {
        (0, if light {
            10000int
        } else {
            0int
        })
    } else {
        let p: (int, int) = fg_scan(s, used, light, n - 1);
        let l: int = s[n - 1].l as int;
        if used[n - 1] {
            p
        } else if light {
            if l < p.1 {
                (n - 1, l)
            } else {
                p
            }
        } else {
            if l > p.1 {
                (n - 1, l)
            } else {
                p
            }
        }
    }
}

/// The lightness the foreground is re-synthesized at when the picked
/// sample's contrast against the background is too low: 40 points away
/// from the background, clamped to the valid range.
pub open spec fn spec_fg_target(bg_l: int, light: bool) -> int {
    if light {
        if bg_l >= 4000 {
            bg_l - 4000
        } else {
            0int
        }
    } else {
        min2(bg_l + 4000, 10000)
    }
}

/// The foreground pick: the scanned sample as is when its contrast
/// against the background reaches 40 points, otherwise re-synthesized at
/// the contrast target with saturation capped at 10%.
pub open spec fn spec_find_foreground(
    colors: Seq<Rgb>,
    hsls: Seq<Hsl>,
    bg: Rgb,
    used: Seq<bool>,
    light: bool,
) -> (int, Rgb) {
    let bg_l: int = spec_rgb_to_hsl(bg).l as int;
    let idx: int = fg_scan(hsls, used, light, hsls.len() as int).0;
    let fh: Hsl = spec_rgb_to_hsl(colors[idx]);
    if abs_diff(fh.l as int, bg_l) < MIN_FG_CONTRAST {
        (
            idx,
            spec_hsl_to_rgb(
                Hsl {
                    h: fh.h,
                    s: min2(fh.s as int, 1000) as u32,
                    l: spec_fg_target(bg_l, light) as u32,
                },
            ),
        )
    } else {
        (idx, colors[idx])
    }
}

/// The lightness the selection attributes to the foreground: the picked
/// sample's own lightness, or the re-synthesis target.
pub open spec fn spec_fg_selection_lightness(
    colors: Seq<Rgb>,
    hsls: Seq<Hsl>,
    bg: Rgb,
    used: Seq<bool>,
    light: bool,
) -> int {
    let bg_l: int = spec_rgb_to_hsl(bg).l as int;
    let idx: int = fg_scan(hsls, used, light, hsls.len() as int).0;
    let fh: Hsl = spec_rgb_to_hsl(colors[idx]);
    if abs_diff(fh.l as int, bg_l) < MIN_FG_CONTRAST {
        spec_fg_target(bg_l, light)
    } else {
        fh.l as int
    }
}

/// Whenever the background lightness leaves room for the contrast target
/// (at most 60% in dark mode, at least 40% in light mode), the selected
/// foreground lightness ends at least 40 points away from it.
pub proof fn lemma_fg_contrast(
    colors: Seq<Rgb>,
    hsls: Seq<Hsl>,
    bg: Rgb,
    used: Seq<bool>,
    light: bool,
)
    requires
        if light {
            spec_rgb_to_hsl(bg).l >= 4000
        } else {
            spec_rgb_to_hsl(bg).l <= 6000
        },
    ensures
        abs_diff(
            spec_fg_selection_lightness(colors, hsls, bg, used, light),
            spec_rgb_to_hsl(bg).l as int,
        ) >= MIN_FG_CONTRAST,
{
}

/// Picks the foreground among unused samples, re-synthesizing it when its
/// contrast against the background falls short of 40 points.
pub fn find_foreground(
    colors: &Vec<Rgb>,
    hsl_colors: &Vec<Hsl>,
    bg: &Rgb,
    light_mode: bool,
    used: &Vec<bool>,
) -> (res: (usize, Rgb))
    requires
        colors@.len() == hsl_colors@.len(),
        used@.len() == hsl_colors@.len(),
        colors@.len() > 0,
    ensures
        res.0 as int == spec_find_foreground(colors@, hsl_colors@, *bg, used@, light_mode).0,
        res.1 == spec_find_foreground(colors@, hsl_colors@, *bg, used@, light_mode).1,
        res.0 < colors@.len(),
{
    let bg_hsl: Hsl = bg.to_hsl();
    let bg_l: u32 = bg_hsl.l;
    let n: usize = hsl_colors.len();
    let mut best_idx: usize = 0;
    let mut best_l: u32 = if light_mode {
        10000
    } else {
        0
    };
    let mut i: usize = 0;
    while i < n
        invariant
            i <= n,
            n == hsl_colors@.len(),
            n == used@.len(),
            best_idx as int == fg_scan(hsl_colors@, used@, light_mode, i as int).0,
            best_l as int == fg_scan(hsl_colors@, used@, light_mode, i as int).1,
            best_idx < max2(i as int, 1),
        decreases n - i,
    {
        if !used[i] {
            let l: u32 = hsl_colors[i].l;
            if light_mode {
                if l < best_l {
                    best_l = l;
                    best_idx = i;
                }
            } else {
                if l > best_l {
                    best_l = l;
                    best_idx = i;
                }
            }
        }
        i = i + 1;
    }
    let fg_hsl: Hsl = colors[best_idx].to_hsl();
    let contrast: u32 = if fg_hsl.l >= bg_l {
        fg_hsl.l - bg_l
    } else {
        bg_l - fg_hsl.l
    };
    if contrast < MIN_FG_CONTRAST {
        let target_l: u32 = if light_mode {
            if bg_l >= 4000 {
                bg_l - 4000
            } else {
                0
            }
        } else {
            if bg_l + 4000 <= 10000 {
                bg_l + 4000
            } else {
                10000
            }
        };
        let s: u32 = if fg_hsl.s <= 1000 {
            fg_hsl.s
        } else {
            1000
        };
        let fg: Rgb = Hsl::new(fg_hsl.h, s, target_l).to_rgb();
        (best_idx, fg)
    } else {
        (best_idx, colors[best_idx])
    }
}

/// The score of a sample against a target hue: three times the hue
/// distance, plus 50 degrees for a grayscale-like sample and 10 degrees
/// for one whose lightness leaves the 20% to 85% band.
pub open spec fn spec_match_score(c: Hsl, target: int) -> int {
    spec_hue_distance(c.h as int, target) * 3 + (if c.s < 1500 {
        500000int
    } else {
        0int
    }) + (if c.l < 2000 || c.l > 8500 {
        100000int
    } else {
        0int
    })
}

/// The best-match scan over the first `n` samples: the first unused index
/// of minimal score, or nothing when every sample is used.
pub open spec fn match_scan(s: Seq<Hsl>, used: Seq<bool>, target: int, n: int) -> Option<int>
    decreases n,
{
    if n <= 0 {
        None
    } else {
        let p: Option<int> = match_scan(s, used, target, n - 1);
        if used[n - 1] {
            p
        } else {
            match p {
                None => Some(n - 1),
                Some(k) => if spec_match_score(s[n - 1], target) < spec_match_score(s[k], target) {
                    Some(n - 1)
                } else {
                    Some(k)
                },
            }
        }
    }
}

/// The scan result stays in range and is unused.
pub proof fn lemma_match_scan_bounds(s: Seq<Hsl>, used: Seq<bool>, target: int, n: int)
    requires
        0 <= n,
    ensures
        match_scan(s, used, target, n) matches Some(k) ==> 0 <= k < n && !used[k],
    decreases n,
{
    if n > 0 {
        lemma_match_scan_bounds(s, used, target, n - 1);
    }
}

/// The score of a sample against a target hue.
fn match_score(c: &Hsl, target: u32) -> (sc: u64)
    requires
        c.wf(),
        target < HUE_MAX,
    ensures
        sc as int == spec_match_score(*c, target as int),
{
    let hd: u32 = crate::classify::hue_distance(c.h, target);
    let sat_pen: u64 = if c.s < 1500 {
        500000
    } else {
        0
    };
    let l_pen: u64 = if c.l < 2000 || c.l > 8500 {
        100000
    } else {
        0
    };
    (hd as u64) * 3 + sat_pen + l_pen
}

/// Finds the unused sample best matching a target hue; nothing when all
/// samples are used.
pub fn find_best_color_match(
    colors: &Vec<Rgb>,
    hsl_colors: &Vec<Hsl>,
    target_hue: u32,
    used: &Vec<bool>,
) -> (res: Option<(usize, Rgb)>)
    requires
        colors@.len() == hsl_colors@.len(),
        used@.len() == hsl_colors@.len(),
        target_hue < HUE_MAX,
        forall|i: int| 0 <= i < hsl_colors@.len() ==> (#[trigger] hsl_colors@[i]).wf(),
    ensures
        res is Some <==> match_scan(hsl_colors@, used@, target_hue as int, hsl_colors@.len() as int)
            is Some,
        res matches Some((i, c)) ==> {
            &&& match_scan(hsl_colors@, used@, target_hue as int, hsl_colors@.len() as int)
                == Some(i as int)
            &&& i < colors@.len()
            &&& c == colors@[i as int]
        },
{
    let n: usize = hsl_colors.len();
    let mut best_idx: Option<usize> = None;
    let mut best_score: u64 = 0;
    let mut i: usize = 0;
    while i < n
        invariant
            i <= n,
            n == hsl_colors@.len(),
            n == used@.len(),
            target_hue < HUE_MAX,
            forall|k: int| 0 <= k < hsl_colors@.len() ==> (#[trigger] hsl_colors@[k]).wf(),
            best_idx is Some <==> match_scan(hsl_colors@, used@, target_hue as int, i as int)
                is Some,
            best_idx matches Some(bi) ==> {
                &&& match_scan(hsl_colors@, used@, target_hue as int, i as int) == Some(bi as int)
                &&& bi < i
                &&& best_score as int == spec_match_score(hsl_colors@[bi as int], target_hue as int)
            },
        decreases n - i,
    {
        if !used[i] {
            let sc: u64 = match_score(&hsl_colors[i], target_hue);
            match best_idx {
                None => {
                    best_idx = Some(i);
                    best_score = sc;
                },
                Some(_) => {
                    if sc < best_score {
                        best_idx = Some(i);
                        best_score = sc;
                    }
                },
            }
        }
        i = i + 1;
    }
    match best_idx {
        None => None,
        Some(k) => Some((k, colors[k])),
    }
}

} // verus!
