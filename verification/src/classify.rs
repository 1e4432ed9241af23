//! The sample classifier: labels an HSL sample list as monochrome,
//! low-diversity or chromatic.

use vstd::prelude::*;
use crate::color::{abs_diff, Hsl, HUE_MAX};

verus! {

/// Samples below 15% saturation count as grayscale-like.
pub const SAT_THRESHOLD: u32 = 1500;

/// Two hues within 30 degrees are similar.
pub const SIMILAR_HUE_RANGE: u32 = 300000;

/// Two lightness values within 20 points are similar.
pub const SIMILAR_LIGHT_RANGE: u32 = 2000;

/// The statistical character of a sample list.
#[derive(Clone, Copy, Debug, PartialEq, Eq, Structural)]
pub enum Classification {
    Monochrome,
    LowDiversity,
    Chromatic,
}

/// Whether a sample is grayscale-like (saturation below the threshold).
pub open spec fn is_low_sat(c: Hsl) -> bool {
    c.s < SAT_THRESHOLD
}

/// How many samples are grayscale-like.
pub open spec fn low_sat_count(s: Seq<Hsl>) -> int
    decreases s.len(),
{
    if s.len() == 0 {
        0
    } else {
        low_sat_count(s.drop_last()) + if is_low_sat(s.last()) {
            1int
        } else {
            0int
        }
    }
}

/// A sample list is monochrome when more than 70% of it is grayscale-like.
pub open spec fn spec_is_monochrome(s: Seq<Hsl>) -> bool {
    10 * low_sat_count(s) > 7 * s.len()
}

/// The chromatic subset: the samples at or above the saturation threshold,
/// in order.
pub open spec fn chromatic_of(s: Seq<Hsl>) -> Seq<Hsl>
    decreases s.len(),
{
    if s.len() == 0 {
        Seq::empty()
    } else {
        chromatic_of(s.drop_last()) + if !is_low_sat(s.last()) {
            seq![s.last()]
        } else {
            Seq::empty()
        }
    }
}

/// The distance between two hues: the shorter arc on the hue circle.
pub open spec fn spec_hue_distance(h1: int, h2: int) -> int {
    let d: int = abs_diff(h1, h2);
    if d > 1800000 {
        HUE_MAX as int - d
    } else {
        d
    }
}

/// Two samples are similar when their hues are within 30 degrees and
/// their lightness within 20 points.
pub open spec fn spec_similar(a: Hsl, b: Hsl) -> bool {
    spec_hue_distance(a.h as int, b.h as int) < SIMILAR_HUE_RANGE
        && abs_diff(a.l as int, b.l as int) < SIMILAR_LIGHT_RANGE
}

/// How many samples of a list are similar to a given one.
pub open spec fn sim_count_with(c: Hsl, s: Seq<Hsl>) -> int
    decreases s.len(),
{
    if s.len() == 0 {
        0
    } else {
        sim_count_with(c, s.drop_last()) + if spec_similar(c, s.last()) {
            1int
        } else {
            0int
        }
    }
}

/// How many unordered pairs of a list are similar.
pub open spec fn sim_pair_count(s: Seq<Hsl>) -> int
    decreases s.len(),
{
    if s.len() == 0 {
        0
    } else {
        sim_count_with(s[0], s.skip(1)) + sim_pair_count(s.skip(1))
    }
}

/// How many unordered pairs a list has in all.
pub open spec fn pair_total(s: Seq<Hsl>) -> int
    decreases s.len(),
{
    if s.len() == 0 {
        0
    } else {
        (s.len() - 1) + pair_total(s.skip(1))
    }
}

/// A sample list has low diversity when its chromatic subset is too small
/// to pair, or when more than 60% of the subset's pairs are similar.
pub open spec fn spec_has_low_diversity(s: Seq<Hsl>) -> bool {
    let chrom: Seq<Hsl> = chromatic_of(s);
    chrom.len() < 2 || pair_total(chrom) == 0 || 5 * sim_pair_count(chrom) > 3 * pair_total(chrom)
}

/// The classification of a sample list: monochrome first, then low
/// diversity, otherwise chromatic.
pub open spec fn spec_classify(s: Seq<Hsl>) -> Classification {
    if spec_is_monochrome(s) {
        Classification::Monochrome
    } else if spec_has_low_diversity(s) {
        Classification::LowDiversity
    } else {
        Classification::Chromatic
    }
}

/// Every non-empty sample list gets exactly one label: monochrome wins
/// first, low diversity second, and chromatic is what remains.
pub proof fn lemma_classification_total(s: Seq<Hsl>)
    requires
        s.len() > 0,
    ensures
        spec_classify(s) is Monochrome || spec_classify(s) is LowDiversity || spec_classify(s)
            is Chromatic,
        spec_classify(s) is Monochrome <==> spec_is_monochrome(s),
        spec_classify(s) is LowDiversity <==> (!spec_is_monochrome(s) && spec_has_low_diversity(
            s,
        )),
        spec_classify(s) is Chromatic <==> (!spec_is_monochrome(s) && !spec_has_low_diversity(s)),
{
}

/// No more samples are similar to a given one than the list holds.
proof fn lemma_sim_count_le(c: Hsl, s: Seq<Hsl>)
    ensures
        0 <= sim_count_with(c, s) <= s.len(),
    decreases s.len(),
{
    if s.len() > 0 {
        lemma_sim_count_le(c, s.drop_last());
    }
}

/// Pair counts are non-negative, bounded by the square of the length,
/// and the similar pairs never outnumber all pairs.
proof fn lemma_pair_count_bounds(s: Seq<Hsl>)
    ensures
        0 <= sim_pair_count(s) <= pair_total(s),
        pair_total(s) <= s.len() * s.len(),
    decreases s.len(),
{
    if s.len() > 0 {
        lemma_pair_count_bounds(s.skip(1));
        lemma_sim_count_le(s[0], s.skip(1));
        assert((s.len() - 1) + (s.len() - 1) * (s.len() - 1) <= s.len() * s.len())
            by (nonlinear_arith)
            requires
                s.len() >= 1,
        ;
    }
}

/// The distance between two hues, the shorter way around the circle.
pub fn hue_distance(h1: u32, h2: u32) -> (d: u32)
    requires
        h1 < HUE_MAX,
        h2 < HUE_MAX,
    ensures
        d as int == spec_hue_distance(h1 as int, h2 as int),
{
    let diff: u32 = if h1 >= h2 {
        h1 - h2
    } else {
        h2 - h1
    };
    if diff > 1800000 {
        HUE_MAX - diff
    } else {
        diff
    }
}

/// Whether two samples are similar in hue and lightness.
fn similar(a: &Hsl, b: &Hsl) -> (r: bool)
    requires
        a.wf(),
        b.wf(),
    ensures
        r == spec_similar(*a, *b),
{
    let hd: u32 = hue_distance(a.h, b.h);
    let ld: u32 = if a.l >= b.l {
        a.l - b.l
    } else {
        b.l - a.l
    };
    hd < SIMILAR_HUE_RANGE && ld < SIMILAR_LIGHT_RANGE
}

/// Whether more than 70% of the samples are grayscale-like.
pub fn is_monochrome(colors: &Vec<Hsl>) -> (r: bool)
    ensures
        r == spec_is_monochrome(colors@),
{
    let n: usize = colors.len();
    let mut count: usize = 0;
    let mut i: usize = 0;
    while i < n
        invariant
            i <= n,
            n == colors@.len(),
            count <= i,
            count as int == low_sat_count(colors@.take(i as int)),
        decreases n - i,
    {
        if colors[i].s < SAT_THRESHOLD {
            count = count + 1;
        }
        proof {
            assert(colors@.take(i + 1).drop_last() =~= colors@.take(i as int));
            assert(colors@.take(i + 1).last() == colors@[i as int]);
        }
        i = i + 1;
    }
    proof {
        assert(colors@.take(n as int) =~= colors@);
    }
    10 * (count as u128) > 7 * (n as u128)
}

/// Whether the chromatic subset is too small or too self-similar to give
/// each canonical hue its own sample.
pub fn has_low_diversity(colors: &Vec<Hsl>) -> (r: bool)
    requires
        colors@.len() < 100000000,
        forall|i: int| 0 <= i < colors@.len() ==> (#[trigger] colors@[i]).wf(),
    ensures
        r == spec_has_low_diversity(colors@),
{
    let mut chrom: Vec<Hsl> = Vec::new();
    let n0: usize = colors.len();
    let mut i: usize = 0;
    while i < n0
        invariant
            i <= n0,
            n0 == colors@.len(),
            colors@.len() < 100000000,
            forall|k: int| 0 <= k < colors@.len() ==> (#[trigger] colors@[k]).wf(),
            chrom@ == chromatic_of(colors@.take(i as int)),
        decreases n0 - i,
    {
        if colors[i].s >= SAT_THRESHOLD {
            let c: Hsl = colors[i];
            chrom.push(c);
        }
        proof {
            assert(colors@.take(i + 1).drop_last() =~= colors@.take(i as int));
            assert(colors@.take(i + 1).last() == colors@[i as int]);
        }
        i = i + 1;
    }
    proof {
        assert(colors@.take(n0 as int) =~= colors@);
        lemma_chromatic_len(colors@);
        lemma_chromatic_wf(colors@);
    }
    let n: usize = chrom.len();
    if n < 2 {
        return true;
    }
    proof {
        lemma_pair_count_bounds(chrom@);
        assert(chrom@.skip(0) =~= chrom@);
        assert((n as int) * (n as int) < 10000000000000000int) by (nonlinear_arith)
            requires
                0 <= (n as int) < 100000000,
        ;
    }
    let mut sim: u64 = 0;
    let mut total: u64 = 0;
    let mut i: usize = 0;
    while i < n
        invariant
            i <= n,
            n == chrom@.len(),
            n < 100000000,
            forall|k: int| 0 <= k < chrom@.len() ==> (#[trigger] chrom@[k]).wf(),
            sim as int == sim_pair_count(chrom@) - sim_pair_count(chrom@.skip(i as int)),
            total as int == pair_total(chrom@) - pair_total(chrom@.skip(i as int)),
            0 <= sim_pair_count(chrom@.skip(i as int)) <= pair_total(chrom@.skip(i as int)),
            pair_total(chrom@.skip(i as int)) <= pair_total(chrom@),
            pair_total(chrom@) <= (n as int) * (n as int),
            (n as int) * (n as int) < 10000000000000000int,
            0 <= sim_pair_count(chrom@) <= pair_total(chrom@),
        decreases n - i,
    {
        let c: Hsl = chrom[i];
        let mut cnt: u64 = 0;
        let mut j: usize = i + 1;
        while j < n
            invariant
                i < j <= n,
                n == chrom@.len(),
                n < 100000000,
                forall|k: int| 0 <= k < chrom@.len() ==> (#[trigger] chrom@[k]).wf(),
                c == chrom@[i as int],
                cnt as int == sim_count_with(c, chrom@.subrange(i as int + 1, j as int)),
                cnt <= j - i - 1,
            decreases n - j,
        {
            proof {
                lemma_sim_count_le(c, chrom@.subrange(i as int + 1, j as int));
            }
            if similar(&c, &chrom[j]) {
                cnt = cnt + 1;
            }
            proof {
                assert(chrom@.subrange(i as int + 1, j + 1).drop_last() =~= chrom@.subrange(
                    i as int + 1,
                    j as int,
                ));
                assert(chrom@.subrange(i as int + 1, j + 1).last() == chrom@[j as int]);
            }
            j = j + 1;
        }
        proof {
            let rest: Seq<Hsl> = chrom@.skip(i as int);
            assert(rest[0] == chrom@[i as int]);
            assert(rest.skip(1) =~= chrom@.skip(i as int + 1));
            assert(chrom@.subrange(i as int + 1, n as int) =~= chrom@.skip(i as int + 1));
            assert(sim_pair_count(rest) == sim_count_with(c, chrom@.skip(i as int + 1))
                + sim_pair_count(chrom@.skip(i as int + 1)));
            assert(pair_total(rest) == (n - i - 1) + pair_total(chrom@.skip(i as int + 1)));
            lemma_pair_count_bounds(chrom@.skip(i as int + 1));
            assert(sim as int + cnt as int == sim_pair_count(chrom@) - sim_pair_count(
                chrom@.skip(i as int + 1),
            ));
            assert(total as int + (n - i - 1) == pair_total(chrom@) - pair_total(
                chrom@.skip(i as int + 1),
            ));
        }
        sim = sim + cnt;
        total = total + ((n - i - 1) as u64);
        i = i + 1;
    }
    proof {
        assert(chrom@.skip(n as int) =~= Seq::<Hsl>::empty());
    }
    if total == 0 {
        return true;
    }
    5 * sim > 3 * total
}

/// The chromatic subset is never longer than the sample list.
pub proof fn lemma_chromatic_len(s: Seq<Hsl>)
    ensures
        chromatic_of(s).len() <= s.len(),
    decreases s.len(),
{
    if s.len() > 0 {
        lemma_chromatic_len(s.drop_last());
    }
}

/// The chromatic subset of a well-formed sample list is well-formed.
pub proof fn lemma_chromatic_wf(s: Seq<Hsl>)
    requires
        forall|i: int| 0 <= i < s.len() ==> (#[trigger] s[i]).wf(),
    ensures
        forall|i: int| 0 <= i < chromatic_of(s).len() ==> (#[trigger] chromatic_of(s)[i]).wf(),
    decreases s.len(),
{
    if s.len() > 0 {
        assert(forall|i: int|
            0 <= i < s.drop_last().len() ==> (#[trigger] s.drop_last()[i]).wf());
        lemma_chromatic_wf(s.drop_last());
        let cd: Seq<Hsl> = chromatic_of(s.drop_last());
        assert(s[s.len() - 1].wf());
        assert forall|i: int| 0 <= i < chromatic_of(s).len() implies (#[trigger] chromatic_of(
            s,
        )[i]).wf() by {
            if i < cd.len() {
                assert(chromatic_of(s)[i] == cd[i]);
            } else {
                assert(chromatic_of(s)[i] == s.last());
            }
        }
    }
}

/// Labels a non-empty sample list: monochrome, low-diversity or chromatic.
pub fn classify(colors: &Vec<Hsl>) -> (c: Classification)
    requires
        colors@.len() > 0,
        colors@.len() < 100000000,
        forall|i: int| 0 <= i < colors@.len() ==> (#[trigger] colors@[i]).wf(),
    ensures
        c == spec_classify(colors@),
{
    if is_monochrome(colors) {
        Classification::Monochrome
    } else if has_low_diversity(colors) {
        Classification::LowDiversity
    } else {
        Classification::Chromatic
    }
}

} // verus!
