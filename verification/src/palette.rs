//! Colour-theme extraction from a downscaled pixel grid.
//!
//! The pixels are quantized to 16-wide channel buckets and counted;
//! colours are ranked by descending frequency; the accent, secondary and
//! background roles are then picked by saturation and luminance
//! heuristics, with fixed fallbacks when nothing qualifies.
//!
//! All perceptual arithmetic is integral: luminance on the 0..=255000
//! scale of [`lum_1000`], saturation thresholds cross-multiplied, and
//! the accent score `saturation * sqrt(frequency)` compared by squaring
//! both sides.

use crate::color::{
    darkened, lightened, lum_1000, max_channel, min_channel, muted_spec, ColorPalette, Rgb,
};
use vstd::multiset::Multiset;
use vstd::pervasive::VecAdditionalExecFns;
use vstd::prelude::*;

verus! {

/// `c` with every channel rounded down to a multiple of 16.
pub open spec fn quantized(c: Rgb) -> Rgb {
    Rgb { r: (c.r / 16 * 16) as u8, g: (c.g / 16 * 16) as u8, b: (c.b / 16 * 16) as u8 }
}

/// How many pixels of `s` quantize to the colour `c`.
pub open spec fn cnt(s: Seq<Rgb>, c: Rgb) -> int
    decreases s.len(),
{
    if s.len() == 0 {
        0
    } else {
        cnt(s.drop_last(), c) + if quantized(s.last()) == c {
            1int
        } else {
            0int
        }
    }
}

/// No colour appears under two entries.
pub open spec fn color_distinct(cs: Seq<(Rgb, u32)>) -> bool {
    forall|i: int, j: int| 0 <= i < j < cs.len() ==> cs[i].0 != cs[j].0
}

/// `cs` is exactly the quantized-colour frequency table of `pixels`:
/// distinct colours, each entry carrying its true positive count, and no
/// occurring colour missing.
pub open spec fn counts_exact(pixels: Seq<Rgb>, cs: Seq<(Rgb, u32)>) -> bool {
    &&& color_distinct(cs)
    &&& forall|k: int|
        0 <= k < cs.len() ==> (#[trigger] cs[k]).1 == cnt(pixels, cs[k].0) && cs[k].1 >= 1
    &&& forall|c: Rgb| cnt(pixels, c) >= 1 ==> exists|k: int| 0 <= k < cs.len() && (#[trigger] cs[k]).0 == c
}

/// Entries are in descending frequency order.
pub open spec fn sorted_desc(cs: Seq<(Rgb, u32)>) -> bool {
    forall|i: int, j: int| 0 <= i < j < cs.len() ==> (#[trigger] cs[i]).1 >= (#[trigger] cs[j]).1
}

/// `rk` ranks the quantized colours of `pixels` by descending frequency.
pub open spec fn ranked_of(pixels: Seq<Rgb>, rk: Seq<(Rgb, u32)>) -> bool {
    counts_exact(pixels, rk) && sorted_desc(rk)
}

/// Saturation numerator: the channel spread `max - min`.  The
/// saturation itself is this over the largest channel.
pub open spec fn sat_num(c: Rgb) -> int {
    max_channel(c) - min_channel(c)
}

/// Luminance strictly between 0.15 and 0.85 of full white: candidates
/// outside this band are too close to black or white to serve as an
/// accent.
pub open spec fn in_band(c: Rgb) -> bool {
    38250 < lum_1000(c) < 216750
}

/// Whether entry `a` scores strictly higher than `b` under
/// `saturation * sqrt(frequency)`.  Both sides are non-negative, so the
/// comparison is squared and cross-multiplied by the channel maxima.
pub open spec fn score_gt(a: (Rgb, u32), b: (Rgb, u32)) -> bool {
    let da = sat_num(a.0);
    let ma = max_channel(a.0);
    let db = sat_num(b.0);
    let mb = max_channel(b.0);
    if da == 0 || a.1 == 0 {
        false
    } else if db == 0 || b.1 == 0 {
        true
    } else {
        da * da * a.1 * (mb * mb) > db * db * b.1 * (ma * ma)
    }
}

/// The best accent candidate among the first `n` entries: highest score
/// within the luminance band, earlier entries winning ties.
pub open spec fn accent_candidate(top: Seq<(Rgb, u32)>, n: int) -> Option<(Rgb, u32)>
    decreases n,
{
    if n <= 0 {
        None
    } else {
        let prev = accent_candidate(top, n - 1);
        let cur = top[n - 1];
        if in_band(cur.0) && (prev is None || score_gt(cur, prev->Some_0)) {
            Some(cur)
        } else {
            prev
        }
    }
}

/// The accent before post-correction: the best in-band candidate, or
/// the fixed warm orange when none qualifies.
pub open spec fn accent_base(top: Seq<(Rgb, u32)>) -> Rgb {
    match accent_candidate(top, top.len() as int) {
        Some(p) => p.0,
        None => Rgb { r: 255, g: 170, b: 100 },
    }
}

/// Manhattan distance between two colours in RGB space.
pub open spec fn manhattan(a: Rgb, b: Rgb) -> int {
    (if a.r >= b.r {
        a.r - b.r
    } else {
        b.r - a.r
    }) + (if a.g >= b.g {
        a.g - b.g
    } else {
        b.g - a.g
    }) + (if a.b >= b.b {
        a.b - b.b
    } else {
        b.b - a.b
    })
}

/// A usable secondary: far from the accent, saturated above 0.2, and
/// not near-black.
pub open spec fn good_secondary(accent: Rgb, c: Rgb) -> bool {
    manhattan(accent, c) > 100 && 5 * sat_num(c) > max_channel(c) && lum_1000(c) > 38250
}

/// The first usable secondary at or after index `i`.
pub open spec fn first_secondary_from(top: Seq<(Rgb, u32)>, accent: Rgb, i: int) -> Option<Rgb>
    decreases top.len() - i,
{
    if i < 0 || i >= top.len() {
        None
    } else if good_secondary(accent, top[i].0) {
        Some(top[i].0)
    } else {
        first_secondary_from(top, accent, i + 1)
    }
}

/// The first colour at or after index `i` dark enough (luminance below
/// 0.3) to build the background from.
pub open spec fn first_dark_from(rk: Seq<(Rgb, u32)>, i: int) -> Option<Rgb>
    decreases rk.len() - i,
{
    if i < 0 || i >= rk.len() {
        None
    } else if lum_1000(rk[i].0) < 76500 {
        Some(rk[i].0)
    } else {
        first_dark_from(rk, i + 1)
    }
}

/// The first twenty entries of the ranking.
pub open spec fn top20(rk: Seq<(Rgb, u32)>) -> Seq<(Rgb, u32)> {
    if rk.len() <= 20 {
        rk
    } else {
        rk.take(20)
    }
}

/// The full theme derived from a frequency ranking: accent and
/// secondary from the top twenty entries, background from the first
/// dark colour darkened by 60%, dark roles lightened into legibility,
/// and fixed text colours.
pub open spec fn palette_of_ranked(rk: Seq<(Rgb, u32)>) -> ColorPalette {
    let top = top20(rk);
    let accent0 = accent_base(top);
    let secondary0 = match first_secondary_from(top, accent0, 0) {
        Some(c) => c,
        None => accent0,
    };
    let background = match first_dark_from(rk, 0) {
        Some(c) => darkened(c, 6),
        None => Rgb { r: 15, g: 20, b: 30 },
    };
    ColorPalette {
        accent: if lum_1000(accent0) < 76500 {
            lightened(accent0, 4)
        } else {
            accent0
        },
        secondary: if lum_1000(secondary0) < 76500 {
            lightened(secondary0, 3)
        } else {
            muted_spec(secondary0)
        },
        background,
        text: Rgb { r: 230, g: 235, b: 240 },
        dim: Rgb { r: 140, g: 145, b: 155 },
    }
}

/// `p` is the theme of `pixels`: the theme of some ranking of their
/// quantized frequency table.  Rankings differ only in the order of
/// equal-frequency colours, which the heuristics deliberately leave
/// open.
pub open spec fn palette_describes(pixels: Seq<Rgb>, p: ColorPalette) -> bool {
    exists|rk: Seq<(Rgb, u32)>| ranked_of(pixels, rk) && p == palette_of_ranked(rk)
}

/// Counting never exceeds the number of pixels.
proof fn lemma_cnt_le_len(s: Seq<Rgb>, c: Rgb)
    ensures
        0 <= cnt(s, c) <= s.len(),
    decreases s.len(),
{
    if s.len() > 0 {
        lemma_cnt_le_len(s.drop_last(), c);
    }
}

/// Finds the entry for colour `q`, if the table has one.
fn find_color(cs: &Vec<(Rgb, u32)>, q: Rgb) -> (r: Option<usize>)
    ensures
        match r {
            Some(j) => j < cs@.len() && cs@[j as int].0 == q,
            None => forall|t: int| 0 <= t < cs@.len() ==> (#[trigger] cs@[t]).0 != q,
        },
{
    let mut j: usize = 0;
    while j < cs.len()
        invariant
            j <= cs@.len(),
            forall|t: int| 0 <= t < j ==> (#[trigger] cs@[t]).0 != q,
        decreases cs@.len() - j,
    {
        if cs[j].0 == q {
            return Some(j);
        }
        j += 1;
    }
    None
}

/// Builds the quantized frequency table of `pixels`, in first-seen
/// order.
fn count_colors(pixels: &Vec<Rgb>) -> (cs: Vec<(Rgb, u32)>)
    requires
        pixels@.len() <= 4096,
    ensures
        counts_exact(pixels@, cs@),
        cs@.len() <= pixels@.len(),
{
    let mut cs: Vec<(Rgb, u32)> = Vec::new();
    let mut i: usize = 0;
    while i < pixels.len()
        invariant
            pixels@.len() <= 4096,
            i <= pixels@.len(),
            counts_exact(pixels@.take(i as int), cs@),
            cs@.len() <= i,
            forall|k: int| 0 <= k < cs@.len() ==> (#[trigger] cs@[k]).1 <= i,
        decreases pixels@.len() - i,
    {
        let p = pixels[i];
        let q = Rgb { r: p.r / 16 * 16, g: p.g / 16 * 16, b: p.b / 16 * 16 };
        let ghost prev = pixels@.take(i as int);
        let ghost next = pixels@.take(i + 1);
        proof {
            assert(q == quantized(p));
            assert(next.drop_last() =~= prev);
            assert(next.last() == p);
            assert forall|c: Rgb| #![auto] cnt(next, c) == cnt(prev, c) + (if quantized(p) == c {
                1int
            } else {
                0int
            }) by {
                assert(next.drop_last() =~= prev);
            }
        }
        let ghost cs0 = cs@;
        match find_color(&cs, q) {
            Some(j) => {
                let n = cs[j].1;
                proof {
                    lemma_cnt_le_len(prev, q);
                    assert(n == cnt(prev, q));
                }
                cs.set(j, (q, n + 1));
                proof {
                    assert(cs@ =~= cs0.update(j as int, (q, (n + 1) as u32)));
                    assert forall|k: int|
                        0 <= k < cs@.len() implies (#[trigger] cs@[k]).1 == cnt(next, cs@[k].0)
                        && cs@[k].1 >= 1 && cs@[k].1 <= i + 1 by {
                        if k == j {
                            assert(cs@[k] == (q, (n + 1) as u32));
                        } else {
                            assert(cs@[k] == cs0[k]);
                            assert(cs0[k].0 != q);
                        }
                    }
                    assert forall|a: int, b: int|
                        0 <= a < b < cs@.len() implies cs@[a].0 != cs@[b].0 by {
                        assert(cs@[a].0 == cs0[a].0 && cs@[b].0 == cs0[b].0);
                    }
                    assert forall|c: Rgb| cnt(next, c) >= 1 implies exists|k: int|
                        0 <= k < cs@.len() && (#[trigger] cs@[k]).0 == c by {
                        if c == q {
                            assert(cs@[j as int].0 == c);
                        } else {
                            assert(cnt(prev, c) >= 1);
                            let k = choose|k: int|
                                0 <= k < cs0.len() && (#[trigger] cs0[k]).0 == c;
                            assert(cs@[k].0 == c);
                        }
                    }
                }
            },
            None => {
                proof {
                    lemma_cnt_le_len(prev, q);
                    if cnt(prev, q) >= 1 {
                        let k = choose|k: int|
                            0 <= k < cs0.len() && (#[trigger] cs0[k]).0 == q;
                        assert(cs0[k].0 != q);
                    }
                    assert(cnt(prev, q) == 0);
                }
                cs.push((q, 1));
                proof {
                    let j = cs@.len() - 1;
                    assert(cs@ =~= cs0.push((q, 1)));
                    assert forall|k: int|
                        0 <= k < cs@.len() implies (#[trigger] cs@[k]).1 == cnt(next, cs@[k].0)
                        && cs@[k].1 >= 1 && cs@[k].1 <= i + 1 by {
                        if k < j {
                            assert(cs@[k] == cs0[k]);
                            assert(cs0[k].0 != q);
                        } else {
                            assert(cs@[k] == (q, 1u32));
                        }
                    }
                    assert forall|a: int, b: int|
                        0 <= a < b < cs@.len() implies cs@[a].0 != cs@[b].0 by {
                        if b < j {
                            assert(cs@[a].0 == cs0[a].0 && cs@[b].0 == cs0[b].0);
                        } else {
                            assert(cs@[b].0 == q && cs@[a].0 == cs0[a].0);
                        }
                    }
                    assert forall|c: Rgb| cnt(next, c) >= 1 implies exists|k: int|
                        0 <= k < cs@.len() && (#[trigger] cs@[k]).0 == c by {
                        if c == q {
                            assert(cs@[j].0 == c);
                        } else {
                            assert(cnt(prev, c) >= 1);
                            let k = choose|k: int|
                                0 <= k < cs0.len() && (#[trigger] cs0[k]).0 == c;
                            assert(cs@[k].0 == c);
                        }
                    }
                }
            },
        }
        i += 1;
    }
    proof {
        assert(pixels@.take(i as int) =~= pixels@);
    }
    cs
}

/// Sorts a frequency table by descending count: the result is a
/// reordering (equal as a multiset) of the input.
fn rank_by_count(counts: Vec<(Rgb, u32)>) -> (rk: Vec<(Rgb, u32)>)
    ensures
        rk@.to_multiset() == counts@.to_multiset(),
        sorted_desc(rk@),
        rk@.len() == counts@.len(),
{
    broadcast use vstd::seq_lib::group_to_multiset_ensures;
    broadcast use vstd::multiset::group_multiset_axioms;

    let ghost orig = counts@;
    let mut rem = counts;
    let mut out: Vec<(Rgb, u32)> = Vec::new();
    while rem.len() > 0
        invariant
            out@.to_multiset().add(rem@.to_multiset()) =~= orig.to_multiset(),
            out@.len() + rem@.len() == orig.len(),
            sorted_desc(out@),
            forall|a: int, b: int|
                0 <= a < out@.len() && 0 <= b < rem@.len() ==> (#[trigger] out@[a]).1
                    >= (#[trigger] rem@[b]).1,
        decreases rem@.len(),
    {
        let mut best: usize = 0;
        let mut k: usize = 1;
        while k < rem.len()
            invariant
                best < k <= rem@.len(),
                rem@.len() > 0,
                forall|t: int| 0 <= t < k ==> (#[trigger] rem@[t]).1 <= rem@[best as int].1,
            decreases rem@.len() - k,
        {
            if rem[k].1 > rem[best].1 {
                best = k;
            }
            k += 1;
        }
        let ghost out0 = out@;
        let ghost rem0 = rem@;
        let p = rem.remove(best);
        proof {
            vstd::seq_lib::to_multiset_remove(rem0, best as int);
            vstd::seq_lib::to_multiset_contains(rem0, p);
            assert(rem0[best as int] == p);
            assert(rem0.contains(p));
            assert(rem@.to_multiset() =~= rem0.to_multiset().remove(p));
            assert(rem0.to_multiset().count(p) > 0);
        }
        out.push(p);
        proof {
            vstd::seq_lib::to_multiset_build(out0, p);
            assert(out@ == out0.push(p));
            assert(out@.to_multiset() =~= out0.to_multiset().insert(p));
            assert(out@.to_multiset().add(rem@.to_multiset()) =~= orig.to_multiset());
            assert forall|a: int, b: int|
                0 <= a < out@.len() && 0 <= b < rem@.len() implies (#[trigger] out@[a]).1
                >= (#[trigger] rem@[b]).1 by {
                assert(rem@[b] == if b < best { rem0[b] } else { rem0[b + 1] });
                if a < out0.len() {
                    assert(out@[a] == out0[a]);
                } else {
                    assert(out@[a] == p);
                }
            }
        }
    }
    proof {
        vstd::seq_lib::to_multiset_len(rem@);
        assert(rem@.to_multiset() =~= Multiset::<(Rgb, u32)>::empty());
        assert(out@.to_multiset() =~= orig.to_multiset());
    }
    out
}

/// A reordering of an exact frequency table is itself exact.
proof fn lemma_reorder_counts(pixels: Seq<Rgb>, cs: Seq<(Rgb, u32)>, rk: Seq<(Rgb, u32)>)
    requires
        counts_exact(pixels, cs),
        rk.to_multiset() == cs.to_multiset(),
        rk.len() == cs.len(),
    ensures
        counts_exact(pixels, rk),
{
    broadcast use vstd::multiset::group_multiset_axioms;

    assert forall|k: int| 0 <= k < rk.len() implies exists|t: int|
        0 <= t < cs.len() && cs[t] == (#[trigger] rk[k]) by {
        vstd::seq_lib::to_multiset_contains(rk, rk[k]);
        vstd::seq_lib::to_multiset_contains(cs, rk[k]);
        assert(rk.contains(rk[k]));
        assert(cs.contains(rk[k]));
    }
    assert forall|k: int|
        0 <= k < rk.len() implies (#[trigger] rk[k]).1 == cnt(pixels, rk[k].0) && rk[k].1 >= 1 by {
        let t = choose|t: int| 0 <= t < cs.len() && cs[t] == rk[k];
        assert(cs[t].1 == cnt(pixels, cs[t].0));
    }
    assert forall|c: Rgb| cnt(pixels, c) >= 1 implies exists|k: int|
        0 <= k < rk.len() && (#[trigger] rk[k]).0 == c by {
        let t = choose|t: int| 0 <= t < cs.len() && (#[trigger] cs[t]).0 == c;
        vstd::seq_lib::to_multiset_contains(cs, cs[t]);
        vstd::seq_lib::to_multiset_contains(rk, cs[t]);
        assert(cs.contains(cs[t]));
        assert(rk.contains(cs[t]));
        let k = choose|k: int| 0 <= k < rk.len() && rk[k] == cs[t];
        assert(rk[k].0 == c);
    }
    assert(cs.no_duplicates()) by {
        assert forall|a: int, b: int|
            0 <= a < cs.len() && 0 <= b < cs.len() && a != b implies cs[a] != cs[b] by {
            if a < b {
                assert(cs[a].0 != cs[b].0);
            } else {
                assert(cs[b].0 != cs[a].0);
            }
        }
    }
    cs.lemma_multiset_has_no_duplicates();
    rk.lemma_multiset_has_no_duplicates_conv();
    assert forall|a: int, b: int| 0 <= a < b < rk.len() implies rk[a].0 != rk[b].0 by {
        if rk[a].0 == rk[b].0 {
            assert(rk[a] != rk[b]);
            vstd::seq_lib::to_multiset_contains(rk, rk[a]);
            vstd::seq_lib::to_multiset_contains(rk, rk[b]);
            vstd::seq_lib::to_multiset_contains(cs, rk[a]);
            vstd::seq_lib::to_multiset_contains(cs, rk[b]);
            assert(cs.contains(rk[a]));
            assert(cs.contains(rk[b]));
            let x = choose|x: int| 0 <= x < cs.len() && cs[x] == rk[a];
            let y = choose|y: int| 0 <= y < cs.len() && cs[y] == rk[b];
            assert(x != y);
            if x < y {
                assert(cs[x].0 != cs[y].0);
            } else {
                assert(cs[y].0 != cs[x].0);
            }
        }
    }
}

/// Whether the colour's luminance lies strictly inside the accent band.
fn in_band_exec(c: Rgb) -> (r: bool)
    ensures
        r == in_band(c),
{
    let l = c.luminance_1000();
    38250 < l && l < 216750
}

/// The squared, cross-multiplied score stays inside 64 bits: the
/// spread and channel maximum are at most 255 and the count fits 32
/// bits.
proof fn lemma_score_product_bound(d: int, c: int, m: int)
    requires
        0 <= d <= 255,
        0 <= c <= 0xFFFF_FFFF,
        0 <= m <= 255,
    ensures
        0 <= d * d <= 65025,
        0 <= d * d * c <= 65025 * 0xFFFF_FFFF,
        0 <= m * m <= 65025,
        0 <= d * d * c * (m * m) <= 0xFFFF_FFFF_FFFF_FFFF,
{
    assert(0 <= d * d <= 65025) by (nonlinear_arith)
        requires
            0 <= d <= 255,
    ;
    assert(0 <= d * d * c <= 65025 * 0xFFFF_FFFF) by (nonlinear_arith)
        requires
            0 <= d * d <= 65025,
            0 <= c <= 0xFFFF_FFFF,
    ;
    assert(0 <= m * m <= 65025) by (nonlinear_arith)
        requires
            0 <= m <= 255,
    ;
    assert(0 <= d * d * c * (m * m) <= 65025 * 0xFFFF_FFFF * 65025) by (nonlinear_arith)
        requires
            0 <= d * d * c <= 65025 * 0xFFFF_FFFF,
            0 <= m * m <= 65025,
    ;
}

/// Whether `a` outranks `b` under `saturation * sqrt(frequency)`.
fn score_gt_exec(a: (Rgb, u32), b: (Rgb, u32)) -> (r: bool)
    ensures
        r == score_gt(a, b),
{
    let ma = a.0.channel_max();
    let mna = a.0.channel_min();
    let mb = b.0.channel_max();
    let mnb = b.0.channel_min();
    let da = ma - mna;
    let db = mb - mnb;
    if da == 0 || a.1 == 0 {
        false
    } else if db == 0 || b.1 == 0 {
        true
    } else {
        proof {
            lemma_score_product_bound(da as int, a.1 as int, mb as int);
            lemma_score_product_bound(db as int, b.1 as int, ma as int);
        }
        let lhs: u64 = (da as u64) * (da as u64) * (a.1 as u64) * ((mb as u64) * (mb as u64));
        let rhs: u64 = (db as u64) * (db as u64) * (b.1 as u64) * ((ma as u64) * (ma as u64));
        lhs > rhs
    }
}

/// Whether `c` can serve as the secondary against the given accent.
fn good_secondary_exec(accent: Rgb, c: Rgb) -> (r: bool)
    ensures
        r == good_secondary(accent, c),
{
    let dr = if accent.r >= c.r {
        accent.r - c.r
    } else {
        c.r - accent.r
    };
    let dg = if accent.g >= c.g {
        accent.g - c.g
    } else {
        c.g - accent.g
    };
    let db = if accent.b >= c.b {
        accent.b - c.b
    } else {
        c.b - accent.b
    };
    let dist: u32 = (dr as u32) + (dg as u32) + (db as u32);
    let mx = c.channel_max();
    let mn = c.channel_min();
    let spread: u32 = (mx - mn) as u32;
    dist > 100 && 5 * spread > (mx as u32) && c.luminance_1000() > 38250
}

/// Picks the five theme roles from a ranking, exactly as
/// [`palette_of_ranked`] describes.
pub fn palette_from_ranked(rk: &Vec<(Rgb, u32)>) -> (p: ColorPalette)
    ensures
        p == palette_of_ranked(rk@),
{
    let top_len: usize = if rk.len() > 20 {
        20
    } else {
        rk.len()
    };
    let ghost top = top20(rk@);
    proof {
        assert(top =~= rk@.take(top_len as int));
        assert(top.len() == top_len);
    }

    let mut best: Option<(Rgb, u32)> = None;
    let mut i: usize = 0;
    while i < top_len
        invariant
            i <= top_len,
            top_len <= rk@.len(),
            top =~= rk@.take(top_len as int),
            top.len() == top_len,
            best == accent_candidate(top, i as int),
        decreases top_len - i,
    {
        let cur = rk[i];
        proof {
            assert(top[i as int] == cur);
        }
        let takes = match best {
            None => in_band_exec(cur.0),
            Some(b) => in_band_exec(cur.0) && score_gt_exec(cur, b),
        };
        if takes {
            best = Some(cur);
        }
        i += 1;
    }
    let accent0 = match best {
        Some(p) => p.0,
        None => Rgb { r: 255, g: 170, b: 100 },
    };
    proof {
        assert(accent0 == accent_base(top));
    }

    let mut sec: Option<Rgb> = None;
    let mut i: usize = 0;
    while i < top_len
        invariant
            i <= top_len,
            top_len <= rk@.len(),
            top =~= rk@.take(top_len as int),
            top.len() == top_len,
            match sec {
                None => first_secondary_from(top, accent0, 0) == first_secondary_from(
                    top,
                    accent0,
                    i as int,
                ),
                Some(c) => first_secondary_from(top, accent0, 0) == Some(c),
            },
        decreases top_len - i,
    {
        if sec.is_none() {
            let cur = rk[i];
            proof {
                assert(top[i as int] == cur);
            }
            if good_secondary_exec(accent0, cur.0) {
                sec = Some(cur.0);
            }
        }
        i += 1;
    }
    let secondary0 = match sec {
        Some(c) => c,
        None => accent0,
    };

    let mut dark: Option<Rgb> = None;
    let mut i: usize = 0;
    while i < rk.len()
        invariant
            i <= rk@.len(),
            match dark {
                None => first_dark_from(rk@, 0) == first_dark_from(rk@, i as int),
                Some(c) => first_dark_from(rk@, 0) == Some(c),
            },
        decreases rk@.len() - i,
    {
        if dark.is_none() {
            if rk[i].0.luminance_1000() < 76500 {
                dark = Some(rk[i].0);
            }
        }
        i += 1;
    }
    let background = match dark {
        Some(c) => c.darken_tenths(6),
        None => Rgb { r: 15, g: 20, b: 30 },
    };

    let accent = if accent0.luminance_1000() < 76500 {
        accent0.lighten_tenths(4)
    } else {
        accent0
    };
    let secondary = if secondary0.luminance_1000() < 76500 {
        secondary0.lighten_tenths(3)
    } else {
        secondary0.muted()
    };
    ColorPalette {
        accent,
        secondary,
        background,
        text: Rgb { r: 230, g: 235, b: 240 },
        dim: Rgb { r: 140, g: 145, b: 155 },
    }
}

/// One channel lightened by four tenths, bounded below and kept in
/// range.
proof fn lemma_lift4(x: int)
    requires
        0 <= x <= 255,
    ensures
        0 <= x + (255 - x) * 4 / 10 <= 255,
        10 * (x + (255 - x) * 4 / 10) >= 6 * x + 1011,
{
    let v = (255 - x) * 4;
    assert(v == 10 * (v / 10) + v % 10);
    assert(0 <= v % 10 < 10);
}

/// One channel lightened by three tenths, bounded below and kept in
/// range.
proof fn lemma_lift3(x: int)
    requires
        0 <= x <= 255,
    ensures
        0 <= x + (255 - x) * 3 / 10 <= 255,
        10 * (x + (255 - x) * 3 / 10) >= 7 * x + 756,
{
    let v = (255 - x) * 3;
    assert(v == 10 * (v / 10) + v % 10);
    assert(0 <= v % 10 < 10);
}

/// One channel darkened by six tenths, bounded above.
proof fn lemma_scale4(x: int)
    requires
        0 <= x <= 255,
    ensures
        0 <= x * 4 / 10 <= 255,
        10 * (x * 4 / 10) <= 4 * x,
{
    let v = x * 4;
    assert(v == 10 * (v / 10) + v % 10);
    assert(0 <= v % 10 < 10);
}

/// A colour lightened by four tenths reaches well past 0.3 luminance.
proof fn lemma_lightened4_lum(c: Rgb)
    ensures
        lum_1000(lightened(c, 4)) >= 101100,
{
    lemma_lift4(c.r as int);
    lemma_lift4(c.g as int);
    lemma_lift4(c.b as int);
}

/// A colour lightened by three tenths reaches at least 0.296 luminance.
proof fn lemma_lightened3_lum(c: Rgb)
    ensures
        lum_1000(lightened(c, 3)) >= 75600,
{
    lemma_lift3(c.r as int);
    lemma_lift3(c.g as int);
    lemma_lift3(c.b as int);
}

/// A colour darkened by six tenths keeps at most four tenths of its
/// luminance.
proof fn lemma_darkened6_lum(c: Rgb)
    ensures
        10 * lum_1000(darkened(c, 6)) <= 4 * lum_1000(c),
        lum_1000(darkened(c, 6)) >= 0,
{
    lemma_scale4(c.r as int);
    lemma_scale4(c.g as int);
    lemma_scale4(c.b as int);
}

/// A hit of the background scan really is dark.
proof fn lemma_first_dark_is_dark(rk: Seq<(Rgb, u32)>, i: int)
    ensures
        match first_dark_from(rk, i) {
            Some(c) => lum_1000(c) < 76500,
            None => true,
        },
    decreases rk.len() - i,
{
    if 0 <= i < rk.len() && !(lum_1000(rk[i].0) < 76500) {
        lemma_first_dark_is_dark(rk, i + 1);
    }
}

/// Legibility of every derived theme: the accent ends at or above 0.3
/// luminance (lightened into range when it started darker); the
/// background ends strictly below it (darkened from an already dark
/// colour, or the fixed near-black); and the secondary is either
/// lightened to at least 0.3 less a rounding step, or is the muted form
/// of a colour that already met the threshold.
pub proof fn lemma_theme_legibility(rk: Seq<(Rgb, u32)>)
    ensures
        lum_1000(palette_of_ranked(rk).accent) >= 76500,
        lum_1000(palette_of_ranked(rk).background) < 76500,
        lum_1000(palette_of_ranked(rk).secondary) >= 75600 || (exists|c: Rgb|
            lum_1000(c) >= 76500 && palette_of_ranked(rk).secondary == muted_spec(c)),
{
    let p = palette_of_ranked(rk);
    let top = top20(rk);
    let accent0 = accent_base(top);
    if lum_1000(accent0) < 76500 {
        lemma_lightened4_lum(accent0);
    }
    let secondary0 = match first_secondary_from(top, accent0, 0) {
        Some(c) => c,
        None => accent0,
    };
    if lum_1000(secondary0) < 76500 {
        lemma_lightened3_lum(secondary0);
    } else {
        assert(lum_1000(secondary0) >= 76500 && p.secondary == muted_spec(secondary0));
    }
    match first_dark_from(rk, 0) {
        Some(c) => {
            lemma_first_dark_is_dark(rk, 0);
            lemma_darkened6_lum(c);
            assert(10 * lum_1000(p.background) <= 4 * lum_1000(c));
        },
        None => {
            assert(lum_1000(Rgb { r: 15, g: 20, b: 30 }) == 19645);
        },
    }
}

// The coarse colour grid of a picture: its nearest-neighbour downscale
// to within 64 by 64, as RGB pixels.  A function of the picture alone.
pub uninterp spec fn downscaled_of(img: image::DynamicImage) -> Seq<Rgb>;

/// Relies on image's nearest-neighbour resize to within 64 by 64 and
/// its RGB conversion: only coarse colour statistics are needed; the
/// grid depends on the picture alone, so it is named, and it holds at
/// most 4096 pixels.
#[verifier::external_body]
fn downscale_pixels(img: &image::DynamicImage) -> (r: Vec<Rgb>)
    ensures
        r@ == downscaled_of(*img),
        r@.len() <= 4096,
{
    let small = img.resize(64, 64, image::imageops::FilterType::Nearest);
    let rgb = small.to_rgb8();
    rgb.pixels().map(|p| Rgb { r: p[0], g: p[1], b: p[2] }).collect()
}

/// Derives the five-role theme of a photo: downscales it to its coarse
/// colour grid and picks the roles from the grid's statistics.
pub fn extract_palette(img: &image::DynamicImage) -> (p: ColorPalette)
    ensures
        palette_describes(downscaled_of(*img), p),
{
    let pixels = downscale_pixels(img);
    palette_from_pixels(&pixels)
}

/// Derives the theme of a downscaled pixel grid: counts the quantized
/// colours, ranks them by frequency, and picks the roles.
pub fn palette_from_pixels(pixels: &Vec<Rgb>) -> (p: ColorPalette)
    requires
        pixels@.len() <= 4096,
    ensures
        palette_describes(pixels@, p),
{
    let counts = count_colors(pixels);
    let ghost cs0 = counts@;
    let ranked = rank_by_count(counts);
    proof {
        lemma_reorder_counts(pixels@, cs0, ranked@);
        assert(ranked_of(pixels@, ranked@));
    }
    let p = palette_from_ranked(&ranked);
    proof {
        assert(ranked_of(pixels@, ranked@) && p == palette_of_ranked(ranked@));
    }
    p
}

} // verus!
