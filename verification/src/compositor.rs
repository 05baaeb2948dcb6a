//! Compositing one to three histograms into a single RGB canvas.
//!
//! All counts are scaled against the global maximum count: with one
//! dataset the bin intensity is written into the dataset's palette
//! channels (on a white background the complementary channels are
//! inverted instead, so denser bins darken toward the hue); with two or
//! three datasets every dataset contributes an additive intensity vector
//! and the per-channel sums are clamped at 255.

use vstd::prelude::*;
use vstd::arithmetic::div_mod::{
    lemma_div_is_ordered,
    lemma_fundamental_div_mod,
    lemma_fundamental_div_mod_converse,
    lemma_div_pos_is_pos,
};
use vstd::arithmetic::mul::lemma_mul_inequality;
use crate::{BackGround, Color, HeatmapError};
use crate::histogram::Histogram;

verus! {

/// The canvas color where no dataset has a sample.
pub open spec fn spec_background_rgb(bg: BackGround) -> (int, int, int) {
    match bg {
        BackGround::Black => (0int, 0int, 0int),
        BackGround::White => (255int, 255int, 255int),
    }
}

/// Which RGB channels a palette color occupies.
pub open spec fn spec_color_mask(c: Color) -> (bool, bool, bool) {
    match c {
        Color::Red => (true, false, false),
        Color::Green => (false, true, false),
        Color::Blue => (false, false, true),
        Color::Purple => (true, false, true),
        Color::Yellow => (true, true, false),
    }
}

/// `round(255 * count / maxv)`: the channel intensity of a populated bin,
/// scaled against the maximum count.
pub open spec fn spec_intensity(count: int, maxv: int) -> int {
    (510 * count + maxv) / (2 * maxv)
}

/// The pixel a single-dataset rendering writes for a bin: background where
/// the bin is empty; otherwise the intensity on the palette channels over
/// black, or full palette channels with the intensity subtracted from the
/// other channels over white.
pub open spec fn spec_single_pixel(count: int, maxv: int, color: Color, bg: BackGround) -> (
    int,
    int,
    int,
) {
    if count <= 0 {
        spec_background_rgb(bg)
    } else {
        let i = spec_intensity(count, maxv);
        let m = spec_color_mask(color);
        match bg {
            BackGround::Black => (
                if m.0 {
                    i
                } else {
                    0int
                },
                if m.1 {
                    i
                } else {
                    0int
                },
                if m.2 {
                    i
                } else {
                    0int
                },
            ),
            BackGround::White => (
                if m.0 {
                    255int
                } else {
                    255 - i
                },
                if m.1 {
                    255int
                } else {
                    255 - i
                },
                if m.2 {
                    255int
                } else {
                    255 - i
                },
            ),
        }
    }
}

/// One dataset's additive intensity vector for a bin: the scaled intensity
/// on its palette channels, zero elsewhere and for empty bins.
pub open spec fn spec_contrib(count: int, maxv: int, color: Color) -> (int, int, int) {
    if count <= 0 {
        (0int, 0int, 0int)
    } else {
        let i = spec_intensity(count, maxv);
        let m = spec_color_mask(color);
        (
            if m.0 {
                i
            } else {
                0int
            },
            if m.1 {
                i
            } else {
                0int
            },
            if m.2 {
                i
            } else {
                0int
            },
        )
    }
}

/// Component-wise sum of the first `upto` datasets' intensity vectors at
/// bin `(x, y)`.
pub open spec fn spec_sum_contribs(
    hists: Seq<Histogram>,
    colors: Seq<Color>,
    maxv: int,
    x: int,
    y: int,
    upto: int,
) -> (int, int, int)
    decreases upto,
{
    if upto <= 0 {
        (0int, 0int, 0int)
    } else {
        let rest = spec_sum_contribs(hists, colors, maxv, x, y, upto - 1);
        let c = spec_contrib(hists[upto - 1].spec_count(x, y), maxv, colors[upto - 1]);
        (rest.0 + c.0, rest.1 + c.1, rest.2 + c.2)
    }
}

/// Channel values saturate at full intensity.
pub open spec fn spec_clamp255(v: int) -> int {
    if v > 255 {
        255int
    } else {
        v
    }
}

/// The pixel a multi-dataset rendering writes for a bin: background where
/// every dataset's bin is empty, otherwise the clamped sum of the
/// datasets' intensity vectors.
pub open spec fn spec_multi_pixel(
    hists: Seq<Histogram>,
    colors: Seq<Color>,
    maxv: int,
    x: int,
    y: int,
    bg: BackGround,
) -> (int, int, int) {
    if forall|d: int| 0 <= d < hists.len() ==> hists[d].spec_count(x, y) <= 0 {
        spec_background_rgb(bg)
    } else {
        let s = spec_sum_contribs(hists, colors, maxv, x, y, hists.len() as int);
        (spec_clamp255(s.0), spec_clamp255(s.1), spec_clamp255(s.2))
    }
}

/// What the composited canvas holds at bin `(x, y)`.
pub open spec fn spec_plot_pixel(
    hists: Seq<Histogram>,
    colors: Seq<Color>,
    bg: BackGround,
    maxv: int,
    x: int,
    y: int,
) -> (int, int, int) {
    if hists.len() == 1 {
        spec_single_pixel(hists[0].spec_count(x, y), maxv, colors[0], bg)
    } else {
        spec_multi_pixel(hists, colors, maxv, x, y, bg)
    }
}

/// Largest bin count over a family of histograms.
pub open spec fn spec_global_max(hists: Seq<Histogram>) -> int
    decreases hists.len(),
{
    if hists.len() == 0 {
        0
    } else if hists.last().max_spec() >= spec_global_max(hists.drop_last()) {
        hists.last().max_spec()
    } else {
        spec_global_max(hists.drop_last())
    }
}

/// Every dataset's maximum is bounded by the global maximum.
pub proof fn lemma_global_max_ge(hists: Seq<Histogram>, d: int)
    requires
        0 <= d < hists.len(),
    ensures
        hists[d].max_spec() <= spec_global_max(hists),
    decreases hists.len(),
{
    if d < hists.len() - 1 {
        lemma_global_max_ge(hists.drop_last(), d);
    }
}

/// The intensity of a count never overshoots a byte while the count stays
/// under the maximum it is scaled by.
pub proof fn lemma_intensity_in_byte(count: int, maxv: int)
    requires
        1 <= maxv,
        0 <= count <= maxv,
    ensures
        0 <= spec_intensity(count, maxv) <= 255,
{
    let c = count;
    let m = maxv;
    assert((510 * c + m) / (2 * m) <= 255) by {
        let q0 = (510 * c + m) / (2 * m);
        lemma_fundamental_div_mod(510 * c + m, 2 * m);
        if q0 > 255 {
            lemma_mul_inequality(256, q0, 2 * m);
            assert(510 * c + m >= 256 * (2 * m));
            assert(510 * c <= 510 * m);
            assert(256 * (2 * m) == 512 * m) by (nonlinear_arith);
            assert(false);
        }
    }
    lemma_div_pos_is_pos(510 * c + m, 2 * m);
}

/// `round(255 * count / maxv)` over the integers, at most 255 whenever the
/// count does not exceed the maximum.
fn intensity(count: u64, maxv: u64) -> (i: u8)
    requires
        1 <= maxv,
        count <= maxv,
    ensures
        i as int == spec_intensity(count as int, maxv as int),
        i <= 255,
{
    let num = 510 * (count as u128) + (maxv as u128);
    let den = 2 * (maxv as u128);
    let q = num / den;
    proof {
        lemma_intensity_in_byte(count as int, maxv as int);
    }
    q as u8
}

/// One dataset's additive intensity vector for a bin, as bytes.
fn intensity_vector(count: u64, maxv: u64, color: Color) -> (p: (u8, u8, u8))
    requires
        1 <= maxv,
        count <= maxv,
    ensures
        (p.0 as int, p.1 as int, p.2 as int) == spec_contrib(count as int, maxv as int, color),
{
    if count == 0 {
        return (0, 0, 0);
    }
    let i = intensity(count, maxv);
    match color {
        Color::Red => (i, 0, 0),
        Color::Green => (0, i, 0),
        Color::Blue => (0, 0, i),
        Color::Purple => (i, 0, i),
        Color::Yellow => (i, i, 0),
    }
}

/// The composited color of one pixel, against the global maximum count.
fn composite_pixel(
    hashmaps: &Vec<Histogram>,
    colors: &Vec<Color>,
    background: BackGround,
    maxv: u64,
    x: usize,
    y: usize,
) -> (p: (u8, u8, u8))
    requires
        forall|d: int| 0 <= d < hashmaps@.len() ==> hashmaps@[d].wf(),
        forall|d: int| 0 <= d < hashmaps@.len() ==> hashmaps@[d].max_spec() <= maxv as int,
        colors@.len() == hashmaps@.len(),
        1 <= hashmaps@.len() <= 3,
        maxv >= 1,
        x < 601,
        y < 601,
    ensures
        (p.0 as int, p.1 as int, p.2 as int) == spec_plot_pixel(
            hashmaps@,
            colors@,
            background,
            maxv as int,
            x as int,
            y as int,
        ),
{
    let n = hashmaps.len();
    if n == 1 {
        let c = hashmaps[0].count_at(x, y);
        proof {
            hashmaps@[0].lemma_max_properties();
        }
        if c == 0 {
            return match background {
                BackGround::Black => (0, 0, 0),
                BackGround::White => (255, 255, 255),
            };
        }
        let i = intensity(c, maxv);
        let inv = 255 - i;
        return match colors[0] {
            Color::Red => match background {
                BackGround::Black => (i, 0, 0),
                BackGround::White => (255, inv, inv),
            },
            Color::Green => match background {
                BackGround::Black => (0, i, 0),
                BackGround::White => (inv, 255, inv),
            },
            Color::Blue => match background {
                BackGround::Black => (0, 0, i),
                BackGround::White => (inv, inv, 255),
            },
            Color::Purple => match background {
                BackGround::Black => (i, 0, i),
                BackGround::White => (255, inv, 255),
            },
            Color::Yellow => match background {
                BackGround::Black => (i, i, 0),
                BackGround::White => (255, 255, inv),
            },
        };
    }
    let mut d: usize = 0;
    let mut sr: u32 = 0;
    let mut sg: u32 = 0;
    let mut sb: u32 = 0;
    let mut all_empty = true;
    while d < n
        invariant
            d <= n,
            n == hashmaps@.len(),
            n <= 3,
            colors@.len() == n,
            forall|dd: int| 0 <= dd < n ==> hashmaps@[dd].wf(),
            forall|dd: int| 0 <= dd < n ==> hashmaps@[dd].max_spec() <= maxv as int,
            maxv >= 1,
            x < 601,
            y < 601,
            sr <= d * 255,
            sg <= d * 255,
            sb <= d * 255,
            (sr as int, sg as int, sb as int) == spec_sum_contribs(
                hashmaps@,
                colors@,
                maxv as int,
                x as int,
                y as int,
                d as int,
            ),
            all_empty <==> (forall|dd: int|
                0 <= dd < d ==> hashmaps@[dd].spec_count(x as int, y as int) <= 0),
        decreases n - d,
    {
        let c = hashmaps[d].count_at(x, y);
        proof {
            hashmaps@[d as int].lemma_max_properties();
        }
        if c > 0 {
            all_empty = false;
        }
        let v = intensity_vector(c, maxv, colors[d]);
        sr = sr + v.0 as u32;
        sg = sg + v.1 as u32;
        sb = sb + v.2 as u32;
        d = d + 1;
    }
    if all_empty {
        match background {
            BackGround::Black => (0, 0, 0),
            BackGround::White => (255, 255, 255),
        }
    } else {
        let r = if sr > 255 {
            255u8
        } else {
            sr as u8
        };
        let g = if sg > 255 {
            255u8
        } else {
            sg as u8
        };
        let b = if sb > 255 {
            255u8
        } else {
            sb as u8
        };
        (r, g, b)
    }
}

/// Assigns one palette color per input dataset: explicitly chosen colors
/// must match the number of datasets one for one, and when none are chosen
/// the default palette (red, blue, green) is cycled.
pub fn assign_colors(chosen: &Option<Vec<Color>>, n_inputs: usize) -> (r: Result<
    Vec<Color>,
    HeatmapError,
>)
    ensures
        match r {
            Ok(cs) => {
                &&& cs@.len() == n_inputs
                &&& match chosen {
                    Some(c) => cs@ == c@,
                    None => forall|i: int|
                        0 <= i < n_inputs ==> cs@[i] == spec_default_color(i),
                }
            },
            Err(e) => {
                &&& e == HeatmapError::ConfigError
                &&& chosen is Some
                &&& chosen->0@.len() != n_inputs
            },
        },
{
    match chosen {
        Some(c) => {
            if c.len() != n_inputs {
                return Err(HeatmapError::ConfigError);
            }
            let mut out: Vec<Color> = Vec::new();
            let mut i: usize = 0;
            while i < n_inputs
                invariant
                    i <= n_inputs,
                    c@.len() == n_inputs,
                    out@.len() == i,
                    forall|j: int| 0 <= j < i ==> out@[j] == c@[j],
                decreases n_inputs - i,
            {
                out.push(c[i]);
                i = i + 1;
            }
            proof {
                assert(out@ =~= c@);
            }
            Ok(out)
        },
        None => {
            let mut out: Vec<Color> = Vec::new();
            let mut i: usize = 0;
            while i < n_inputs
                invariant
                    i <= n_inputs,
                    out@.len() == i,
                    forall|j: int| 0 <= j < i ==> out@[j] == spec_default_color(j),
                decreases n_inputs - i,
            {
                let m = i % 3;
                if m == 0 {
                    out.push(Color::Red);
                } else if m == 1 {
                    out.push(Color::Blue);
                } else {
                    out.push(Color::Green);
                }
                i = i + 1;
            }
            Ok(out)
        },
    }
}

/// The default palette, cycled over the dataset index.
pub open spec fn spec_default_color(i: int) -> Color {
    if i % 3 == 0 {
        Color::Red
    } else if i % 3 == 1 {
        Color::Blue
    } else {
        Color::Green
    }
}

/// The three bytes of flat pixel `q` hold the composited color of its bin.
pub open spec fn pixel_painted(
    pixels: Seq<u8>,
    hists: Seq<Histogram>,
    colors: Seq<Color>,
    bg: BackGround,
    maxv: int,
    q: int,
) -> bool {
    (pixels[3 * q] as int, pixels[3 * q + 1] as int, pixels[3 * q + 2] as int) == spec_plot_pixel(
        hists,
        colors,
        bg,
        maxv,
        q % 601,
        q / 601,
    )
}

/// Composites one to three histograms into a canvas.  Fails with
/// `ConfigError` exactly when the dataset count is outside 1..=3 or does
/// not match the color count, and with `DataError` exactly when some
/// dataset's histogram is empty.  On success every pixel carries the
/// composited color of its bin.
pub fn plot_heatmap(
    hashmaps: &Vec<Histogram>,
    background: BackGround,
    chosen_color: &Vec<Color>,
) -> (r: Result<Canvas, HeatmapError>)
    requires
        forall|d: int| 0 <= d < hashmaps@.len() ==> hashmaps@[d].wf(),
    ensures
        match r {
            Ok(canvas) => {
                &&& 1 <= hashmaps@.len() <= 3
                &&& chosen_color@.len() == hashmaps@.len()
                &&& forall|d: int| 0 <= d < hashmaps@.len() ==> hashmaps@[d].total_count() > 0
                &&& canvas.wf()
                &&& forall|x: int, y: int|
                    0 <= x < 601 && 0 <= y < 601 ==> canvas.spec_pixel(x, y) == spec_plot_pixel(
                        hashmaps@,
                        chosen_color@,
                        background,
                        spec_global_max(hashmaps@),
                        x,
                        y,
                    )
            },
            Err(e) => {
                &&& (e == HeatmapError::ConfigError <==> (hashmaps@.len() == 0 || hashmaps@.len()
                    > 3 || chosen_color@.len() != hashmaps@.len()))
                &&& (e == HeatmapError::DataError <==> (1 <= hashmaps@.len() <= 3
                    && chosen_color@.len() == hashmaps@.len() && exists|d: int|
                    0 <= d < hashmaps@.len() && hashmaps@[d].total_count() == 0))
                &&& (e == HeatmapError::ConfigError || e == HeatmapError::DataError)
            },
        },
{
    let n = hashmaps.len();
    if n == 0 || n > 3 || chosen_color.len() != n {
        return Err(HeatmapError::ConfigError);
    }
    // every dataset must have something to plot
    let mut d: usize = 0;
    while d < n
        invariant
            d <= n,
            n == hashmaps@.len(),
            1 <= n <= 3,
            chosen_color@.len() == n,
            forall|dd: int| 0 <= dd < n ==> hashmaps@[dd].wf(),
            forall|dd: int| 0 <= dd < d ==> hashmaps@[dd].total_count() > 0,
        decreases n - d,
    {
        if hashmaps[d].total() == 0 {
            proof {
                let dd = d as int;
                assert(0 <= dd < hashmaps@.len() && hashmaps@[dd].total_count() == 0);
                assert(exists|j: int|
                    0 <= j < hashmaps@.len() && hashmaps@[j].total_count() == 0);
            }
            return Err(HeatmapError::DataError);
        }
        d = d + 1;
    }
    // global maximum over all datasets
    let mut maxv: u64 = 0;
    let mut d2: usize = 0;
    proof {
        assert(hashmaps@.take(0) =~= Seq::<Histogram>::empty());
    }
    while d2 < n
        invariant
            d2 <= n,
            n == hashmaps@.len(),
            forall|dd: int| 0 <= dd < n ==> hashmaps@[dd].wf(),
            forall|dd: int| 0 <= dd < n ==> hashmaps@[dd].total_count() > 0,
            maxv as int == spec_global_max(hashmaps@.take(d2 as int)),
        decreases n - d2,
    {
        proof {
            assert(hashmaps@.take(d2 + 1).drop_last() =~= hashmaps@.take(d2 as int));
            assert(hashmaps@.take(d2 + 1).last() == hashmaps@[d2 as int]);
        }
        let m = hashmaps[d2].max_count();
        if m > maxv {
            maxv = m;
        }
        d2 = d2 + 1;
    }
    proof {
        assert(hashmaps@.take(n as int) =~= hashmaps@);
        assert(maxv >= 1) by {
            lemma_global_max_ge(hashmaps@, 0);
            hashmaps@[0].lemma_max_properties();
        }
        assert forall|dd: int| 0 <= dd < n implies hashmaps@[dd].max_spec() <= maxv as int by {
            lemma_global_max_ge(hashmaps@, dd);
        }
    }
    // paint every pixel from its bin
    let mut pixels: Vec<u8> = Vec::new();
    let mut p: usize = 0;
    while p < 601 * 601
        invariant
            p <= 601 * 601,
            n == hashmaps@.len(),
            1 <= n <= 3,
            chosen_color@.len() == n,
            forall|dd: int| 0 <= dd < n ==> hashmaps@[dd].wf(),
            forall|dd: int| 0 <= dd < n ==> hashmaps@[dd].max_spec() <= maxv as int,
            maxv >= 1,
            maxv as int == spec_global_max(hashmaps@),
            pixels@.len() == 3 * p,
            forall|q: int|
                0 <= q < p ==> pixel_painted(
                    pixels@,
                    hashmaps@,
                    chosen_color@,
                    background,
                    maxv as int,
                    q,
                ),
        decreases 601 * 601 - p,
    {
        let x = p % 601;
        let y = p / 601;
        proof {
            lemma_div_is_ordered(p as int, 361200, 601);
        }
        let px = composite_pixel(hashmaps, chosen_color, background, maxv, x, y);
        let ghost pre = pixels@;
        pixels.push(px.0);
        pixels.push(px.1);
        pixels.push(px.2);
        proof {
            assert forall|q: int|
                0 <= q < p + 1 implies pixel_painted(
                pixels@,
                hashmaps@,
                chosen_color@,
                background,
                maxv as int,
                q,
            ) by {
                if q < p {
                    assert(pixel_painted(pre, hashmaps@, chosen_color@, background, maxv as int, q));
                    assert(pixels@[3 * q] == pre[3 * q]);
                    assert(pixels@[3 * q + 1] == pre[3 * q + 1]);
                    assert(pixels@[3 * q + 2] == pre[3 * q + 2]);
                } else {
                    assert(q % 601 == x as int);
                    assert(q / 601 == y as int);
                    assert(pixels@[3 * q] == px.0);
                    assert(pixels@[3 * q + 1] == px.1);
                    assert(pixels@[3 * q + 2] == px.2);
                }
            }
        }
        p = p + 1;
    }
    let ghost pix = pixels@;
    let canvas = Canvas { pixels };
    proof {
        assert forall|x: int, y: int|
            0 <= x < 601 && 0 <= y < 601 implies canvas.spec_pixel(x, y) == spec_plot_pixel(
            hashmaps@,
            chosen_color@,
            background,
            spec_global_max(hashmaps@),
            x,
            y,
        ) by {
            let q = y * 601 + x;
            crate::histogram::lemma_bin_index_bounds(x, y);
            lemma_fundamental_div_mod_converse(q, 601, y, x);
            assert(q % 601 == x && q / 601 == y);
            assert(pixel_painted(pix, hashmaps@, chosen_color@, background, maxv as int, q));
            assert(canvas.pixels@ == pix);
        }
    }
    Ok(canvas)
}

/// The bin holding the maximum count renders at full intensity, and a bin
/// with a single sample rounds to zero intensity exactly when the maximum
/// is large (above 510); on a black background that intensity is what the
/// single-dataset rendering writes into the palette channels.
pub proof fn lemma_single_rendering_extremes(maxv: int, color: Color)
    requires
        maxv >= 1,
    ensures
        spec_intensity(maxv, maxv) == 255,
        spec_intensity(1, maxv) == 0 <==> maxv > 510,
        spec_color_mask(color).0 ==> spec_single_pixel(maxv, maxv, color, BackGround::Black).0
            == 255,
        spec_color_mask(color).1 ==> spec_single_pixel(maxv, maxv, color, BackGround::Black).1
            == 255,
        spec_color_mask(color).2 ==> spec_single_pixel(maxv, maxv, color, BackGround::Black).2
            == 255,
{
    let m = maxv;
    assert(spec_intensity(m, m) == 255) by {
        lemma_fundamental_div_mod_converse(510 * m + m, 2 * m, 255, m);
    }
    if m > 510 {
        assert((510 + m) / (2 * m) == 0) by {
            vstd::arithmetic::div_mod::lemma_basic_div(510 + m, 2 * m);
        }
    } else {
        assert((510 + m) / (2 * m) > 0) by {
            vstd::arithmetic::div_mod::lemma_div_non_zero(510 + m, 2 * m);
        }
    }
}

/// With two datasets over a black background, a bin that only the first
/// dataset populates renders exactly as the first dataset's own rendering
/// against the shared maximum: compositing disjoint datasets is the union
/// of their single-dataset renderings.
pub proof fn lemma_multi_disjoint_is_union(
    h1: Histogram,
    h2: Histogram,
    c1: Color,
    c2: Color,
    maxv: int,
    x: int,
    y: int,
)
    requires
        maxv >= 1,
        0 <= h1.spec_count(x, y) <= maxv,
        h2.spec_count(x, y) == 0,
    ensures
        spec_multi_pixel(seq![h1, h2], seq![c1, c2], maxv, x, y, BackGround::Black)
            == spec_single_pixel(h1.spec_count(x, y), maxv, c1, BackGround::Black),
{
    let hists = seq![h1, h2];
    let colors = seq![c1, c2];
    let n1 = h1.spec_count(x, y);
    assert(spec_sum_contribs(hists, colors, maxv, x, y, 0) == (0int, 0int, 0int));
    assert(spec_sum_contribs(hists, colors, maxv, x, y, 1) == spec_contrib(n1, maxv, c1));
    let s = spec_sum_contribs(hists, colors, maxv, x, y, 2);
    assert(s == spec_contrib(n1, maxv, c1));
    if n1 > 0 {
        lemma_intensity_in_byte(n1, maxv);
        assert(!(forall|d: int| 0 <= d < hists.len() ==> hists[d].spec_count(x, y) <= 0)) by {
            assert(hists[0].spec_count(x, y) > 0);
        }
    }
}

/// With two datasets, a bin both populate renders the component-wise sum
/// of the two intensity vectors, each channel saturating at 255 (the
/// documented clamp of the additive model).
pub proof fn lemma_multi_shared_bin_sums(
    h1: Histogram,
    h2: Histogram,
    c1: Color,
    c2: Color,
    maxv: int,
    x: int,
    y: int,
    bg: BackGround,
)
    requires
        maxv >= 1,
        h1.spec_count(x, y) >= 1,
        h2.spec_count(x, y) >= 1,
    ensures
        ({
            let v1 = spec_contrib(h1.spec_count(x, y), maxv, c1);
            let v2 = spec_contrib(h2.spec_count(x, y), maxv, c2);
            spec_multi_pixel(seq![h1, h2], seq![c1, c2], maxv, x, y, bg) == (
                spec_clamp255(v1.0 + v2.0),
                spec_clamp255(v1.1 + v2.1),
                spec_clamp255(v1.2 + v2.2),
            )
        }),
{
    let hists = seq![h1, h2];
    let colors = seq![c1, c2];
    let v1 = spec_contrib(h1.spec_count(x, y), maxv, c1);
    let v2 = spec_contrib(h2.spec_count(x, y), maxv, c2);
    assert(spec_sum_contribs(hists, colors, maxv, x, y, 0) == (0int, 0int, 0int));
    assert(spec_sum_contribs(hists, colors, maxv, x, y, 1) == v1);
    assert(spec_sum_contribs(hists, colors, maxv, x, y, 2) == (v1.0 + v2.0, v1.1 + v2.1, v1.2
        + v2.2));
    assert(!(forall|d: int| 0 <= d < hists.len() ==> hists[d].spec_count(x, y) <= 0)) by {
        assert(hists[0].spec_count(x, y) > 0);
    }
}

/// An RGB canvas of fixed square dimensions, row-major, three bytes per
/// pixel, owned exclusively by the compositing pipeline.
#[derive(Debug)]
pub struct Canvas {
    pixels: Vec<u8>,
}

impl Canvas {
    /// Exactly one RGB triple per grid cell.
    pub closed spec fn wf(self) -> bool {
        self.pixels@.len() == 601 * 601 * 3
    }

    /// The RGB triple at a pixel.
    pub closed spec fn spec_pixel(self, x: int, y: int) -> (int, int, int) {
        (
            self.pixels@[(y * 601 + x) * 3] as int,
            self.pixels@[(y * 601 + x) * 3 + 1] as int,
            self.pixels@[(y * 601 + x) * 3 + 2] as int,
        )
    }

    /// Reads one pixel.
    pub fn pixel_at(&self, x: usize, y: usize) -> (p: (u8, u8, u8))
        requires
            self.wf(),
            x < 601,
            y < 601,
        ensures
            (p.0 as int, p.1 as int, p.2 as int) == self.spec_pixel(x as int, y as int),
    {
        proof {
            crate::histogram::lemma_bin_index_bounds(x as int, y as int);
        }
        let base = (y * 601 + x) * 3;
        (self.pixels[base], self.pixels[base + 1], self.pixels[base + 2])
    }

    /// Side length of the square canvas.
    pub fn width(&self) -> (w: usize)
        ensures
            w == 601,
    {
        601
    }
}

} // verus!
