//! From a fitted model back to pixels: the image in the colours of the
//! centres, and a picture of the palette.

use vstd::prelude::*;
use crate::metric::Sample;
use crate::centroid::Centroid;
use crate::lloyd::centres_wf;
use crate::model::Model;

verus! {

/// The colour of every centre: the centre rounded to eight bits a channel.
pub fn swatches(centroids: &Vec<Centroid>) -> (colors: Vec<Sample>)
    requires
        centres_wf(centroids@),
    ensures
        colors.len() == centroids.len(),
        forall|j: int| 0 <= j < colors.len() ==> centroids@[j].rounds_into(#[trigger] colors@[j]),
{
    let mut colors: Vec<Sample> = Vec::new();
    let mut j: usize = 0;
    while j < centroids.len()
        invariant
            0 <= j <= centroids.len(),
            centres_wf(centroids@),
            colors.len() == j,
            forall|p: int| 0 <= p < j ==> centroids@[p].rounds_into(#[trigger] colors@[p]),
        decreases centroids.len() - j,
    {
        colors.push(centroids[j].rounded());
        j += 1;
    }
    colors
}

/// The image in the colours of the model: every pixel takes the colour of
/// the centre that its label names.
pub fn render(model: &Model) -> (pixels: Vec<Sample>)
    requires
        model@.wf(),
    ensures
        pixels.len() == model.mapping.len(),
        forall|i: int|
            0 <= i < pixels.len() ==> model.centroids@[model.mapping@[i] as int].rounds_into(
                #[trigger] pixels@[i],
            ),
{
    let colors = swatches(&model.centroids);
    let mut pixels: Vec<Sample> = Vec::new();
    let mut i: usize = 0;
    while i < model.mapping.len()
        invariant
            0 <= i <= model.mapping.len(),
            model@.wf(),
            colors.len() == model.centroids.len(),
            forall|j: int|
                0 <= j < colors.len() ==> model.centroids@[j].rounds_into(#[trigger] colors@[j]),
            pixels.len() == i,
            forall|p: int|
                0 <= p < i ==> model.centroids@[model.mapping@[p] as int].rounds_into(
                    #[trigger] pixels@[p],
                ),
        decreases model.mapping.len() - i,
    {
        let label = model.mapping[i];
        assert(model.mapping@[i as int] < model.centroids.len());
        pixels.push(colors[label]);
        i += 1;
    }
    pixels
}

/// The bytes of an image: the four channels of each pixel in turn.
pub fn flatten(pixels: &Vec<Sample>) -> (bytes: Vec<u8>)
    requires
        pixels.len() * 4 <= usize::MAX,
    ensures
        bytes.len() == 4 * pixels.len(),
        forall|i: int, c: int|
            0 <= i < pixels.len() && 0 <= c < 4 ==> bytes@[4 * i + c] == pixels@[i][c],
{
    let mut bytes: Vec<u8> = Vec::new();
    let mut i: usize = 0;
    while i < pixels.len()
        invariant
            0 <= i <= pixels.len(),
            bytes.len() == 4 * i,
            forall|p: int, c: int| 0 <= p < i && 0 <= c < 4 ==> bytes@[4 * p + c] == pixels@[p][c],
        decreases pixels.len() - i,
    {
        let x = pixels[i];
        bytes.push(x[0]);
        bytes.push(x[1]);
        bytes.push(x[2]);
        bytes.push(x[3]);
        i += 1;
    }
    bytes
}

/// The width of one swatch of a palette of `n` colours: 400 for a single
/// colour, else 200 less seven for each colour, and 60 at least.
pub open spec fn spec_swatch_width(n: int) -> int {
    if n > 1 {
        if 7 * n - 2 < 140 {
            200 - (7 * n - 2)
        } else {
            60
        }
    } else {
        400
    }
}

/// The width of one swatch of a palette of `n` colours.
pub fn swatch_width(n: usize) -> (w: usize)
    ensures
        w == spec_swatch_width(n as int),
        60 <= w <= 400,
{
    if n > 1 {
        if n <= 20 {
            200 - (7 * n - 2)
        } else {
            60
        }
    } else {
        400
    }
}

/// `h` is the golden section of `w`: the largest integer that, multiplied
/// by the golden ratio, does not exceed `w`.  Stated without the ratio:
/// `h` is the largest integer with `h^2 + w h <= w^2`.
pub open spec fn is_golden_section(w: int, h: int) -> bool {
    &&& 0 <= h
    &&& h * h + w * h <= w * w
    &&& (h + 1) * (h + 1) + w * (h + 1) > w * w
}

/// The golden section is the width divided by the golden ratio, the positive
/// number whose square is itself and one, and truncated.
pub proof fn lemma_golden_section(w: int, h: int, phi: real)
    requires
        phi > 0real,
        phi * phi == phi + 1real,
        0 <= w,
        0 <= h,
    ensures
        is_golden_section(w, h) <==> ((h as real) * phi <= (w as real) && (w as real) < ((h
            + 1) as real) * phi),
{
    lemma_golden_side(w, h, phi);
    lemma_golden_side(w, h + 1, phi);
}

proof fn lemma_golden_side(w: int, h: int, phi: real)
    requires
        phi > 0real,
        phi * phi == phi + 1real,
        0 <= w,
        0 <= h,
    ensures
        h * h + w * h <= w * w <==> (h as real) * phi <= (w as real),
{
    let wr = w as real;
    let hr = h as real;
    assert((h * h + w * h) as real == hr * hr + wr * hr && (w * w) as real == wr * wr)
        by (nonlinear_arith)
        requires
            wr == w as real,
            hr == h as real,
    ;
    assert(phi > 1real) by (nonlinear_arith)
        requires
            phi > 0real,
            phi * phi == phi + 1real,
    ;
    assert(wr * wr - wr * hr - hr * hr == (wr - hr * phi) * (wr + hr * (phi - 1real)))
        by (nonlinear_arith)
        requires
            phi * phi == phi + 1real,
    ;
    let a = wr - hr * phi;
    let b = wr + hr * (phi - 1real);
    assert(hr * (phi - 1real) >= 0real && (hr > 0real ==> hr * (phi - 1real) > 0real))
        by (nonlinear_arith)
        requires
            hr >= 0real,
            phi > 1real,
    ;
    assert(hr * phi >= 0real) by (nonlinear_arith)
        requires
            hr >= 0real,
            phi > 1real,
    ;
    assert(hr == 0real ==> hr * phi == 0real) by (nonlinear_arith);
    if a >= 0real {
        assert(a * b >= 0real) by (nonlinear_arith)
            requires
                a >= 0real,
                b >= 0real,
        ;
    } else {
        assert(hr > 0real);
        assert(a * b < 0real) by (nonlinear_arith)
            requires
                a < 0real,
                b > 0real,
        ;
    }
}

/// A width has one golden section only.
pub proof fn lemma_golden_section_is_unique(w: int, a: int, b: int)
    requires
        0 <= w,
        is_golden_section(w, a),
        is_golden_section(w, b),
    ensures
        a == b,
{
    if a < b {
        assert((a + 1) * (a + 1) + w * (a + 1) <= b * b + w * b) by (nonlinear_arith)
            requires
                0 <= a,
                a + 1 <= b,
                0 <= w,
        ;
    } else if b < a {
        assert((b + 1) * (b + 1) + w * (b + 1) <= a * a + w * a) by (nonlinear_arith)
            requires
                0 <= b,
                b + 1 <= a,
                0 <= w,
        ;
    }
}

fn within_golden(w: u32, h: u64) -> (r: bool)
    requires
        h <= w + 1,
    ensures
        r == (h * h + w * h <= w * w),
{
    let wide: u128 = w as u128;
    let high: u128 = h as u128;
    assert(high * high + wide * high <= 2 * (0x1_0000_0000 * 0x1_0000_0000) && wide * wide
        <= 0x1_0000_0000 * 0x1_0000_0000) by (nonlinear_arith)
        requires
            0 <= high <= 0x1_0000_0000,
            0 <= wide < 0x1_0000_0000,
    ;
    high * high + wide * high <= wide * wide
}

/// The golden section of a width.
pub fn golden_section(w: u32) -> (h: u32)
    ensures
        is_golden_section(w as int, h as int),
        h <= w,
{
    let mut low: u64 = 0;
    let mut high: u64 = w as u64 + 1;
    assert(0 * 0 + w * 0 <= w * w) by (nonlinear_arith)
        requires
            w >= 0,
    ;
    assert((w + 1) * (w + 1) + w * (w + 1) > w * w) by (nonlinear_arith)
        requires
            w >= 0,
    ;
    while high - low > 1
        invariant
            0 <= low < high <= w + 1,
            low * low + w * low <= w * w,
            high * high + w * high > w * w,
        decreases high - low,
    {
        let mid: u64 = low + (high - low) / 2;
        if within_golden(w, mid) {
            low = mid;
        } else {
            high = mid;
        }
    }
    low as u32
}

/// A picture of a palette: one swatch for each colour, side by side.
#[derive(Debug)]
pub struct Palette {
    pub width: u32,
    pub height: u32,
    /// The pixels in row-major order.
    pub pixels: Vec<Sample>,
}

impl Palette {
    /// The picture shows the palette of `centroids`: it is as wide as all
    /// swatches, as high as the golden section of its width, and the pixels
    /// of column `x` have the colour of centre `x / swatch`.
    pub open spec fn shows(&self, centroids: Seq<Centroid>) -> bool {
        let swatch = spec_swatch_width(centroids.len() as int);
        &&& self.width == swatch * centroids.len()
        &&& is_golden_section(self.width as int, self.height as int)
        &&& self.pixels.len() == self.width * self.height
        &&& forall|i: int|
            0 <= i < self.pixels.len() ==> centroids[(i % (self.width as int))
                / swatch].rounds_into(#[trigger] self.pixels@[i])
    }
}

/// The picture of a palette of `n` colours would have more columns than 32
/// bits count, or more pixels than a vector holds.
pub open spec fn palette_too_large(n: int) -> bool {
    let w = spec_swatch_width(n) * n;
    w > u32::MAX || (forall|h: int| is_golden_section(w, h) ==> w * h > usize::MAX)
}

/// The picture of the palette of `centroids`; none where it would be too
/// large.
pub fn gen_palette(centroids: &Vec<Centroid>) -> (r: Option<Palette>)
    requires
        centres_wf(centroids@),
    ensures
        match r {
            Some(p) => p.shows(centroids@),
            None => palette_too_large(centroids.len() as int),
        },
{
    let n = centroids.len();
    let swatch = swatch_width(n);
    if n > (u32::MAX as usize) / swatch {
        proof {
            assert(swatch * n > u32::MAX) by (nonlinear_arith)
                requires
                    n > (u32::MAX as int) / (swatch as int),
                    swatch > 0,
            ;
        }
        return None;
    }
    assert(swatch * n <= u32::MAX) by (nonlinear_arith)
        requires
            n <= (u32::MAX as int) / (swatch as int),
            swatch > 0,
    ;
    let width: usize = swatch * n;
    let height: usize = golden_section(width as u32) as usize;
    if height > 0 && width > usize::MAX / height {
        proof {
            assert(width * height > usize::MAX) by (nonlinear_arith)
                requires
                    width > (usize::MAX as int) / (height as int),
                    height > 0,
            ;
            assert forall|h: int| is_golden_section(width as int, h) implies width * h
                > usize::MAX by {
                lemma_golden_section_is_unique(width as int, h, height as int);
            }
        }
        return None;
    }
    assert(width * height <= usize::MAX) by (nonlinear_arith)
        requires
            height == 0 || width <= (usize::MAX as int) / (height as int),
            0 <= width,
            0 <= height,
    ;
    let total: usize = width * height;
    let colors = swatches(centroids);
    let mut pixels: Vec<Sample> = Vec::new();
    let mut i: usize = 0;
    while i < total
        invariant
            0 <= i <= total,
            total == width * height,
            width == swatch * n,
            swatch > 0,
            n == centroids.len(),
            colors.len() == n,
            forall|j: int| 0 <= j < n ==> centroids@[j].rounds_into(#[trigger] colors@[j]),
            pixels.len() == i,
            forall|p: int|
                0 <= p < i ==> centroids@[(p % (width as int)) / (swatch as int)].rounds_into(
                    #[trigger] pixels@[p],
                ),
        decreases total - i,
    {
        assert(width > 0) by (nonlinear_arith)
            requires
                i < width * height,
                0 <= width,
                0 <= height,
                0 <= i,
        ;
        let x = i % width;
        let j = x / swatch;
        assert(j < n) by (nonlinear_arith)
            requires
                j == x as int / swatch as int,
                x < swatch * n,
                swatch > 0,
        ;
        pixels.push(colors[j]);
        i += 1;
    }
    Some(Palette { width: width as u32, height: height as u32, pixels })
}

} // verus!
