use vstd::prelude::*;
use vstd::arithmetic::div_mod::lemma_fundamental_div_mod;
use crate::geometry::{Circle, Point, Quad};
use crate::gray::{lemma_raster_index_in_bounds, GrayImage};
use crate::labelling::is_min_level;

verus! {

pub open spec fn max_int(a: int, b: int) -> int {
    if a >= b {
        a
    } else {
        b
    }
}

pub open spec fn min_int(a: int, b: int) -> int {
    if a <= b {
        a
    } else {
        b
    }
}

/// The half-open pixel range `[x0, x1) x [y0, y1)` cut to the image.
pub open spec fn clip(img: GrayImage, x0: int, y0: int, x1: int, y1: int) -> (int, int, int, int) {
    let cx0 = max_int(x0, 0);
    let cy0 = max_int(y0, 0);
    let cx1 = min_int(x1, img.width as int);
    let cy1 = min_int(y1, img.height as int);
    (cx0, cy0, max_int(cx1 - cx0, 0), max_int(cy1 - cy0, 0))
}

/// Samples of the half-open pixel range `[x0, x1) x [y0, y1)`, cut to the image, row by row.
pub open spec fn region_values(img: GrayImage, x0: int, y0: int, x1: int, y1: int) -> Seq<u8> {
    let (cx0, cy0, ww, wh) = clip(img, x0, y0, x1, y1);
    Seq::new(
        (ww * wh) as nat,
        |j: int| img.pixels@[(cy0 + j / ww) * img.width as int + cx0 + j % ww],
    )
}

/// Samples of the square window `[cx - r, cx + r) x [cy - r, cy + r)` of a circle.
pub open spec fn circle_values(img: GrayImage, c: Circle) -> Seq<u8> {
    region_values(
        img,
        c.center.x - c.radius,
        c.center.y - c.radius,
        c.center.x + c.radius,
        c.center.y + c.radius,
    )
}

/// Copies the samples of a half-open pixel range, cut to the image, row by row.
fn region_samples(image: &GrayImage, x0: i64, y0: i64, x1: i64, y1: i64) -> (r: Vec<u8>)
    requires
        image.wf(),
    ensures
        r@ == region_values(*image, x0 as int, y0 as int, x1 as int, y1 as int),
{
    let w = image.width as i64;
    let h = image.height as i64;
    let cx0: i64 = if x0 > 0 {
        x0
    } else {
        0
    };
    let cy0: i64 = if y0 > 0 {
        y0
    } else {
        0
    };
    let cx1: i64 = if x1 < w {
        x1
    } else {
        w
    };
    let cy1: i64 = if y1 < h {
        y1
    } else {
        h
    };
    let ghost spec_r = region_values(*image, x0 as int, y0 as int, x1 as int, y1 as int);
    let mut out: Vec<u8> = Vec::new();
    if cx1 <= cx0 || cy1 <= cy0 {
        proof {
            let (a, b, c, d) = clip(*image, x0 as int, y0 as int, x1 as int, y1 as int);
            assert(c * d == 0) by (nonlinear_arith)
                requires
                    c == 0 || d == 0,
            ;
            assert(out@ =~= spec_r);
        }
        return out;
    }
    let ww: u64 = (cx1 - cx0) as u64;
    let wh: u64 = (cy1 - cy0) as u64;
    proof {
        assert(ww * wh <= 0xffff_ffff * 0xffff_ffff) by (nonlinear_arith)
            requires
                0 < ww <= 0xffff_ffff,
                0 < wh <= 0xffff_ffff,
        ;
    }
    let total: u64 = ww * wh;
    let mut j: u64 = 0;
    while j < total
        invariant
            image.wf(),
            0 < ww,
            0 < wh,
            total == ww * wh,
            0 <= cx0,
            0 <= cy0,
            cx0 + ww <= image.width,
            cy0 + wh <= image.height,
            spec_r == region_values(*image, x0 as int, y0 as int, x1 as int, y1 as int),
            spec_r.len() == total,
            forall|k: int|
                0 <= k < total ==> #[trigger] spec_r[k] == image.pixels@[(cy0 + k / ww as int)
                    * image.width as int + cx0 + k % ww as int],
            j <= total,
            out@ == spec_r.subrange(0, j as int),
        decreases total - j,
    {
        let q = j / ww;
        let rr = j % ww;
        proof {
            lemma_fundamental_div_mod(j as int, ww as int);
            assert(q < wh) by (nonlinear_arith)
                requires
                    j == ww * q + rr,
                    j < ww * wh,
                    0 <= rr,
                    0 < ww,
            ;
            lemma_raster_index_in_bounds(
                cx0 + rr,
                cy0 + q,
                image.width as int,
                image.height as int,
            );
        }
        let x: u32 = (cx0 as u64 + rr) as u32;
        let y: u32 = (cy0 as u64 + q) as u32;
        let v = image.get_pixel(x, y);
        out.push(v);
        proof {
            assert(out@ =~= spec_r.subrange(0, j as int + 1));
        }
        j = j + 1;
    }
    proof {
        assert(out@ =~= spec_r);
    }
    out
}

/// Rescales a sample linearly from `[lo, hi]` onto `[0, 255]`, flooring and saturating at
/// both ends; 0 when the range is empty or a single value.
pub open spec fn rescale(v: u8, lo: u8, hi: u8) -> u32 {
    if hi <= lo || v <= lo {
        0
    } else {
        let s = (v - lo) * 255 / (hi - lo);
        if s > 255 {
            255
        } else {
            s as u32
        }
    }
}

pub open spec fn rescaled(s: Seq<u8>, lo: u8, hi: u8) -> Seq<u32> {
    s.map_values(|v: u8| rescale(v, lo, hi))
}

/// Number of elements of `s` equal to `v`.
pub open spec fn count_eq(s: Seq<u32>, v: int) -> int
    decreases s.len(),
{
    if s.len() == 0 {
        0
    } else {
        count_eq(s.drop_last(), v) + if s.last() as int == v {
            1int
        } else {
            0int
        }
    }
}

/// Sum of the `k` largest elements of `s` among those at most `v`: take the copies of `v`
/// first, then continue downwards.
pub open spec fn top_sum(s: Seq<u32>, k: int, v: int) -> int
    decreases v + 1,
{
    if v < 0 || k <= 0 {
        0
    } else {
        let c = min_int(count_eq(s, v), k);
        c * v + top_sum(s, k - c, v - 1)
    }
}

/// Number of the largest samples that a cut-off of `permille` thousandths keeps.
pub open spec fn cutoff_count(n: int, permille: int) -> int {
    n * permille / 1000
}

/// Integrated signal of a circle: the sum of the largest rescaled samples of its window,
/// as many as the cut-off keeps.
pub open spec fn spot_signal(img: GrayImage, c: Circle, lo: u8, hi: u8, permille: int) -> int {
    let vals = rescaled(circle_values(img, c), lo, hi);
    top_sum(vals, cutoff_count(vals.len() as int, permille), 255)
}

fn rescale_sample(v: u8, lo: u8, hi: u8) -> (r: u32)
    ensures
        r == rescale(v, lo, hi),
        r <= 255,
{
    if hi <= lo || v <= lo {
        0
    } else {
        let s: u32 = ((v - lo) as u32) * 255 / ((hi - lo) as u32);
        if s > 255 {
            255
        } else {
            s
        }
    }
}

/// Integrated signal of one spot: the window of its circle, cut to the image, rescaled from
/// `[lo, hi]` to `[0, 255]`, and the sum of its largest values, `floor(n * permille / 1000)`
/// of the window's `n` values.
pub fn integrate_spot(
    image: &GrayImage,
    circle: &Circle,
    lo: u8,
    hi: u8,
    cut_off_permille: u32,
) -> (r: u64)
    requires
        image.wf(),
        image.pixels@.len() < 0x1_0000_0000,
        circle.fits(),
        cut_off_permille <= 1000,
    ensures
        r == spot_signal(*image, *circle, lo, hi, cut_off_permille as int),
{
    let samples = region_samples(
        image,
        circle.center.x - circle.radius,
        circle.center.y - circle.radius,
        circle.center.x + circle.radius,
        circle.center.y + circle.radius,
    );
    let ghost vals = rescaled(samples@, lo, hi);
    proof {
        let (a, b, ww, wh) = clip(
            *image,
            circle.center.x - circle.radius,
            circle.center.y - circle.radius,
            circle.center.x + circle.radius,
            circle.center.y + circle.radius,
        );
        assert(ww * wh <= image.width as int * image.height as int) by (nonlinear_arith)
            requires
                0 <= ww <= image.width,
                0 <= wh <= image.height,
        ;
    }
    let mut hist: Vec<u64> = Vec::new();
    let mut v: usize = 0;
    while v < 256
        invariant
            v <= 256,
            hist@.len() == v,
            forall|u: int| 0 <= u < v ==> hist@[u] == 0,
        decreases 256 - v,
    {
        hist.push(0);
        v = v + 1;
    }
    let mut i: usize = 0;
    while i < samples.len()
        invariant
            vals == rescaled(samples@, lo, hi),
            samples@.len() < 0x1_0000_0000,
            i <= samples@.len(),
            hist@.len() == 256,
            forall|u: int|
                0 <= u < 256 ==> #[trigger] hist@[u] == count_eq(vals.subrange(0, i as int), u),
            forall|u: int| 0 <= u < 256 ==> hist@[u] <= i,
        decreases samples.len() - i,
    {
        let x = rescale_sample(samples[i], lo, hi);
        let ghost before = hist@;
        proof {
            assert(vals.subrange(0, i as int + 1).drop_last() =~= vals.subrange(0, i as int));
        }
        let c = hist[x as usize];
        hist.set(x as usize, c + 1);
        proof {
            assert forall|u: int| 0 <= u < 256 implies #[trigger] hist@[u] == count_eq(
                vals.subrange(0, i as int + 1),
                u,
            ) by {
                assert(before[u] == count_eq(vals.subrange(0, i as int), u));
            }
        }
        i = i + 1;
    }
    proof {
        assert(vals.subrange(0, samples@.len() as int) =~= vals);
    }
    let n = samples.len() as u64;
    proof {
        assert(n < 0x1_0000_0000);
        assert(n * cut_off_permille <= 0x1_0000_0000 * 1000) by (nonlinear_arith)
            requires
                n < 0x1_0000_0000,
                cut_off_permille <= 1000,
        ;
    }
    let k: u64 = n * (cut_off_permille as u64) / 1000;
    proof {
        assert(k <= n) by (nonlinear_arith)
            requires
                k == n * cut_off_permille / 1000,
                cut_off_permille <= 1000,
                0 <= n,
        ;
    }
    let mut rem: u64 = k;
    let mut total: u64 = 0;
    let mut t: usize = 0;
    while t < 256
        invariant
            t <= 256,
            hist@.len() == 256,
            forall|u: int| 0 <= u < 256 ==> #[trigger] hist@[u] == count_eq(vals, u),
            rem <= k,
            k < 0x1_0000_0000,
            total <= 255 * (k - rem),
            total + top_sum(vals, rem as int, 255 - t) == top_sum(vals, k as int, 255),
        decreases 256 - t,
    {
        let val: u64 = (255 - t) as u64;
        let h = hist[255 - t];
        let c = if h < rem {
            h
        } else {
            rem
        };
        proof {
            assert(c * val <= 255 * c) by (nonlinear_arith)
                requires
                    val <= 255,
            ;
        }
        total = total + c * val;
        rem = rem - c;
        t = t + 1;
    }
    total
}

fn min_i64(a: i64, b: i64) -> (r: i64)
    ensures
        r == min_int(a as int, b as int),
{
    if a > b {
        b
    } else {
        a
    }
}

fn max_i64(a: i64, b: i64) -> (r: i64)
    ensures
        r == max_int(a as int, b as int),
{
    if a < b {
        b
    } else {
        a
    }
}

/// The smallest box, corner by corner, that covers both `cur` and `cand`.
pub open spec fn merge_quads(cur: Quad, cand: Quad) -> Quad {
    Quad {
        top_left: Point {
            x: min_int(cur.top_left.x as int, cand.top_left.x as int) as i64,
            y: min_int(cur.top_left.y as int, cand.top_left.y as int) as i64,
        },
        top_right: Point {
            x: max_int(cur.top_right.x as int, cand.top_right.x as int) as i64,
            y: min_int(cur.top_right.y as int, cand.top_right.y as int) as i64,
        },
        bottom_right: Point {
            x: max_int(cur.bottom_right.x as int, cand.bottom_right.x as int) as i64,
            y: max_int(cur.bottom_right.y as int, cand.bottom_right.y as int) as i64,
        },
        bottom_left: Point {
            x: min_int(cur.bottom_left.x as int, cand.bottom_left.x as int) as i64,
            y: max_int(cur.bottom_left.y as int, cand.bottom_left.y as int) as i64,
        },
    }
}

/// Start of the union: each corner at the opposite extreme of a `width` by `height` image.
pub open spec fn empty_union(width: u32, height: u32) -> Quad {
    Quad {
        top_left: Point { x: (width - 1) as i64, y: (height - 1) as i64 },
        top_right: Point { x: 0, y: (height - 1) as i64 },
        bottom_right: Point { x: 0, y: 0 },
        bottom_left: Point { x: (width - 1) as i64, y: 0 },
    }
}

/// Union box of the squares of the first `blobs.len()` circles.
pub open spec fn union_box(width: u32, height: u32, blobs: Seq<(u32, Circle)>) -> Quad
    decreases blobs.len(),
{
    if blobs.len() == 0 {
        empty_union(width, height)
    } else {
        merge_quads(union_box(width, height, blobs.drop_last()), blobs.last().1.spec_to_quad())
    }
}

pub open spec fn all_fit(blobs: Seq<(u32, Circle)>) -> bool {
    forall|i: int| 0 <= i < blobs.len() ==> (#[trigger] blobs[i]).1.fits()
}

/// The box that covers the squares of all circles: least left and top, greatest right and
/// bottom, starting from corners placed at the opposite image extremes.
pub fn find_bounding_box_from_blobs(width: u32, height: u32, blobs: &Vec<(u32, Circle)>) -> (r:
    Quad)
    requires
        all_fit(blobs@),
    ensures
        r == union_box(width, height, blobs@),
{
    let w = width as i64;
    let h = height as i64;
    let mut q = Quad {
        top_left: Point { x: w - 1, y: h - 1 },
        top_right: Point { x: 0, y: h - 1 },
        bottom_right: Point { x: 0, y: 0 },
        bottom_left: Point { x: w - 1, y: 0 },
    };
    let mut i: usize = 0;
    while i < blobs.len()
        invariant
            all_fit(blobs@),
            i <= blobs@.len(),
            q == union_box(width, height, blobs@.subrange(0, i as int)),
        decreases blobs.len() - i,
    {
        proof {
            assert(blobs@.subrange(0, i as int + 1).drop_last() =~= blobs@.subrange(0, i as int));
            assert(blobs@[i as int].1.fits());
        }
        let c = blobs[i].1.to_quad();
        q = Quad {
            top_left: Point {
                x: min_i64(q.top_left.x, c.top_left.x),
                y: min_i64(q.top_left.y, c.top_left.y),
            },
            top_right: Point {
                x: max_i64(q.top_right.x, c.top_right.x),
                y: min_i64(q.top_right.y, c.top_right.y),
            },
            bottom_right: Point {
                x: max_i64(q.bottom_right.x, c.bottom_right.x),
                y: max_i64(q.bottom_right.y, c.bottom_right.y),
            },
            bottom_left: Point {
                x: min_i64(q.bottom_left.x, c.bottom_left.x),
                y: max_i64(q.bottom_left.y, c.bottom_left.y),
            },
        };
        i = i + 1;
    }
    proof {
        assert(blobs@.subrange(0, blobs@.len() as int) =~= blobs@);
    }
    q
}

/// The greatest sample, 0 for an empty sequence.
pub open spec fn is_max_level(s: Seq<u8>, m: u8) -> bool {
    &&& forall|i: int| 0 <= i < s.len() ==> #[trigger] s[i] <= m
    &&& s.len() > 0 ==> exists|i: int| 0 <= i < s.len() && s[i] == m
    &&& s.len() == 0 ==> m == 0
}

/// Samples of the union box, from its left and top edges up to (not including) its right
/// and bottom edges.
pub open spec fn scaling_region(img: GrayImage, blobs: Seq<(u32, Circle)>) -> Seq<u8> {
    let q = union_box(img.width, img.height, blobs);
    region_values(
        img,
        q.top_left.x as int,
        q.top_right.y as int,
        q.top_right.x as int,
        q.bottom_right.y as int,
    )
}

/// The shared range used to rescale every spot: least and greatest sample of the union box.
pub open spec fn is_scaling(img: GrayImage, blobs: Seq<(u32, Circle)>, lo: u8, hi: u8) -> bool {
    is_min_level(scaling_region(img, blobs), lo) && is_max_level(scaling_region(img, blobs), hi)
}

/// Least and greatest sample over the box that covers all circles' squares; `(255, 0)`
/// when that box holds no pixel.
pub fn find_scaling(image: &GrayImage, blobs: &Vec<(u32, Circle)>) -> (r: (u8, u8))
    requires
        image.wf(),
        all_fit(blobs@),
    ensures
        is_scaling(*image, blobs@, r.0, r.1),
{
    let q = find_bounding_box_from_blobs(image.width, image.height, blobs);
    let strip = region_samples(image, q.top_left.x, q.top_right.y, q.top_right.x, q.bottom_right.y);
    let mut lo: u8 = 255;
    let mut hi: u8 = 0;
    let mut i: usize = 0;
    while i < strip.len()
        invariant
            i <= strip@.len(),
            forall|j: int| 0 <= j < i ==> lo <= #[trigger] strip@[j] && strip@[j] <= hi,
            i > 0 ==> exists|j: int| 0 <= j < i && strip@[j] == lo,
            i > 0 ==> exists|j: int| 0 <= j < i && strip@[j] == hi,
            i == 0 ==> lo == 255 && hi == 0,
        decreases strip.len() - i,
    {
        let v = strip[i];
        if lo > v {
            lo = v;
        }
        if hi < v {
            hi = v;
        }
        i = i + 1;
    }
    (lo, hi)
}

/// Integrated signal of every spot, in the order given: each window is rescaled by the
/// range of the box that covers all spots, so that signals compare across the plate. Each
/// entry of `blobs` gives one entry of the result with the same identifier, so an identifier
/// given twice yields two entries, each with the signal of its own circle.
pub fn integrate_spots(
    image: &GrayImage,
    blobs: &Vec<(u32, Circle)>,
    cut_off_permille: u32,
) -> (r: Vec<(u32, u64)>)
    requires
        image.wf(),
        image.pixels@.len() < 0x1_0000_0000,
        all_fit(blobs@),
        cut_off_permille <= 1000,
    ensures
        r@.len() == blobs@.len(),
        exists|lo: u8, hi: u8|
            #[trigger] is_scaling(*image, blobs@, lo, hi) && forall|i: int|
                0 <= i < r@.len() ==> #[trigger] r@[i] == (
                    blobs@[i].0,
                    spot_signal(*image, blobs@[i].1, lo, hi, cut_off_permille as int) as u64,
                ),
{
    let (lo, hi) = find_scaling(image, blobs);
    let mut out: Vec<(u32, u64)> = Vec::new();
    let mut i: usize = 0;
    while i < blobs.len()
        invariant
            image.wf(),
            image.pixels@.len() < 0x1_0000_0000,
            all_fit(blobs@),
            cut_off_permille <= 1000,
            i <= blobs@.len(),
            out@.len() == i,
            forall|j: int|
                0 <= j < i ==> #[trigger] out@[j] == (
                    blobs@[j].0,
                    spot_signal(*image, blobs@[j].1, lo, hi, cut_off_permille as int) as u64,
                ),
        decreases blobs.len() - i,
    {
        proof {
            assert(blobs@[i as int].1.fits());
        }
        let signal = integrate_spot(image, &blobs[i].1, lo, hi, cut_off_permille);
        out.push((blobs[i].0, signal));
        i = i + 1;
    }
    proof {
        assert(is_scaling(*image, blobs@, lo, hi));
    }
    out
}

/// Sum of the elements of `s`.
pub open spec fn sum_u32(s: Seq<u32>) -> int
    decreases s.len(),
{
    if s.len() == 0 {
        0
    } else {
        sum_u32(s.drop_last()) + s.last() as int
    }
}

spec fn count_le32(s: Seq<u32>, v: int) -> int
    decreases s.len(),
{
    if s.len() == 0 {
        0
    } else {
        count_le32(s.drop_last(), v) + if s.last() as int <= v {
            1int
        } else {
            0int
        }
    }
}

spec fn sum_le32(s: Seq<u32>, v: int) -> int
    decreases s.len(),
{
    if s.len() == 0 {
        0
    } else {
        sum_le32(s.drop_last(), v) + if s.last() as int <= v {
            s.last() as int
        } else {
            0int
        }
    }
}

proof fn lemma_split_at_value(s: Seq<u32>, v: int)
    ensures
        count_le32(s, v) == count_le32(s, v - 1) + count_eq(s, v),
        sum_le32(s, v) == sum_le32(s, v - 1) + v * count_eq(s, v),
        0 <= count_eq(s, v),
        0 <= count_le32(s, v - 1),
    decreases s.len(),
{
    if s.len() > 0 {
        lemma_split_at_value(s.drop_last(), v);
        let c0 = count_eq(s.drop_last(), v);
        assert(v * c0 + (if s.last() as int == v { v } else { 0int }) == v * count_eq(s, v))
            by (nonlinear_arith)
            requires
                count_eq(s, v) == c0 + if s.last() as int == v {
                    1int
                } else {
                    0int
                },
        ;
    }
}

proof fn lemma_below_zero(s: Seq<u32>)
    ensures
        count_le32(s, -1) == 0,
        sum_le32(s, -1) == 0,
    decreases s.len(),
{
    if s.len() > 0 {
        lemma_below_zero(s.drop_last());
    }
}

proof fn lemma_top_sum_of_prefix(s: Seq<u32>, v: int)
    requires
        v >= -1,
    ensures
        top_sum(s, count_le32(s, v), v) == sum_le32(s, v),
    decreases v + 1,
{
    if v == -1 {
        lemma_below_zero(s);
    } else {
        lemma_split_at_value(s, v);
        lemma_top_sum_of_prefix(s, v - 1);
        let k = count_le32(s, v);
        let c = count_eq(s, v);
        if k == 0 {
            assert(c == 0);
            assert(top_sum(s, 0, v - 1) == 0);
            assert(sum_le32(s, v - 1) == 0);
            assert(v * c == 0) by (nonlinear_arith)
                requires
                    c == 0,
            ;
        } else {
            assert(min_int(c, k) == c);
            assert(top_sum(s, k, v) == c * v + top_sum(s, k - c, v - 1));
            assert(c * v == v * c) by (nonlinear_arith);
        }
    }
}

proof fn lemma_all_below(s: Seq<u32>, v: int)
    requires
        forall|i: int| 0 <= i < s.len() ==> s[i] <= v,
    ensures
        count_le32(s, v) == s.len(),
        sum_le32(s, v) == sum_u32(s),
    decreases s.len(),
{
    if s.len() > 0 {
        lemma_all_below(s.drop_last(), v);
    }
}

/// With a cut-off of one thousand thousandths the signal of a spot is the sum of all
/// rescaled samples of its window, and with a cut-off of zero it is zero.
pub proof fn lemma_cutoff_extremes(img: GrayImage, c: Circle, lo: u8, hi: u8)
    ensures
        spot_signal(img, c, lo, hi, 1000) == sum_u32(rescaled(circle_values(img, c), lo, hi)),
        spot_signal(img, c, lo, hi, 0) == 0,
{
    let vals = rescaled(circle_values(img, c), lo, hi);
    assert(cutoff_count(vals.len() as int, 1000) == vals.len());
    assert(cutoff_count(vals.len() as int, 0) == 0);
    assert forall|i: int| 0 <= i < vals.len() implies vals[i] <= 255 by {
        let v = circle_values(img, c)[i];
        assert(vals[i] == rescale(v, lo, hi));
    }
    lemma_all_below(vals, 255);
    lemma_top_sum_of_prefix(vals, 255);
}

} // verus!
