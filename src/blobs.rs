use vstd::prelude::*;
use crate::geometry::{
    dist2, floor_sqrt, isqrt, lemma_u64_products_fit, rectangle, squared_distance, Circle, Point,
    Quad,
};
use crate::gray::GrayImage;
use crate::labelling::{
    get_labeled_regions, is_min_level, max_dim, region_labels, BlobParams,
};

verus! {

/// Number of the first `n` pixels that carry label `l`.
pub open spec fn count_of(labels: Seq<u32>, l: int, n: int) -> int
    decreases n,
{
    if n <= 0 {
        0
    } else {
        count_of(labels, l, n - 1) + if labels[n - 1] == l {
            1int
        } else {
            0int
        }
    }
}

/// Summed intensity of the first `n` pixels that carry label `l`.
pub open spec fn weight_of(labels: Seq<u32>, pixels: Seq<u8>, l: int, n: int) -> int
    decreases n,
{
    if n <= 0 {
        0
    } else {
        weight_of(labels, pixels, l, n - 1) + if labels[n - 1] == l {
            pixels[n - 1] as int
        } else {
            0int
        }
    }
}

/// Summed `intensity * x` of the first `n` pixels that carry label `l`, in a raster of
/// width `w`.
pub open spec fn weighted_x_of(labels: Seq<u32>, pixels: Seq<u8>, w: int, l: int, n: int) -> int
    decreases n,
{
    if n <= 0 {
        0
    } else {
        weighted_x_of(labels, pixels, w, l, n - 1) + if labels[n - 1] == l {
            ((n - 1) % w) * pixels[n - 1] as int
        } else {
            0int
        }
    }
}

/// Summed `intensity * y` of the first `n` pixels that carry label `l`, in a raster of
/// width `w`.
pub open spec fn weighted_y_of(labels: Seq<u32>, pixels: Seq<u8>, w: int, l: int, n: int) -> int
    decreases n,
{
    if n <= 0 {
        0
    } else {
        weighted_y_of(labels, pixels, w, l, n - 1) + if labels[n - 1] == l {
            ((n - 1) / w) * pixels[n - 1] as int
        } else {
            0int
        }
    }
}

/// Least column among the first `n` pixels that carry label `l`; `w` if there is none.
pub open spec fn left_of(labels: Seq<u32>, w: int, l: int, n: int) -> int
    decreases n,
{
    if n <= 0 {
        w
    } else {
        let prev = left_of(labels, w, l, n - 1);
        if labels[n - 1] == l && (n - 1) % w <= prev {
            (n - 1) % w
        } else {
            prev
        }
    }
}

/// Greatest column among the first `n` pixels that carry label `l`; 0 if there is none.
pub open spec fn right_of(labels: Seq<u32>, w: int, l: int, n: int) -> int
    decreases n,
{
    if n <= 0 {
        0
    } else {
        let prev = right_of(labels, w, l, n - 1);
        if labels[n - 1] == l && (n - 1) % w >= prev {
            (n - 1) % w
        } else {
            prev
        }
    }
}

/// Least row among the first `n` pixels that carry label `l`; `h` if there is none.
pub open spec fn top_of(labels: Seq<u32>, w: int, h: int, l: int, n: int) -> int
    decreases n,
{
    if n <= 0 {
        h
    } else {
        let prev = top_of(labels, w, h, l, n - 1);
        if labels[n - 1] == l && (n - 1) / w <= prev {
            (n - 1) / w
        } else {
            prev
        }
    }
}

/// Greatest row among the first `n` pixels that carry label `l`; 0 if there is none.
pub open spec fn bottom_of(labels: Seq<u32>, w: int, l: int, n: int) -> int
    decreases n,
{
    if n <= 0 {
        0
    } else {
        let prev = bottom_of(labels, w, l, n - 1);
        if labels[n - 1] == l && (n - 1) / w >= prev {
            (n - 1) / w
        } else {
            prev
        }
    }
}

/// Intensity-weighted centroid of the pixels labelled `l`, each coordinate floored; the
/// top-left corner of their bounding box when their intensities sum to zero.
pub open spec fn blob_center(img: GrayImage, labels: Seq<u32>, l: int) -> Point {
    let n = img.pixels@.len() as int;
    let w = img.width as int;
    let s = weight_of(labels, img.pixels@, l, n);
    if s == 0 {
        Point {
            x: left_of(labels, w, l, n) as i64,
            y: top_of(labels, w, img.height as int, l, n) as i64,
        }
    } else {
        Point {
            x: (weighted_x_of(labels, img.pixels@, w, l, n) / s) as i64,
            y: (weighted_y_of(labels, img.pixels@, w, l, n) / s) as i64,
        }
    }
}

/// Axis-aligned bounding box of the pixels labelled `l`.
pub open spec fn blob_bbox(img: GrayImage, labels: Seq<u32>, l: int) -> Quad {
    let n = img.pixels@.len() as int;
    let w = img.width as int;
    rectangle(
        left_of(labels, w, l, n) as i64,
        top_of(labels, w, img.height as int, l, n) as i64,
        right_of(labels, w, l, n) as i64,
        bottom_of(labels, w, l, n) as i64,
    )
}

pub open spec fn min2(a: int, b: int) -> int {
    if a <= b {
        a
    } else {
        b
    }
}

/// Least squared distance from `c` to a corner of `q`.
pub open spec fn min_corner_dist2(c: Point, q: Quad) -> int {
    min2(
        min2(min2(dist2(q.top_left, c), dist2(q.top_right, c)), dist2(q.bottom_right, c)),
        dist2(q.bottom_left, c),
    )
}

/// The circle of blob `l`: its centroid, and the floored distance from there to the
/// nearest corner of its bounding box.
pub open spec fn blob_circle(img: GrayImage, labels: Seq<u32>, l: int) -> Circle {
    let c = blob_center(img, labels, l);
    Circle { center: c, radius: floor_sqrt(min_corner_dist2(c, blob_bbox(img, labels, l))) as i64 }
}

/// `c` lies in the box `q` (borders included).
pub open spec fn center_in_box(c: Point, q: Quad) -> bool {
    q.top_left.x <= c.x <= q.bottom_right.x && q.top_left.y <= c.y <= q.bottom_right.y
}

/// The nearest corner of `q` is at most half the diagonal of `q` away from `c`.
pub open spec fn within_half_diagonal(c: Point, q: Quad) -> bool {
    let dw = q.bottom_right.x - q.top_left.x;
    let dh = q.bottom_right.y - q.top_left.y;
    4 * min_corner_dist2(c, q) <= dw * dw + dh * dh
}

/// Whether `v` lies within `[lo, hi]` thousandths of `m`.
pub open spec fn within_permille(v: int, m: int, lo: int, hi: int) -> bool {
    lo * m <= 1000 * v && 1000 * v <= hi * m
}

/// Label `l` is present and its bounding box has an accepted aspect ratio and size.
pub open spec fn blob_kept(img: GrayImage, labels: Seq<u32>, l: int, p: BlobParams) -> bool {
    let n = img.pixels@.len() as int;
    let (bw, bh) = blob_bbox(img, labels, l).spec_dimensions();
    let m = max_dim(img.width, img.height);
    &&& count_of(labels, l, n) > 0
    &&& bh > 0
    &&& within_permille(bw, bh, p.aspect_min_permille as int, p.aspect_max_permille as int)
    &&& within_permille(bw, m, p.size_min_permille as int, p.size_max_permille as int)
    &&& within_permille(bh, m, p.size_min_permille as int, p.size_max_permille as int)
}

/// The kept blobs among labels `1..=m`, in ascending label order.
pub open spec fn blob_list(img: GrayImage, labels: Seq<u32>, p: BlobParams, m: int) -> Seq<
    (u32, Circle),
>
    decreases m,
{
    if m <= 0 {
        seq![]
    } else {
        blob_list(img, labels, p, m - 1) + if blob_kept(img, labels, m, p) {
            seq![(m as u32, blob_circle(img, labels, m))]
        } else {
            seq![]
        }
    }
}

/// Running totals of one label.
#[derive(Clone, Copy)]
struct LabelStats {
    count: u64,
    weight: u64,
    weighted_x: u128,
    weighted_y: u128,
    left: u32,
    right: u32,
    top: u32,
    bottom: u32,
}

spec fn stats_match(
    s: LabelStats,
    labels: Seq<u32>,
    pixels: Seq<u8>,
    w: int,
    h: int,
    l: int,
    n: int,
) -> bool {
    &&& s.count == count_of(labels, l, n)
    &&& s.weight == weight_of(labels, pixels, l, n)
    &&& s.weighted_x == weighted_x_of(labels, pixels, w, l, n)
    &&& s.weighted_y == weighted_y_of(labels, pixels, w, l, n)
    &&& s.left == left_of(labels, w, l, n)
    &&& s.right == right_of(labels, w, l, n)
    &&& s.top == top_of(labels, w, h, l, n)
    &&& s.bottom == bottom_of(labels, w, l, n)
}

proof fn lemma_stats_bounds(
    labels: Seq<u32>,
    pixels: Seq<u8>,
    w: int,
    h: int,
    total: int,
    l: int,
    n: int,
)
    requires
        0 <= n <= total,
        total == labels.len(),
        total == pixels.len(),
        0 < w,
        0 <= h,
    ensures
        0 <= count_of(labels, l, n) <= n,
        0 <= weight_of(labels, pixels, l, n) <= 255 * n,
        0 <= weighted_x_of(labels, pixels, w, l, n) <= w * weight_of(labels, pixels, l, n),
        0 <= weighted_y_of(labels, pixels, w, l, n) <= total * weight_of(labels, pixels, l, n),
        0 <= left_of(labels, w, l, n) <= w,
        0 <= right_of(labels, w, l, n) <= w,
        0 <= top_of(labels, w, h, l, n) <= h,
        0 <= bottom_of(labels, w, l, n) <= total,
        count_of(labels, l, n) > 0 ==> left_of(labels, w, l, n) <= right_of(labels, w, l, n)
            && top_of(labels, w, h, l, n) <= bottom_of(labels, w, l, n),
    decreases n,
{
    if n > 0 {
        lemma_stats_bounds(labels, pixels, w, h, total, l, n - 1);
        let i = n - 1;
        let x = i % w;
        let y = i / w;
        let p = pixels[i] as int;
        assert(0 <= x < w);
        assert(0 <= y <= i) by (nonlinear_arith)
            requires
                0 <= i,
                0 < w,
                y == i / w,
        ;
        let s0 = weight_of(labels, pixels, l, i);
        assert(0 <= x * p <= w * p) by (nonlinear_arith)
            requires
                0 <= x < w,
                0 <= p,
        ;
        assert(0 <= y * p <= total * p) by (nonlinear_arith)
            requires
                0 <= y <= total,
                0 <= p,
        ;
        assert(w * s0 + w * p == w * (s0 + p)) by (nonlinear_arith);
        assert(total * s0 + total * p == total * (s0 + p)) by (nonlinear_arith);
        if count_of(labels, l, i) == 0 && labels[i] == l {
            lemma_empty_extremes(labels, w, h, l, i);
        }
    }
}

/// Between the extreme columns (rows) of a label, weighted by its summed intensity, lies its
/// intensity-weighted column (row) sum; a label without pixels has all sums zero.
proof fn lemma_weighted_within_box(
    labels: Seq<u32>,
    pixels: Seq<u8>,
    w: int,
    h: int,
    total: int,
    l: int,
    n: int,
)
    requires
        0 <= n <= total,
        total == labels.len(),
        total == pixels.len(),
        total == w * h,
        0 < w,
        0 <= h,
    ensures
        count_of(labels, l, n) == 0 ==> weight_of(labels, pixels, l, n) == 0 && weighted_x_of(
            labels,
            pixels,
            w,
            l,
            n,
        ) == 0 && weighted_y_of(labels, pixels, w, l, n) == 0,
        count_of(labels, l, n) > 0 ==> {
            let s = weight_of(labels, pixels, l, n);
            &&& left_of(labels, w, l, n) * s <= weighted_x_of(labels, pixels, w, l, n)
            &&& weighted_x_of(labels, pixels, w, l, n) <= right_of(labels, w, l, n) * s
            &&& top_of(labels, w, h, l, n) * s <= weighted_y_of(labels, pixels, w, l, n)
            &&& weighted_y_of(labels, pixels, w, l, n) <= bottom_of(labels, w, l, n) * s
        },
    decreases n,
{
    if n > 0 {
        let i = n - 1;
        lemma_weighted_within_box(labels, pixels, w, h, total, l, i);
        lemma_stats_bounds(labels, pixels, w, h, total, l, i);
        lemma_count_nonneg(labels, l, i);
        if labels[i] == l {
            let x = i % w;
            let y = i / w;
            let p = pixels[i] as int;
            assert(0 <= x < w);
            assert(0 <= y < h) by (nonlinear_arith)
                requires
                    0 <= i < w * h,
                    0 < w,
                    y == i / w,
            ;
            let s0 = weight_of(labels, pixels, l, i);
            let (l0, r0) = (left_of(labels, w, l, i), right_of(labels, w, l, i));
            let (t0, b0) = (top_of(labels, w, h, l, i), bottom_of(labels, w, l, i));
            let (l1, r1) = (left_of(labels, w, l, n), right_of(labels, w, l, n));
            let (t1, b1) = (top_of(labels, w, h, l, n), bottom_of(labels, w, l, n));
            let sx0 = weighted_x_of(labels, pixels, w, l, i);
            let sy0 = weighted_y_of(labels, pixels, w, l, i);
            if count_of(labels, l, i) == 0 {
                lemma_empty_extremes(labels, w, h, l, i);
                assert(l1 == x && r1 == x && t1 == y && b1 == y);
            } else {
                assert(l1 * s0 + l1 * p <= sx0 + x * p) by (nonlinear_arith)
                    requires
                        l1 <= l0,
                        l1 <= x,
                        0 <= s0,
                        0 <= p,
                        l0 * s0 <= sx0,
                ;
                assert(sx0 + x * p <= r1 * s0 + r1 * p) by (nonlinear_arith)
                    requires
                        r0 <= r1,
                        x <= r1,
                        0 <= s0,
                        0 <= p,
                        sx0 <= r0 * s0,
                ;
                assert(t1 * s0 + t1 * p <= sy0 + y * p) by (nonlinear_arith)
                    requires
                        t1 <= t0,
                        t1 <= y,
                        0 <= s0,
                        0 <= p,
                        t0 * s0 <= sy0,
                ;
                assert(sy0 + y * p <= b1 * s0 + b1 * p) by (nonlinear_arith)
                    requires
                        b0 <= b1,
                        y <= b1,
                        0 <= s0,
                        0 <= p,
                        sy0 <= b0 * s0,
                ;
                assert(l1 * (s0 + p) == l1 * s0 + l1 * p) by (nonlinear_arith);
                assert(r1 * (s0 + p) == r1 * s0 + r1 * p) by (nonlinear_arith);
                assert(t1 * (s0 + p) == t1 * s0 + t1 * p) by (nonlinear_arith);
                assert(b1 * (s0 + p) == b1 * s0 + b1 * p) by (nonlinear_arith);
            }
        }
    }
}

proof fn lemma_empty_extremes(labels: Seq<u32>, w: int, h: int, l: int, n: int)
    requires
        0 <= n,
        n <= labels.len(),
        count_of(labels, l, n) == 0,
    ensures
        left_of(labels, w, l, n) == w,
        right_of(labels, w, l, n) == 0,
        top_of(labels, w, h, l, n) == h,
        bottom_of(labels, w, l, n) == 0,
    decreases n,
{
    if n > 0 {
        assert(count_of(labels, l, n - 1) >= 0) by {
            lemma_count_nonneg(labels, l, n - 1);
        }
        lemma_empty_extremes(labels, w, h, l, n - 1);
    }
}

proof fn lemma_count_nonneg(labels: Seq<u32>, l: int, n: int)
    ensures
        count_of(labels, l, n) >= 0,
    decreases n,
{
    if n > 0 {
        lemma_count_nonneg(labels, l, n - 1);
    }
}

proof fn lemma_count_zero_above(labels: Seq<u32>, top: int, l: int, n: int)
    requires
        0 <= n <= labels.len(),
        forall|j: int| 0 <= j < labels.len() ==> labels[j] <= top,
        l > top,
    ensures
        count_of(labels, l, n) == 0,
    decreases n,
{
    if n > 0 {
        lemma_count_zero_above(labels, top, l, n - 1);
    }
}

proof fn lemma_blob_list_stable(img: GrayImage, labels: Seq<u32>, p: BlobParams, top: int, m: int)
    requires
        0 <= top <= m,
        labels.len() == img.pixels@.len(),
        forall|j: int| 0 <= j < labels.len() ==> labels[j] <= top,
    ensures
        blob_list(img, labels, p, m) == blob_list(img, labels, p, top),
    decreases m - top,
{
    if m > top {
        lemma_count_zero_above(labels, top, m, labels.len() as int);
        lemma_blob_list_stable(img, labels, p, top, m - 1);
        assert(blob_list(img, labels, p, m) =~= blob_list(img, labels, p, m - 1));
    }
}

proof fn lemma_half_diagonal(c: Point, q: Quad)
    requires
        q == rectangle(q.top_left.x, q.top_left.y, q.bottom_right.x, q.bottom_right.y),
        center_in_box(c, q),
    ensures
        within_half_diagonal(c, q),
{
    let (l, t, r, b) = (
        q.top_left.x as int,
        q.top_left.y as int,
        q.bottom_right.x as int,
        q.bottom_right.y as int,
    );
    let (cx, cy) = (c.x as int, c.y as int);
    let dx = if cx - l <= r - cx { cx - l } else { r - cx };
    let dy = if cy - t <= b - cy { cy - t } else { b - cy };
    assert(4 * (dx * dx + dy * dy) <= (r - l) * (r - l) + (b - t) * (b - t)) by (nonlinear_arith)
        requires
            0 <= 2 * dx <= r - l,
            0 <= 2 * dy <= b - t,
    ;
    assert((l - cx) * (l - cx) == (cx - l) * (cx - l)) by (nonlinear_arith);
    assert((t - cy) * (t - cy) == (cy - t) * (cy - t)) by (nonlinear_arith);
    assert(min_corner_dist2(c, q) <= dx * dx + dy * dy) by {
        if cx - l <= r - cx {
            if cy - t <= b - cy {
                assert(dist2(q.top_left, c) == dx * dx + dy * dy);
            } else {
                assert(dist2(q.bottom_left, c) == dx * dx + dy * dy);
            }
        } else {
            if cy - t <= b - cy {
                assert(dist2(q.top_right, c) == dx * dx + dy * dy);
            } else {
                assert(dist2(q.bottom_right, c) == dx * dx + dy * dy);
            }
        }
    }
}

/// Every present label's centre lies in its bounding box, and the nearest box corner, whose
/// floored distance is the radius, is at most half the box's diagonal away.
pub proof fn lemma_blob_circle_in_box(img: GrayImage, labels: Seq<u32>, l: int)
    requires
        img.wf(),
        labels.len() == img.pixels@.len(),
        img.pixels@.len() < 0x1_0000_0000,
        count_of(labels, l, img.pixels@.len() as int) > 0,
    ensures
        center_in_box(blob_center(img, labels, l), blob_bbox(img, labels, l)),
        within_half_diagonal(blob_center(img, labels, l), blob_bbox(img, labels, l)),
{
    let n = img.pixels@.len() as int;
    let (w, h) = (img.width as int, img.height as int);
    if w == 0 {
        assert(w * h == 0);
    }
    lemma_stats_bounds(labels, img.pixels@, w, h, n, l, n);
    lemma_weighted_within_box(labels, img.pixels@, w, h, n, l, n);
    let s = weight_of(labels, img.pixels@, l, n);
    if s > 0 {
        let (lf, rt) = (left_of(labels, w, l, n), right_of(labels, w, l, n));
        let (tp, bt) = (top_of(labels, w, h, l, n), bottom_of(labels, w, l, n));
        let sx = weighted_x_of(labels, img.pixels@, w, l, n);
        let sy = weighted_y_of(labels, img.pixels@, w, l, n);
        assert(lf <= sx / s <= rt) by (nonlinear_arith)
            requires
                lf * s <= sx <= rt * s,
                0 < s,
        ;
        assert(tp <= sy / s <= bt) by (nonlinear_arith)
            requires
                tp * s <= sy <= bt * s,
                0 < s,
        ;
    }
    lemma_half_diagonal(blob_center(img, labels, l), blob_bbox(img, labels, l));
}

/// The labels of a blob list over labels `1..=m` are increasing, so no label repeats.
pub proof fn lemma_blob_list_increasing(img: GrayImage, labels: Seq<u32>, p: BlobParams, m: int)
    requires
        m <= u32::MAX,
    ensures
        forall|i: int|
            0 <= i < blob_list(img, labels, p, m).len() ==> 1 <= #[trigger] blob_list(
                img,
                labels,
                p,
                m,
            )[i].0 <= m,
        forall|i: int, j: int|
            0 <= i < j < blob_list(img, labels, p, m).len() ==> (#[trigger] blob_list(
                img,
                labels,
                p,
                m,
            )[i]).0 < (#[trigger] blob_list(img, labels, p, m)[j]).0,
    decreases m,
{
    if m > 0 {
        lemma_blob_list_increasing(img, labels, p, m - 1);
        let prev = blob_list(img, labels, p, m - 1);
        let cur = blob_list(img, labels, p, m);
        assert forall|i: int| 0 <= i < cur.len() implies 1 <= #[trigger] cur[i].0 <= m by {
            if i < prev.len() {
                assert(cur[i] == prev[i]);
            }
        }
        assert forall|i: int, j: int| 0 <= i < j < cur.len() implies (#[trigger] cur[i]).0 < (
        #[trigger] cur[j]).0 by {
            assert(cur[i] == prev[i]);
            if j < prev.len() {
                assert(cur[j] == prev[j]);
            } else {
                assert(prev[i].0 <= m - 1);
            }
        }
    }
}

/// Largest label, 0 for no labels.
fn max_label(labels: &Vec<u32>) -> (r: u32)
    ensures
        forall|j: int| 0 <= j < labels@.len() ==> labels@[j] <= r,
{
    let mut m: u32 = 0;
    let mut i: usize = 0;
    while i < labels.len()
        invariant
            i <= labels@.len(),
            forall|j: int| 0 <= j < i ==> labels@[j] <= m,
        decreases labels.len() - i,
    {
        if labels[i] > m {
            m = labels[i];
        }
        i = i + 1;
    }
    m
}

/// Per-label totals over the whole image, indexed by label `0..=top`.
fn label_statistics(image: &GrayImage, labels: &Vec<u32>, top: u32) -> (r: Vec<LabelStats>)
    requires
        image.wf(),
        labels@.len() == image.pixels@.len(),
        image.pixels@.len() < 0x1_0000_0000,
        forall|j: int| 0 <= j < labels@.len() ==> labels@[j] <= top,
    ensures
        r@.len() == top as int + 1,
        forall|m: int|
            0 <= m <= top ==> #[trigger] stats_match(
                r@[m],
                labels@,
                image.pixels@,
                image.width as int,
                image.height as int,
                m,
                labels@.len() as int,
            ),
{
    let w = image.width;
    let h = image.height;
    let n = labels.len();
    let ghost lab = labels@;
    let ghost pix = image.pixels@;
    let mut acc: Vec<LabelStats> = Vec::new();
    let mut k: u64 = 0;
    while k <= top as u64
        invariant
            k <= top as u64 + 1,
            acc@.len() == k,
            forall|m: int|
                0 <= m < k ==> #[trigger] stats_match(acc@[m], lab, pix, w as int, h as int, m, 0),
        decreases top as u64 + 1 - k,
    {
        acc.push(
            LabelStats {
                count: 0,
                weight: 0,
                weighted_x: 0,
                weighted_y: 0,
                left: w,
                right: 0,
                top: h,
                bottom: 0,
            },
        );
        k = k + 1;
    }
    if n == 0 {
        return acc;
    }
    proof {
        if w == 0 {
            assert(w as int * h as int == 0) by (nonlinear_arith)
                requires
                    w == 0,
            ;
        }
    }
    let mut i: usize = 0;
    while i < n
        invariant
            n == lab.len(),
            n == pix.len(),
            lab == labels@,
            pix == image.pixels@,
            n < 0x1_0000_0000,
            0 < w,
            i <= n,
            acc@.len() == top as int + 1,
            forall|j: int| 0 <= j < n ==> lab[j] <= top,
            forall|m: int|
                0 <= m <= top ==> #[trigger] stats_match(
                    acc@[m],
                    lab,
                    pix,
                    w as int,
                    h as int,
                    m,
                    i as int,
                ),
        decreases n - i,
    {
        let l = labels[i];
        let p = image.pixels[i];
        let x: u32 = (i % (w as usize)) as u32;
        let yy: usize = i / (w as usize);
        proof {
            assert(yy <= i) by (nonlinear_arith)
                requires
                    yy as int == i as int / (w as int),
                    0 < w,
                    0 <= i,
            ;
            lemma_stats_bounds(lab, pix, w as int, h as int, n as int, l as int, i as int + 1);
            assert(stats_match(acc@[l as int], lab, pix, w as int, h as int, l as int, i as int));
            let wt = weight_of(lab, pix, l as int, i as int + 1);
            assert(w as int * wt <= 0x1_0000_0000 * (255 * 0x1_0000_0000)) by (nonlinear_arith)
                requires
                    0 <= w <= 0xffff_ffff,
                    0 <= wt <= 255 * (i + 1),
                    i + 1 <= 0x1_0000_0000,
            ;
            assert(n as int * wt <= 0x1_0000_0000 * (255 * 0x1_0000_0000)) by (nonlinear_arith)
                requires
                    0 <= n <= 0xffff_ffff,
                    0 <= wt <= 255 * (i + 1),
                    i + 1 <= 0x1_0000_0000,
            ;
            assert((x as int) * (p as int) <= 0xffff_ffff * 255) by (nonlinear_arith)
                requires
                    0 <= x <= 0xffff_ffff,
                    0 <= p <= 255,
            ;
            assert((yy as int) * (p as int) <= 0xffff_ffff * 255) by (nonlinear_arith)
                requires
                    0 <= yy <= 0xffff_ffff,
                    0 <= p <= 255,
            ;
        }
        let y: u32 = yy as u32;
        let mut s = acc[l as usize];
        s.count = s.count + 1;
        s.weight = s.weight + p as u64;
        s.weighted_x = s.weighted_x + (x as u128) * (p as u128);
        s.weighted_y = s.weighted_y + (y as u128) * (p as u128);
        if x <= s.left {
            s.left = x;
        }
        if x >= s.right {
            s.right = x;
        }
        if y <= s.top {
            s.top = y;
        }
        if y >= s.bottom {
            s.bottom = y;
        }
        let ghost before = acc@;
        acc.set(l as usize, s);
        proof {
            assert forall|m: int| 0 <= m <= top implies #[trigger] stats_match(
                acc@[m],
                lab,
                pix,
                w as int,
                h as int,
                m,
                i as int + 1,
            ) by {
                assert(stats_match(before[m], lab, pix, w as int, h as int, m, i as int));
            }
        }
        i = i + 1;
    }
    acc
}

/// The circle and the filter outcome of one label from its totals.
fn evaluate_label(image: &GrayImage, s: LabelStats, params: &BlobParams, Ghost(
    labels,
): Ghost<Seq<u32>>, Ghost(l): Ghost<int>) -> (r: Option<Circle>)
    requires
        image.wf(),
        labels.len() == image.pixels@.len(),
        image.pixels@.len() < 0x1_0000_0000,
        stats_match(
            s,
            labels,
            image.pixels@,
            image.width as int,
            image.height as int,
            l,
            labels.len() as int,
        ),
    ensures
        blob_kept(*image, labels, l, *params) ==> r == Some(blob_circle(*image, labels, l)),
        !blob_kept(*image, labels, l, *params) ==> r is None,
{
    let ghost n = labels.len() as int;
    let ghost pix = image.pixels@;
    if s.count == 0 {
        return None;
    }
    proof {
        if image.width == 0 {
            assert(image.width as int * image.height as int == 0) by (nonlinear_arith)
                requires
                    image.width == 0,
            ;
        }
        lemma_stats_bounds(
            labels,
            pix,
            image.width as int,
            image.height as int,
            n,
            l,
            n,
        );
    }
    let bbox = Quad {
        top_left: Point { x: s.left as i64, y: s.top as i64 },
        top_right: Point { x: s.right as i64, y: s.top as i64 },
        bottom_right: Point { x: s.right as i64, y: s.bottom as i64 },
        bottom_left: Point { x: s.left as i64, y: s.bottom as i64 },
    };
    assert(bbox == blob_bbox(*image, labels, l));
    let (bw, bh) = bbox.dimensions();
    let max_side: u64 = if image.width >= image.height {
        image.width as u64
    } else {
        image.height as u64
    };
    let aspect_ok = bbox.aspect_ratio_within(
        params.aspect_min_permille as u64,
        params.aspect_max_permille as u64,
    );
    proof {
        lemma_u64_products_fit(params.size_min_permille as u64, max_side);
        lemma_u64_products_fit(params.size_max_permille as u64, max_side);
        lemma_u64_products_fit(1000, bw);
        lemma_u64_products_fit(1000, bh);
    }
    let lo = params.size_min_permille as u128;
    let hi = params.size_max_permille as u128;
    let m = max_side as u128;
    let size_ok = lo * m <= 1000 * (bw as u128) && 1000 * (bw as u128) <= hi * m && lo * m <= 1000
        * (bh as u128) && 1000 * (bh as u128) <= hi * m;
    if !(aspect_ok && size_ok) {
        return None;
    }
    let center = if s.weight == 0 {
        Point { x: s.left as i64, y: s.top as i64 }
    } else {
        proof {
            let w = image.width as int;
            let sx = s.weighted_x as int;
            let sy = s.weighted_y as int;
            let sw = s.weight as int;
            assert(sx / sw <= w) by (nonlinear_arith)
                requires
                    0 <= sx <= w * sw,
                    0 < sw,
            ;
            assert(0 <= sx / sw) by (nonlinear_arith)
                requires
                    0 <= sx,
                    0 < sw,
            ;
            assert(sy / sw <= n) by (nonlinear_arith)
                requires
                    0 <= sy <= n * sw,
                    0 < sw,
            ;
            assert(0 <= sy / sw) by (nonlinear_arith)
                requires
                    0 <= sy,
                    0 < sw,
            ;
        }
        Point {
            x: (s.weighted_x / (s.weight as u128)) as i64,
            y: (s.weighted_y / (s.weight as u128)) as i64,
        }
    };
    assert(center == blob_center(*image, labels, l));
    let d0 = squared_distance(bbox.top_left, center);
    let d1 = squared_distance(bbox.top_right, center);
    let d2 = squared_distance(bbox.bottom_right, center);
    let d3 = squared_distance(bbox.bottom_left, center);
    let mut d = d0;
    if d1 < d {
        d = d1;
    }
    if d2 < d {
        d = d2;
    }
    if d3 < d {
        d = d3;
    }
    let radius = isqrt(d);
    proof {
        if radius > 0x7fff_ffff_ffff_ffff {
            assert(radius * radius > d) by (nonlinear_arith)
                requires
                    radius > 0x7fff_ffff_ffff_ffffu128,
                    d <= 0x2000_0000_0000_0000_0000_0000_0000_0000u128,
            ;
        }
    }
    Some(Circle { center, radius: radius as i64 })
}

/// The circles of the kept blobs of a label raster, in ascending label order. A blob is the
/// set of pixels sharing a non-zero label; its circle is centred on the intensity-weighted
/// centroid and reaches the nearest corner of its bounding box.
pub fn blobs_from_labels(image: &GrayImage, labels: &Vec<u32>, params: &BlobParams) -> (r: Vec<
    (u32, Circle),
>)
    requires
        image.wf(),
        labels@.len() == image.pixels@.len(),
        image.pixels@.len() < 0x1_0000_0000,
    ensures
        r@ == blob_list(*image, labels@, *params, u32::MAX as int),
        forall|i: int, j: int| 0 <= i < j < r@.len() ==> (#[trigger] r@[i]).0 < (#[trigger] r@[j]).0,
{
    let top = max_label(labels);
    let stats = label_statistics(image, labels, top);
    let mut out: Vec<(u32, Circle)> = Vec::new();
    let mut m: u64 = 1;
    while m <= top as u64
        invariant
            image.wf(),
            labels@.len() == image.pixels@.len(),
            image.pixels@.len() < 0x1_0000_0000,
            1 <= m <= top as u64 + 1,
            stats@.len() == top as int + 1,
            forall|k: int|
                0 <= k <= top ==> #[trigger] stats_match(
                    stats@[k],
                    labels@,
                    image.pixels@,
                    image.width as int,
                    image.height as int,
                    k,
                    labels@.len() as int,
                ),
            out@ == blob_list(*image, labels@, *params, m as int - 1),
        decreases top as u64 + 1 - m,
    {
        let found = evaluate_label(
            image,
            stats[m as usize],
            params,
            Ghost(labels@),
            Ghost(m as int),
        );
        match found {
            Some(c) => {
                out.push((m as u32, c));
            },
            None => {},
        }
        proof {
            assert(stats_match(
                stats@[m as int],
                labels@,
                image.pixels@,
                image.width as int,
                image.height as int,
                m as int,
                labels@.len() as int,
            ));
            if blob_kept(*image, labels@, m as int, *params) {
                assert(out@ =~= blob_list(*image, labels@, *params, m as int));
            } else {
                assert(out@ =~= blob_list(*image, labels@, *params, m as int));
            }
        }
        m = m + 1;
    }
    proof {
        lemma_blob_list_stable(*image, labels@, *params, top as int, u32::MAX as int);
        lemma_blob_list_increasing(*image, labels@, *params, u32::MAX as int);
    }
    out
}

/// Detects spots: labels the regions of the image and keeps those whose bounding box is
/// near square and of plausible size, as circles in ascending label order.
pub fn detect_blobs(image: &GrayImage, params: &BlobParams) -> (r: Vec<(u32, Circle)>)
    requires
        image.wf(),
        image.pixels@.len() < 0x1_0000_0000,
        image.width as int + image.height as int <= u32::MAX,
    ensures
        exists|m: u8|
            #[trigger] is_min_level(image.pixels@, m) && r@ == blob_list(
                *image,
                region_labels(*image, *params, m),
                *params,
                u32::MAX as int,
            ),
        forall|i: int, j: int| 0 <= i < j < r@.len() ==> (#[trigger] r@[i]).0 < (#[trigger] r@[j]).0,
{
    let labels = get_labeled_regions(image, params);
    let r = blobs_from_labels(image, &labels, params);
    proof {
        let m = choose|m: u8|
            #[trigger] is_min_level(image.pixels@, m) && labels@ == region_labels(
                *image,
                *params,
                m,
            );
        assert(is_min_level(image.pixels@, m));
    }
    r
}

} // verus!
