use vstd::prelude::*;
use crate::geometry::{dist2, squared_distance, Point, Quad};
use crate::plate::corner_pairs;

verus! {

/// Sub-pixel units per pixel of the points handled in corner detection.
pub const SUBPIXEL: i64 = 256;

/// Largest sub-pixel coordinate of a detected intersection.
pub const SUBPIXEL_LIMIT: i64 = 0x100_0000_0000;

/// Corner `k` of a `w` by `h` image in sub-pixel units: 0 top-left, 1 top-right,
/// 2 bottom-right, 3 bottom-left.
pub open spec fn canonical_corner(k: int, w: int, h: int) -> Point {
    let x = if k == 1 || k == 2 { w * SUBPIXEL } else { 0 };
    let y = if k == 2 || k == 3 { h * SUBPIXEL } else { 0 };
    Point { x: x as i64, y: y as i64 }
}

/// An intersection inside the sub-pixel range handled.
pub open spec fn in_range(p: Point) -> bool {
    0 <= p.x <= SUBPIXEL_LIMIT && 0 <= p.y <= SUBPIXEL_LIMIT
}

/// A sub-pixel point inside (or on the border of) a `w` by `h` image.
pub open spec fn in_image(p: Point, w: int, h: int) -> bool {
    0 <= p.x <= w * SUBPIXEL && 0 <= p.y <= h * SUBPIXEL
}

/// A whole-pixel point inside (or on the border of) the `w` by `h` image scaled by `factor`.
pub open spec fn in_scaled_image(p: Point, w: int, h: int, factor: int) -> bool {
    0 <= p.x <= w * factor && 0 <= p.y <= h * factor
}

proof fn lemma_in_image_in_range(p: Point, width: u32, height: u32)
    requires
        in_image(p, width as int, height as int),
    ensures
        in_range(p),
{
}

/// Index of the image corner nearest to `p`; the first of equally near ones.
pub open spec fn nearest_corner_of(p: Point, w: int, h: int) -> int {
    let d0 = dist2(canonical_corner(0, w, h), p);
    let d1 = dist2(canonical_corner(1, w, h), p);
    let d2 = dist2(canonical_corner(2, w, h), p);
    let d3 = dist2(canonical_corner(3, w, h), p);
    if d0 <= d1 && d0 <= d2 && d0 <= d3 {
        0
    } else if d1 <= d2 && d1 <= d3 {
        1
    } else if d2 <= d3 {
        2
    } else {
        3
    }
}

/// The corner an intersection belongs to is at least as near as every other corner, and
/// strictly nearer than every corner listed before it: ties go to the earlier corner.
pub proof fn lemma_nearest_corner_is_first_nearest(p: Point, w: int, h: int)
    ensures
        0 <= nearest_corner_of(p, w, h) < 4,
        forall|j: int|
            0 <= j < 4 ==> dist2(canonical_corner(nearest_corner_of(p, w, h), w, h), p) <= dist2(
                #[trigger] canonical_corner(j, w, h),
                p,
            ),
        forall|j: int|
            0 <= j < nearest_corner_of(p, w, h) ==> dist2(
                canonical_corner(nearest_corner_of(p, w, h), w, h),
                p,
            ) < dist2(#[trigger] canonical_corner(j, w, h), p),
{
}

fn corner_point(k: u8, width: u32, height: u32) -> (r: Point)
    requires
        k < 4,
    ensures
        r == canonical_corner(k as int, width as int, height as int),
        r.fits(),
{
    let x: i64 = if k == 1 || k == 2 { width as i64 * SUBPIXEL } else { 0 };
    let y: i64 = if k == 2 || k == 3 { height as i64 * SUBPIXEL } else { 0 };
    Point { x, y }
}

/// The image corner that an intersection belongs to: the nearest one, the first of equally
/// near ones.
pub fn nearest_corner(p: Point, width: u32, height: u32) -> (r: u8)
    requires
        in_range(p),
    ensures
        r as int == nearest_corner_of(p, width as int, height as int),
{
    let d0 = squared_distance(corner_point(0, width, height), p);
    let d1 = squared_distance(corner_point(1, width, height), p);
    let d2 = squared_distance(corner_point(2, width, height), p);
    let d3 = squared_distance(corner_point(3, width, height), p);
    if d0 <= d1 && d0 <= d2 && d0 <= d3 {
        0
    } else if d1 <= d2 && d1 <= d3 {
        1
    } else if d2 <= d3 {
        2
    } else {
        3
    }
}

/// Number of the first `n` points that belong to corner `k`.
pub open spec fn corner_count(pts: Seq<Point>, w: int, h: int, k: int, n: int) -> int
    decreases n,
{
    if n <= 0 {
        0
    } else {
        corner_count(pts, w, h, k, n - 1) + if nearest_corner_of(pts[n - 1], w, h) == k {
            1int
        } else {
            0int
        }
    }
}

/// Summed `x` (or, with `use_y`, `y`) of the first `n` points that belong to corner `k`.
pub open spec fn corner_sum(pts: Seq<Point>, w: int, h: int, k: int, n: int, use_y: bool) -> int
    decreases n,
{
    if n <= 0 {
        0
    } else {
        corner_sum(pts, w, h, k, n - 1, use_y) + if nearest_corner_of(pts[n - 1], w, h) == k {
            if use_y {
                pts[n - 1].y as int
            } else {
                pts[n - 1].x as int
            }
        } else {
            0int
        }
    }
}

/// Mean position, floored, of the points that belong to corner `k`; `None` without any.
pub open spec fn corner_mean(pts: Seq<Point>, w: int, h: int, k: int) -> Option<Point> {
    let n = pts.len() as int;
    let c = corner_count(pts, w, h, k, n);
    if c == 0 {
        None
    } else {
        Some(
            Point {
                x: (corner_sum(pts, w, h, k, n, false) / c) as i64,
                y: (corner_sum(pts, w, h, k, n, true) / c) as i64,
            },
        )
    }
}

proof fn lemma_corner_sums_bounded(pts: Seq<Point>, w: int, h: int, k: int, n: int)
    requires
        0 <= n <= pts.len(),
        0 <= w <= u32::MAX,
        0 <= h <= u32::MAX,
        forall|i: int| 0 <= i < pts.len() ==> in_image(#[trigger] pts[i], w, h),
    ensures
        0 <= corner_count(pts, w, h, k, n) <= n,
        0 <= corner_sum(pts, w, h, k, n, false) <= corner_count(pts, w, h, k, n) * (w * SUBPIXEL),
        0 <= corner_sum(pts, w, h, k, n, true) <= corner_count(pts, w, h, k, n) * (h * SUBPIXEL),
        corner_count(pts, w, h, k, n) * (w * SUBPIXEL) <= corner_count(pts, w, h, k, n)
            * SUBPIXEL_LIMIT,
        corner_count(pts, w, h, k, n) * (h * SUBPIXEL) <= corner_count(pts, w, h, k, n)
            * SUBPIXEL_LIMIT,
    decreases n,
{
    if n > 0 {
        lemma_corner_sums_bounded(pts, w, h, k, n - 1);
        assert(in_image(pts[n - 1], w, h));
        let c = corner_count(pts, w, h, k, n - 1);
        assert((c + 1) * (w * SUBPIXEL) == c * (w * SUBPIXEL) + w * SUBPIXEL) by (nonlinear_arith);
        assert((c + 1) * (h * SUBPIXEL) == c * (h * SUBPIXEL) + h * SUBPIXEL) by (nonlinear_arith);
    }
    let c = corner_count(pts, w, h, k, n);
    assert(c * (w * SUBPIXEL) <= c * SUBPIXEL_LIMIT && c * (h * SUBPIXEL) <= c * SUBPIXEL_LIMIT)
        by (nonlinear_arith)
        requires
            0 <= c,
            0 <= w * SUBPIXEL <= SUBPIXEL_LIMIT,
            0 <= h * SUBPIXEL <= SUBPIXEL_LIMIT,
    ;
}

/// The mean position of the intersections that belong to each image corner, in the order
/// top-left, top-right, bottom-right, bottom-left.
pub fn average_corners(points: &Vec<Point>, width: u32, height: u32) -> (r: Vec<Option<Point>>)
    requires
        points@.len() < 0x1_0000_0000,
        forall|i: int|
            0 <= i < points@.len() ==> in_image(#[trigger] points@[i], width as int, height as int),
    ensures
        r@.len() == 4,
        forall|k: int|
            0 <= k < 4 ==> (#[trigger] r@[k] matches Some(p) ==> in_image(
                p,
                width as int,
                height as int,
            )),
        forall|k: int|
            0 <= k < 4 ==> #[trigger] r@[k] == corner_mean(
                points@,
                width as int,
                height as int,
                k,
            ),
{
    let ghost pts = points@;
    let ghost w = width as int;
    let ghost h = height as int;
    let mut count: Vec<u64> = vec![0, 0, 0, 0];
    let mut sum_x: Vec<u128> = vec![0, 0, 0, 0];
    let mut sum_y: Vec<u128> = vec![0, 0, 0, 0];
    let mut i: usize = 0;
    while i < points.len()
        invariant
            pts == points@,
            w == width as int,
            h == height as int,
            pts.len() < 0x1_0000_0000,
            forall|j: int| 0 <= j < pts.len() ==> in_image(#[trigger] pts[j], w, h),
            i <= pts.len(),
            count@.len() == 4 && sum_x@.len() == 4 && sum_y@.len() == 4,
            forall|k: int|
                0 <= k < 4 ==> {
                    &&& #[trigger] count@[k] == corner_count(pts, w, h, k, i as int)
                    &&& sum_x@[k] == corner_sum(pts, w, h, k, i as int, false)
                    &&& sum_y@[k] == corner_sum(pts, w, h, k, i as int, true)
                },
        decreases points.len() - i,
    {
        let p = points[i];
        proof {
            assert(in_image(pts[i as int], w, h));
            lemma_in_image_in_range(p, width, height);
        }
        let k = nearest_corner(p, width, height) as usize;
        proof {
            lemma_corner_sums_bounded(pts, w, h, k as int, i as int + 1);
            let c = corner_count(pts, w, h, k as int, i as int + 1);
            assert(c * SUBPIXEL_LIMIT <= 0x1_0000_0000 * 0x100_0000_0000) by (nonlinear_arith)
                requires
                    0 <= c <= i + 1,
                    i + 1 <= 0x1_0000_0000,
            ;
        }
        let ghost c0 = count@;
        let ghost x0 = sum_x@;
        let ghost y0 = sum_y@;
        count.set(k, count[k] + 1);
        sum_x.set(k, sum_x[k] + p.x as u128);
        sum_y.set(k, sum_y[k] + p.y as u128);
        proof {
            assert forall|m: int| 0 <= m < 4 implies {
                &&& #[trigger] count@[m] == corner_count(pts, w, h, m, i as int + 1)
                &&& sum_x@[m] == corner_sum(pts, w, h, m, i as int + 1, false)
                &&& sum_y@[m] == corner_sum(pts, w, h, m, i as int + 1, true)
            } by {
                assert(c0[m] == corner_count(pts, w, h, m, i as int));
                assert(x0[m] == corner_sum(pts, w, h, m, i as int, false));
                assert(y0[m] == corner_sum(pts, w, h, m, i as int, true));
                assert(pts[i as int] == p);
            }
        }
        i = i + 1;
    }
    let mut out: Vec<Option<Point>> = Vec::new();
    let mut k: usize = 0;
    while k < 4
        invariant
            k <= 4,
            out@.len() == k,
            pts == points@,
            w == width as int,
            h == height as int,
            forall|j: int| 0 <= j < pts.len() ==> in_image(#[trigger] pts[j], w, h),
            count@.len() == 4 && sum_x@.len() == 4 && sum_y@.len() == 4,
            forall|m: int| 0 <= m < k ==> (#[trigger] out@[m] matches Some(p) ==> in_image(p, w, h)),
            forall|m: int|
                0 <= m < 4 ==> {
                    &&& #[trigger] count@[m] == corner_count(pts, w, h, m, pts.len() as int)
                    &&& sum_x@[m] == corner_sum(pts, w, h, m, pts.len() as int, false)
                    &&& sum_y@[m] == corner_sum(pts, w, h, m, pts.len() as int, true)
                },
            forall|m: int| 0 <= m < k ==> #[trigger] out@[m] == corner_mean(pts, w, h, m),
        decreases 4 - k,
    {
        if count[k] == 0 {
            out.push(None);
        } else {
            proof {
                assert(count@[k as int] == corner_count(pts, w, h, k as int, pts.len() as int));
                lemma_corner_sums_bounded(pts, w, h, k as int, pts.len() as int);
                let c = count@[k as int] as int;
                let sx = sum_x@[k as int] as int;
                let sy = sum_y@[k as int] as int;
                let bw = w * SUBPIXEL;
                let bh = h * SUBPIXEL;
                assert(sx / c <= bw && sy / c <= bh) by (nonlinear_arith)
                    requires
                        0 <= sx <= c * bw,
                        0 <= sy <= c * bh,
                        0 < c,
                ;
                assert(0 <= sx / c && 0 <= sy / c) by (nonlinear_arith)
                    requires
                        0 <= sx,
                        0 <= sy,
                        0 < c,
                ;
            }
            let c = count[k] as u128;
            out.push(Some(Point { x: (sum_x[k] / c) as i64, y: (sum_y[k] / c) as i64 }));
        }
        proof {
            assert forall|m: int| 0 <= m < 4 implies {
                &&& #[trigger] count@[m] == corner_count(pts, w, h, m, pts.len() as int)
                &&& sum_x@[m] == corner_sum(pts, w, h, m, pts.len() as int, false)
                &&& sum_y@[m] == corner_sum(pts, w, h, m, pts.len() as int, true)
            } by {
                assert(count@[m] == corner_count(pts, w, h, m, pts.len() as int));
            }
        }
        k = k + 1;
    }
    out
}

/// The other corner on the same plate edge as corner `k`, along the dominant image axis.
pub open spec fn partner_of(k: int, width: u32, height: u32) -> int {
    if width > height {
        if k == 0 { 1 } else if k == 1 { 0 } else if k == 2 { 3 } else { 2 }
    } else {
        if k == 0 { 3 } else if k == 3 { 0 } else if k == 1 { 2 } else { 1 }
    }
}

/// Corner `k` as resolved: its own mean position, or, when it has none but its partner on
/// the same edge has one, the fallback point found along the partner's line.
pub open spec fn resolved_corner(
    averaged: Seq<Option<Point>>,
    fallback: Seq<Option<Point>>,
    k: int,
    width: u32,
    height: u32,
) -> Option<Point> {
    if averaged[k] is Some {
        averaged[k]
    } else if averaged[partner_of(k, width, height)] is Some {
        fallback[k]
    } else {
        None
    }
}

/// A sub-pixel point in whole pixels of the full-size image.
pub open spec fn upscaled(p: Point, factor: int) -> Point {
    Point {
        x: (p.x as int * factor / SUBPIXEL as int) as i64,
        y: (p.y as int * factor / SUBPIXEL as int) as i64,
    }
}

/// An optional corner in whole pixels of the full-size image.
pub open spec fn upscaled_corner(o: Option<Point>, factor: int) -> Option<Point> {
    match o {
        Some(p) => Some(upscaled(p, factor)),
        None => None,
    }
}

fn upscale(p: Point, factor: u32, width: u32, height: u32) -> (r: Point)
    requires
        in_image(p, width as int, height as int),
        factor <= 0x8000_0000,
    ensures
        r == upscaled(p, factor as int),
        in_scaled_image(r, width as int, height as int, factor as int),
{
    proof {
        lemma_in_image_in_range(p, width, height);
        let f = factor as int;
        let (px, py) = (p.x as int, p.y as int);
        let (bw, bh) = (width as int, height as int);
        assert(px * f / 256 <= bw * f && py * f / 256 <= bh * f && 0 <= px * f / 256 && 0
            <= py * f / 256) by (nonlinear_arith)
            requires
                0 <= px <= bw * 256,
                0 <= py <= bh * 256,
                0 <= f,
                0 <= bw,
                0 <= bh,
        ;
        assert(bw * f <= 0xffff_ffff * 0x8000_0000 && bh * f <= 0xffff_ffff * 0x8000_0000)
            by (nonlinear_arith)
            requires
                0 <= f <= 0x8000_0000,
                0 <= bw <= 0xffff_ffff,
                0 <= bh <= 0xffff_ffff,
        ;
        assert(p.x * factor <= 0x100_0000_0000 * 0x8000_0000) by (nonlinear_arith)
            requires
                0 <= p.x <= 0x100_0000_0000,
                0 <= factor <= 0x8000_0000,
        ;
        assert(p.y * factor <= 0x100_0000_0000 * 0x8000_0000) by (nonlinear_arith)
            requires
                0 <= p.y <= 0x100_0000_0000,
                0 <= factor <= 0x8000_0000,
        ;
        assert(0 <= p.x * factor && 0 <= p.y * factor) by (nonlinear_arith)
            requires
                0 <= p.x,
                0 <= p.y,
                0 <= factor,
        ;
    }
    let x = (p.x as i128 * factor as i128) / (SUBPIXEL as i128);
    let y = (p.y as i128 * factor as i128) / (SUBPIXEL as i128);
    Point { x: x as i64, y: y as i64 }
}

/// The plate quad from the per-corner positions, upscaled by `factor` to the full image;
/// `None` unless all four corners resolve.
pub fn assemble_corners(
    averaged: &Vec<Option<Point>>,
    fallback: &Vec<Option<Point>>,
    width: u32,
    height: u32,
    factor: u32,
) -> (r: Option<Quad>)
    requires
        averaged@.len() == 4,
        fallback@.len() == 4,
        forall|k: int|
            0 <= k < 4 ==> (#[trigger] averaged@[k] matches Some(p) ==> in_image(
                p,
                width as int,
                height as int,
            )),
        forall|k: int|
            0 <= k < 4 ==> (#[trigger] fallback@[k] matches Some(p) ==> in_image(
                p,
                width as int,
                height as int,
            )),
        factor <= 0x8000_0000,
    ensures
        r is Some <==> forall|k: int|
            0 <= k < 4 ==> #[trigger] resolved_corner(averaged@, fallback@, k, width, height) is Some,
        r matches Some(q) ==> {
            &&& in_scaled_image(q.top_left, width as int, height as int, factor as int)
            &&& in_scaled_image(q.top_right, width as int, height as int, factor as int)
            &&& in_scaled_image(q.bottom_right, width as int, height as int, factor as int)
            &&& in_scaled_image(q.bottom_left, width as int, height as int, factor as int)
            &&& Some(q.top_left) == upscaled_corner(
                resolved_corner(averaged@, fallback@, 0, width, height),
                factor as int,
            )
            &&& Some(q.top_right) == upscaled_corner(
                resolved_corner(averaged@, fallback@, 1, width, height),
                factor as int,
            )
            &&& Some(q.bottom_right) == upscaled_corner(
                resolved_corner(averaged@, fallback@, 2, width, height),
                factor as int,
            )
            &&& Some(q.bottom_left) == upscaled_corner(
                resolved_corner(averaged@, fallback@, 3, width, height),
                factor as int,
            )
        },
{
    let pairs = corner_pairs(width, height);
    let mut resolved: Vec<Option<Point>> = vec![None, None, None, None];
    let mut k: usize = 0;
    while k < 4
        invariant
            k <= 4,
            resolved@.len() == 4,
            averaged@.len() == 4,
            fallback@.len() == 4,
            forall|m: int| 0 <= m < k ==> #[trigger] resolved@[m] == resolved_corner(
                averaged@,
                fallback@,
                m,
                width,
                height,
            ),
        decreases 4 - k,
    {
        let partner: usize = if width > height {
            if k == 0 { 1 } else if k == 1 { 0 } else if k == 2 { 3 } else { 2 }
        } else {
            if k == 0 { 3 } else if k == 3 { 0 } else if k == 1 { 2 } else { 1 }
        };
        let v = if averaged[k].is_some() {
            averaged[k]
        } else if averaged[partner].is_some() {
            fallback[k]
        } else {
            None
        };
        resolved.set(k, v);
        k = k + 1;
    }
    match (resolved[0], resolved[1], resolved[2], resolved[3]) {
        (Some(a), Some(b), Some(c), Some(d)) => {
            proof {
                let (w, h) = (width as int, height as int);
                assert(averaged@[0] matches Some(p) ==> in_image(p, w, h));
                assert(averaged@[1] matches Some(p) ==> in_image(p, w, h));
                assert(averaged@[2] matches Some(p) ==> in_image(p, w, h));
                assert(averaged@[3] matches Some(p) ==> in_image(p, w, h));
                assert(fallback@[0] matches Some(p) ==> in_image(p, w, h));
                assert(fallback@[1] matches Some(p) ==> in_image(p, w, h));
                assert(fallback@[2] matches Some(p) ==> in_image(p, w, h));
                assert(fallback@[3] matches Some(p) ==> in_image(p, w, h));
            }
            Some(
                Quad {
                    top_left: upscale(a, factor, width, height),
                    top_right: upscale(b, factor, width, height),
                    bottom_right: upscale(c, factor, width, height),
                    bottom_left: upscale(d, factor, width, height),
                },
            )
        },
        _ => {
            proof {
                assert(resolved@[0] is None || resolved@[1] is None || resolved@[2] is None
                    || resolved@[3] is None);
            }
            None
        },
    }
}

} // verus!
