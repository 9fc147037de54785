use vstd::prelude::*;
use crate::geometry::{floor_distance, floor_sqrt, dist2, rectangle, Point, Quad};

verus! {

/// Side length, in pixels, that plate detection shrinks an image to.
pub const DETECTION_SIZE: u32 = 256;

/// Largest deviation, in degrees, of a line counted as horizontal or vertical.
pub const ANGLE_TOLERANCE: u32 = 2;

/// `2^k`.
pub open spec fn pow2(k: nat) -> nat
    decreases k,
{
    if k == 0 {
        1
    } else {
        2 * pow2((k - 1) as nat)
    }
}

/// Both sides, divided by `2^k`, are at most `target`.
pub open spec fn small_enough(width: nat, height: nat, k: nat, target: nat) -> bool {
    width / pow2(k) <= target && height / pow2(k) <= target
}

/// The number of halvings used for plate detection: the least `k >= 1` for which both sides
/// divided by `2^k` are at most `target`.
pub fn downscale_exponent(width: u32, height: u32, target: u32) -> (r: u32)
    ensures
        1 <= r <= 33,
        small_enough(width as nat, height as nat, r as nat, target as nat),
        forall|j: nat| 1 <= j < r ==> !small_enough(width as nat, height as nat, j, target as nat),
{
    let mut k: u32 = 1;
    let mut d: u64 = 2;
    proof {
        assert(pow2(1) == 2) by {
            reveal_with_fuel(pow2, 2);
        }
    }
    while !((width as u64) / d <= target as u64 && (height as u64) / d <= target as u64)
        invariant
            1 <= k <= 32,
            d == pow2(k as nat),
            2 <= d <= 0x1_0000_0000,
            forall|j: nat|
                1 <= j < k ==> !small_enough(width as nat, height as nat, j, target as nat),
        decreases 33 - k,
    {
        if k >= 32 {
            proof {
                lemma_pow2_at_least(k as nat);
                let dd = d as int;
                let w = width as int;
                let h = height as int;
                assert(w / dd == 0 && h / dd == 0) by (nonlinear_arith)
                    requires
                        0 <= w < dd,
                        0 <= h < dd,
                ;
            }
        }
        proof {
            lemma_pow2_at_most(k as nat);
        }
        k = k + 1;
        d = d * 2;
    }
    k
}

proof fn lemma_pow2_at_most(k: nat)
    requires
        k <= 31,
    ensures
        pow2(k) <= 0x8000_0000,
    decreases 31 - k,
{
    if k == 31 {
        reveal_with_fuel(pow2, 32);
    } else {
        lemma_pow2_at_most(k + 1);
    }
}

proof fn lemma_pow2_at_least(k: nat)
    requires
        k >= 32,
    ensures
        pow2(k) >= 0x1_0000_0000,
    decreases k,
{
    if k == 32 {
        reveal_with_fuel(pow2, 33);
    } else {
        lemma_pow2_at_least((k - 1) as nat);
    }
}

/// The quad inset by a tenth of each side from the image border.
pub open spec fn inset_quad(width: u32, height: u32) -> Quad {
    let left = width / 10;
    let top = height / 10;
    rectangle(left as i64, top as i64, (width - left) as i64, (height - top) as i64)
}

/// The detected corners, or, when detection failed, the quad inset by a tenth of each side.
pub fn corners_or_default(detected: Option<Quad>, width: u32, height: u32) -> (r: Quad)
    ensures
        detected matches Some(q) ==> r == q,
        detected is None ==> r == inset_quad(width, height),
{
    match detected {
        Some(q) => q,
        None => {
            let left: u32 = width / 10;
            let top: u32 = height / 10;
            let right: u32 = width - left;
            let bottom: u32 = height - top;
            Quad {
                top_left: Point { x: left as i64, y: top as i64 },
                top_right: Point { x: right as i64, y: top as i64 },
                bottom_right: Point { x: right as i64, y: bottom as i64 },
                bottom_left: Point { x: left as i64, y: bottom as i64 },
            }
        },
    }
}

/// Orientation class of a detected line.
#[derive(Clone, Copy, Debug, PartialEq, Eq, Structural)]
pub enum LineOrientation {
    Horizontal,
    Vertical,
    Oblique,
}

/// Class of a line whose normal has angle `angle` degrees: horizontal within `tolerance` of
/// 90, vertical within `tolerance` of 0 or 180.
pub open spec fn orientation_of(angle: int, tolerance: int) -> LineOrientation {
    if 90 - tolerance <= angle <= 90 + tolerance {
        LineOrientation::Horizontal
    } else if angle >= 180 - tolerance || angle <= tolerance {
        LineOrientation::Vertical
    } else {
        LineOrientation::Oblique
    }
}

pub fn classify_angle(angle_in_degrees: u32, tolerance: u32) -> (r: LineOrientation)
    ensures
        r == orientation_of(angle_in_degrees as int, tolerance as int),
{
    let a = angle_in_degrees as i64;
    let t = tolerance as i64;
    if 90 - t <= a && a <= 90 + t {
        LineOrientation::Horizontal
    } else if a >= 180 - t || a <= t {
        LineOrientation::Vertical
    } else {
        LineOrientation::Oblique
    }
}

/// Indices (0 top-left, 1 top-right, 2 bottom-right, 3 bottom-left) of the corner pairs that
/// share a plate edge along the dominant image axis.
pub fn corner_pairs(width: u32, height: u32) -> (r: [(u8, u8); 2])
    ensures
        width > height ==> r@ == seq![(0u8, 1u8), (2u8, 3u8)],
        width <= height ==> r@ == seq![(0u8, 3u8), (1u8, 2u8)],
{
    let r: [(u8, u8); 2] = if width > height {
        [(0, 1), (2, 3)]
    } else {
        [(0, 3), (1, 2)]
    };
    proof {
        if width > height {
            assert(r@ =~= seq![(0u8, 1u8), (2u8, 3u8)]);
        } else {
            assert(r@ =~= seq![(0u8, 3u8), (1u8, 2u8)]);
        }
    }
    r
}

/// Width of the rectified plate: the longer of the top and bottom edges, floored.
pub open spec fn destination_width(q: Quad) -> int {
    let a = floor_sqrt(dist2(q.bottom_right, q.bottom_left));
    let b = floor_sqrt(dist2(q.top_right, q.top_left));
    if a >= b {
        a
    } else {
        b
    }
}

/// Height of the rectified plate: the longer of the right and left edges, floored.
pub open spec fn destination_height(q: Quad) -> int {
    let a = floor_sqrt(dist2(q.top_right, q.bottom_right));
    let b = floor_sqrt(dist2(q.top_left, q.bottom_left));
    if a >= b {
        a
    } else {
        b
    }
}

/// The rectangle that a plate quad is rectified onto: its corners `(0, 0)`, `(w - 1, 0)`,
/// `(w - 1, h - 1)`, `(0, h - 1)`, and the width `w` and height `h`.
pub fn propose_destination(quad: &Quad) -> (r: ([(i64, i64); 4], i64, i64))
    requires
        quad.fits(),
    ensures
        r.1 == destination_width(*quad),
        r.2 == destination_height(*quad),
        r.0@ == seq![
            (0i64, 0i64),
            ((r.1 - 1) as i64, 0i64),
            ((r.1 - 1) as i64, (r.2 - 1) as i64),
            (0i64, (r.2 - 1) as i64),
        ],
{
    let width_a = floor_distance(quad.bottom_right, quad.bottom_left);
    let width_b = floor_distance(quad.top_right, quad.top_left);
    let max_width = if width_a >= width_b {
        width_a
    } else {
        width_b
    };
    let height_a = floor_distance(quad.top_right, quad.bottom_right);
    let height_b = floor_distance(quad.top_left, quad.bottom_left);
    let max_height = if height_a >= height_b {
        height_a
    } else {
        height_b
    };
    let corners: [(i64, i64); 4] = [
        (0, 0),
        (max_width - 1, 0),
        (max_width - 1, max_height - 1),
        (0, max_height - 1),
    ];
    proof {
        assert(corners@ =~= seq![
            (0i64, 0i64),
            ((max_width - 1) as i64, 0i64),
            ((max_width - 1) as i64, (max_height - 1) as i64),
            (0i64, (max_height - 1) as i64),
        ]);
    }
    (corners, max_width, max_height)
}

} // verus!
