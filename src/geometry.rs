use vstd::prelude::*;

verus! {

/// Largest coordinate magnitude handled: distances between such points, and their squares,
/// stay within 64 and 128 bits.
pub const COORD_LIMIT: i64 = 0x2000_0000_0000_0000;

/// A point in pixel coordinates.
#[derive(Clone, Copy, Debug, PartialEq, Eq, Structural)]
pub struct Point {
    pub x: i64,
    pub y: i64,
}

impl Point {
    pub open spec fn fits(self) -> bool {
        -COORD_LIMIT <= self.x <= COORD_LIMIT && -COORD_LIMIT <= self.y <= COORD_LIMIT
    }
}

/// Squared Euclidean distance between two points.
pub open spec fn dist2(a: Point, b: Point) -> int {
    (a.x - b.x) * (a.x - b.x) + (a.y - b.y) * (a.y - b.y)
}

/// `r` is the integer square root (floor) of `n`.
pub open spec fn is_isqrt(n: int, r: int) -> bool {
    0 <= r && r * r <= n < (r + 1) * (r + 1)
}

/// The floor of the square root of `n`.
pub open spec fn floor_sqrt(n: int) -> int {
    choose|r: int| is_isqrt(n, r)
}

pub proof fn lemma_isqrt_unique(n: int, a: int, b: int)
    requires
        is_isqrt(n, a),
        is_isqrt(n, b),
    ensures
        a == b,
{
    if a < b {
        assert((a + 1) * (a + 1) <= b * b) by (nonlinear_arith)
            requires
                0 <= a < b,
        ;
    } else if b < a {
        assert((b + 1) * (b + 1) <= a * a) by (nonlinear_arith)
            requires
                0 <= b < a,
        ;
    }
}

/// Floor of the square root of `n`.
pub fn isqrt(n: u128) -> (r: u128)
    ensures
        is_isqrt(n as int, r as int),
        r == floor_sqrt(n as int),
{
    let mut lo: u128 = 0;
    let mut hi: u128 = 0x1_0000_0000_0000_0000;
    proof {
        assert(hi * hi > u128::MAX) by (nonlinear_arith)
            requires
                hi == 0x1_0000_0000_0000_0000u128,
        ;
    }
    while hi - lo > 1
        invariant
            lo < hi <= 0x1_0000_0000_0000_0000,
            lo * lo <= n,
            n < hi * hi,
        decreases hi - lo,
    {
        let mid: u128 = lo + (hi - lo) / 2;
        proof {
            assert(mid * mid < 0x1_0000_0000_0000_0000 * 0x1_0000_0000_0000_0000) by (
            nonlinear_arith)
                requires
                    mid < 0x1_0000_0000_0000_0000,
            ;
            assert(mid * mid <= u128::MAX) by (nonlinear_arith)
                requires
                    mid <= 0xffff_ffff_ffff_ffffu128,
            ;
        }
        if mid * mid <= n {
            lo = mid;
        } else {
            hi = mid;
        }
    }
    proof {
        assert(hi == lo + 1);
        assert(is_isqrt(n as int, lo as int));
        lemma_isqrt_unique(n as int, lo as int, floor_sqrt(n as int));
    }
    lo
}

/// Squared distance between two points whose coordinates fit.
pub fn squared_distance(a: Point, b: Point) -> (r: u128)
    requires
        a.fits(),
        b.fits(),
    ensures
        r == dist2(a, b),
        r <= 0x2000_0000_0000_0000_0000_0000_0000_0000u128,
{
    let dx: i128 = a.x as i128 - b.x as i128;
    let dy: i128 = a.y as i128 - b.y as i128;
    let ax: u128 = if dx < 0 {
        (-dx) as u128
    } else {
        dx as u128
    };
    let ay: u128 = if dy < 0 {
        (-dy) as u128
    } else {
        dy as u128
    };
    proof {
        assert(ax * ax <= 0x4000_0000_0000_0000 * 0x4000_0000_0000_0000) by (nonlinear_arith)
            requires
                ax <= 0x4000_0000_0000_0000,
        ;
        assert(ay * ay <= 0x4000_0000_0000_0000 * 0x4000_0000_0000_0000) by (nonlinear_arith)
            requires
                ay <= 0x4000_0000_0000_0000,
        ;
        assert(ax * ax == dx * dx) by (nonlinear_arith)
            requires
                ax == dx || ax == -dx,
        ;
        assert(ay * ay == dy * dy) by (nonlinear_arith)
            requires
                ay == dy || ay == -dy,
        ;
    }
    ax * ax + ay * ay
}

/// Floor of the Euclidean distance between two points whose coordinates fit.
pub fn floor_distance(a: Point, b: Point) -> (r: i64)
    requires
        a.fits(),
        b.fits(),
    ensures
        r == floor_sqrt(dist2(a, b)),
        0 <= r,
{
    let d = squared_distance(a, b);
    let s = isqrt(d);
    proof {
        if s > 0x7fff_ffff_ffff_ffff {
            assert(s * s > 0x2000_0000_0000_0000_0000_0000_0000_0000u128) by (nonlinear_arith)
                requires
                    s >= 0x8000_0000_0000_0000u128,
            ;
        }
    }
    s as i64
}

/// Four corners of a plate or a bounding box.
#[derive(Clone, Copy, Debug, PartialEq, Eq, Structural)]
pub struct Quad {
    pub top_left: Point,
    pub top_right: Point,
    pub bottom_right: Point,
    pub bottom_left: Point,
}

/// Absolute value of an integer.
pub open spec fn abs(v: int) -> int {
    if v < 0 {
        -v
    } else {
        v
    }
}

/// Point `j` comes before point `i` when ordering by `y`, ties kept in input order.
pub open spec fn before(p: Seq<Point>, j: int, i: int) -> bool {
    p[j].y < p[i].y || (p[j].y == p[i].y && j < i)
}

pub open spec fn ind(b: bool) -> int {
    if b {
        1
    } else {
        0
    }
}

/// Position of point `i` among four points sorted stably by `y`.
pub open spec fn y_rank(p: Seq<Point>, i: int) -> int {
    ind(before(p, 0, i)) + ind(before(p, 1, i)) + ind(before(p, 2, i)) + ind(before(p, 3, i))
}

/// The point at position `k` after a stable sort of four points by `y`.
pub open spec fn nth_by_y(p: Seq<Point>, k: int) -> Point {
    p[choose|i: int| 0 <= i < 4 && y_rank(p, i) == k]
}

/// The quad whose top edge holds the two points of least `y` and whose bottom edge the
/// other two, each pair ordered by `x` (ties keep the sorted order).
pub open spec fn quad_from_points(p: Seq<Point>) -> Quad {
    let a = nth_by_y(p, 0);
    let b = nth_by_y(p, 1);
    let c = nth_by_y(p, 2);
    let d = nth_by_y(p, 3);
    let (tl, tr) = if a.x <= b.x {
        (a, b)
    } else {
        (b, a)
    };
    let (bl, br) = if c.x <= d.x {
        (c, d)
    } else {
        (d, c)
    };
    Quad { top_left: tl, top_right: tr, bottom_right: br, bottom_left: bl }
}

/// The four points held as `x, y` pairs in `c`.
pub open spec fn points_of(c: Seq<i32>) -> Seq<Point> {
    seq![
        Point { x: c[0] as i64, y: c[1] as i64 },
        Point { x: c[2] as i64, y: c[3] as i64 },
        Point { x: c[4] as i64, y: c[5] as i64 },
        Point { x: c[6] as i64, y: c[7] as i64 },
    ]
}

/// The first of four indices whose rank is `k`, or 3 if none of the first three has it.
pub open spec fn index_of_rank(p: Seq<Point>, k: int) -> int {
    if y_rank(p, 0) == k {
        0
    } else if y_rank(p, 1) == k {
        1
    } else if y_rank(p, 2) == k {
        2
    } else {
        3
    }
}

/// The ranks of four points are a permutation of `0..4`.
pub proof fn lemma_y_rank_permutation(p: Seq<Point>)
    requires
        p.len() == 4,
    ensures
        forall|i: int| 0 <= i < 4 ==> 0 <= #[trigger] y_rank(p, i) < 4,
        forall|i: int, j: int|
            0 <= i < 4 && 0 <= j < 4 && i != j ==> #[trigger] y_rank(p, i) != #[trigger] y_rank(
                p,
                j,
            ),
{
    assert(y_rank(p, 0) != y_rank(p, 1));
    assert(y_rank(p, 0) != y_rank(p, 2));
    assert(y_rank(p, 0) != y_rank(p, 3));
    assert(y_rank(p, 1) != y_rank(p, 2));
    assert(y_rank(p, 1) != y_rank(p, 3));
    assert(y_rank(p, 2) != y_rank(p, 3));
}

/// Index of the point with rank `k`.
fn index_with_rank(ranks: &[u8; 4], k: u8, Ghost(p): Ghost<Seq<Point>>) -> (r: usize)
    requires
        p.len() == 4,
        k < 4,
        forall|i: int| 0 <= i < 4 ==> ranks@[i] == y_rank(p, i),
    ensures
        r < 4,
        y_rank(p, r as int) == k,
        p[r as int] == nth_by_y(p, k as int),
{
    proof {
        lemma_y_rank_permutation(p);
        assert(0 <= y_rank(p, 0) < 4 && 0 <= y_rank(p, 1) < 4 && 0 <= y_rank(p, 2) < 4 && 0
            <= y_rank(p, 3) < 4);
    }
    let r: usize = if ranks[0] == k {
        0
    } else if ranks[1] == k {
        1
    } else if ranks[2] == k {
        2
    } else {
        3
    };
    proof {
        assert(y_rank(p, r as int) == k);
        let c = choose|i: int| 0 <= i < 4 && y_rank(p, i) == k;
        assert(c == r as int);
    }
    r
}

impl Quad {
    /// Width and height measured along the top and right edges.
    pub open spec fn spec_dimensions(&self) -> (int, int) {
        (
            abs(self.top_right.x - self.top_left.x),
            abs(self.bottom_right.y - self.top_right.y),
        )
    }

    pub open spec fn fits(&self) -> bool {
        self.top_left.fits() && self.top_right.fits() && self.bottom_right.fits()
            && self.bottom_left.fits()
    }

    /// Width `|top_right.x - top_left.x|` and height `|bottom_right.y - top_right.y|`.
    pub fn dimensions(&self) -> (r: (u64, u64))
        requires
            self.fits(),
        ensures
            (r.0 as int, r.1 as int) == self.spec_dimensions(),
    {
        let dx: i128 = self.top_right.x as i128 - self.top_left.x as i128;
        let dy: i128 = self.bottom_right.y as i128 - self.top_right.y as i128;
        let w: u64 = if dx < 0 {
            (-dx) as u64
        } else {
            dx as u64
        };
        let h: u64 = if dy < 0 {
            (-dy) as u64
        } else {
            dy as u64
        };
        (w, h)
    }

    /// Whether `width / height` lies within `[lo / 1000, hi / 1000]`; false for a quad of
    /// zero height.
    pub fn aspect_ratio_within(&self, lo_permille: u64, hi_permille: u64) -> (r: bool)
        requires
            self.fits(),
        ensures
            r == ({
                let (w, h) = self.spec_dimensions();
                h > 0 && lo_permille * h <= 1000 * w && 1000 * w <= hi_permille * h
            }),
    {
        let (w, h) = self.dimensions();
        proof {
            lemma_u64_products_fit(lo_permille, h);
            lemma_u64_products_fit(hi_permille, h);
            lemma_u64_products_fit(1000, w);
        }
        h > 0 && (lo_permille as u128) * (h as u128) <= 1000 * (w as u128) && 1000 * (w as u128)
            <= (hi_permille as u128) * (h as u128)
    }

    /// The corners in the order top-left, top-right, bottom-right, bottom-left.
    pub fn to_tuple_vec(&self) -> (r: Vec<(i64, i64)>)
        ensures
            r@ == seq![
                (self.top_left.x, self.top_left.y),
                (self.top_right.x, self.top_right.y),
                (self.bottom_right.x, self.bottom_right.y),
                (self.bottom_left.x, self.bottom_left.y),
            ],
    {
        let r = vec![
            (self.top_left.x, self.top_left.y),
            (self.top_right.x, self.top_right.y),
            (self.bottom_right.x, self.bottom_right.y),
            (self.bottom_left.x, self.bottom_left.y),
        ];
        proof {
            assert(r@ =~= seq![
                (self.top_left.x, self.top_left.y),
                (self.top_right.x, self.top_right.y),
                (self.bottom_right.x, self.bottom_right.y),
                (self.bottom_left.x, self.bottom_left.y),
            ]);
        }
        r
    }

    /// The eight coordinates `x, y` of the corners in the order top-left, top-right,
    /// bottom-right, bottom-left, each saturated to the `i32` range.
    pub fn to_simple_vec(&self) -> (r: Vec<i32>)
        ensures
            r@ == seq![
                sat_i32(self.top_left.x),
                sat_i32(self.top_left.y),
                sat_i32(self.top_right.x),
                sat_i32(self.top_right.y),
                sat_i32(self.bottom_right.x),
                sat_i32(self.bottom_right.y),
                sat_i32(self.bottom_left.x),
                sat_i32(self.bottom_left.y),
            ],
    {
        let r = vec![
            to_i32(self.top_left.x),
            to_i32(self.top_left.y),
            to_i32(self.top_right.x),
            to_i32(self.top_right.y),
            to_i32(self.bottom_right.x),
            to_i32(self.bottom_right.y),
            to_i32(self.bottom_left.x),
            to_i32(self.bottom_left.y),
        ];
        proof {
            assert(r@ =~= seq![
                sat_i32(self.top_left.x),
                sat_i32(self.top_left.y),
                sat_i32(self.top_right.x),
                sat_i32(self.top_right.y),
                sat_i32(self.bottom_right.x),
                sat_i32(self.bottom_right.y),
                sat_i32(self.bottom_left.x),
                sat_i32(self.bottom_left.y),
            ]);
        }
        r
    }

    /// Builds a quad from four unordered points given as `x, y` pairs: the two points of
    /// least `y` (ties in input order) form the top edge, the others the bottom edge, and
    /// within each edge the point of lesser `x` comes first.
    pub fn from_simple_vec(coords: Vec<i32>) -> (r: Quad)
        requires
            coords@.len() == 8,
        ensures
            r == quad_from_points(points_of(coords@)),
    {
        let pts: [Point; 4] = [
            Point { x: coords[0] as i64, y: coords[1] as i64 },
            Point { x: coords[2] as i64, y: coords[3] as i64 },
            Point { x: coords[4] as i64, y: coords[5] as i64 },
            Point { x: coords[6] as i64, y: coords[7] as i64 },
        ];
        let ghost p = points_of(coords@);
        proof {
            assert(pts@ =~= p);
        }
        let mut ranks: [u8; 4] = [0, 0, 0, 0];
        let mut i: usize = 0;
        while i < 4
            invariant
                i <= 4,
                pts@ == p,
                p.len() == 4,
                forall|k: int| 0 <= k < i ==> ranks@[k] == y_rank(p, k),
            decreases 4 - i,
        {
            let mut rank: u8 = 0;
            let mut j: usize = 0;
            while j < 4
                invariant
                    i < 4,
                    j <= 4,
                    pts@ == p,
                    p.len() == 4,
                    rank as int == (if j > 0 {
                        ind(before(p, 0, i as int))
                    } else {
                        0
                    }) + (if j > 1 {
                        ind(before(p, 1, i as int))
                    } else {
                        0
                    }) + (if j > 2 {
                        ind(before(p, 2, i as int))
                    } else {
                        0
                    }) + (if j > 3 {
                        ind(before(p, 3, i as int))
                    } else {
                        0
                    }),
                    forall|k: int| 0 <= k < i ==> ranks@[k] == y_rank(p, k),
                decreases 4 - j,
            {
                if pts[j].y < pts[i].y || (pts[j].y == pts[i].y && j < i) {
                    rank = rank + 1;
                }
                j = j + 1;
            }
            ranks[i] = rank;
            i = i + 1;
        }
        let a = pts[index_with_rank(&ranks, 0, Ghost(p))];
        let b = pts[index_with_rank(&ranks, 1, Ghost(p))];
        let c = pts[index_with_rank(&ranks, 2, Ghost(p))];
        let d = pts[index_with_rank(&ranks, 3, Ghost(p))];
        let (top_left, top_right) = if a.x <= b.x {
            (a, b)
        } else {
            (b, a)
        };
        let (bottom_left, bottom_right) = if c.x <= d.x {
            (c, d)
        } else {
            (d, c)
        };
        Quad { top_left, top_right, bottom_right, bottom_left }
    }
}

pub proof fn lemma_u64_products_fit(a: u64, b: u64)
    ensures
        0 <= a as int * b as int <= u128::MAX,
{
    assert(a as int * b as int <= 0xffff_ffff_ffff_ffff * 0xffff_ffff_ffff_ffff) by (
    nonlinear_arith)
        requires
            0 <= a <= 0xffff_ffff_ffff_ffff,
            0 <= b <= 0xffff_ffff_ffff_ffff,
    ;
    assert(0 <= a as int * b as int) by (nonlinear_arith)
        requires
            0 <= a,
            0 <= b,
    ;
}

/// The axis-aligned rectangle with corners `(l, t)` and `(r, b)`.
pub open spec fn rectangle(l: i64, t: i64, r: i64, b: i64) -> Quad {
    Quad {
        top_left: Point { x: l, y: t },
        top_right: Point { x: r, y: t },
        bottom_right: Point { x: r, y: b },
        bottom_left: Point { x: l, y: b },
    }
}

/// Whether `p` lists the four corners of the rectangle `(l, t)`-`(r, b)`, each once, in any
/// order.
pub open spec fn is_corner_permutation(p: Seq<Point>, l: i64, t: i64, r: i64, b: i64) -> bool {
    let q = rectangle(l, t, r, b);
    &&& p.len() == 4
    &&& forall|i: int|
        0 <= i < 4 ==> (#[trigger] p[i] == q.top_left || p[i] == q.top_right || p[i]
            == q.bottom_right || p[i] == q.bottom_left)
    &&& forall|i: int, j: int| 0 <= i < j < 4 ==> #[trigger] p[i] != #[trigger] p[j]
}

/// The corners of an axis-aligned rectangle, given as coordinate pairs in any order, always
/// build the same quad: top-left, top-right, bottom-right and bottom-left land on the
/// rectangle's own corners, and its dimensions are the rectangle's width and height.
pub proof fn lemma_quad_from_rectangle_corners(c: Seq<i32>, l: i32, t: i32, r: i32, b: i32)
    requires
        c.len() == 8,
        l < r,
        t < b,
        is_corner_permutation(points_of(c), l as i64, t as i64, r as i64, b as i64),
    ensures
        quad_from_points(points_of(c)) == rectangle(l as i64, t as i64, r as i64, b as i64),
        quad_from_points(points_of(c)).spec_dimensions() == (r - l, b - t),
{
    let p = points_of(c);
    lemma_y_rank_permutation(p);
    assert(p[0] != p[1] && p[0] != p[2] && p[0] != p[3] && p[1] != p[2] && p[1] != p[3] && p[2]
        != p[3]);
    assert(0 <= y_rank(p, 0) < 4 && 0 <= y_rank(p, 1) < 4 && 0 <= y_rank(p, 2) < 4 && 0 <= y_rank(
        p,
        3,
    ) < 4);
    assert(forall|i: int| 0 <= i < 4 ==> (p[i].y == t) == (#[trigger] y_rank(p, i) < 2));
    let i0 = choose|i: int| 0 <= i < 4 && y_rank(p, i) == 0;
    let i1 = choose|i: int| 0 <= i < 4 && y_rank(p, i) == 1;
    let i2 = choose|i: int| 0 <= i < 4 && y_rank(p, i) == 2;
    let i3 = choose|i: int| 0 <= i < 4 && y_rank(p, i) == 3;
    assert(y_rank(p, i0) == 0 && y_rank(p, i1) == 1 && y_rank(p, i2) == 2 && y_rank(p, i3) == 3)
        by {
        let k0 = index_of_rank(p, 0);
        let k1 = index_of_rank(p, 1);
        let k2 = index_of_rank(p, 2);
        let k3 = index_of_rank(p, 3);
        assert(y_rank(p, k0) == 0 && y_rank(p, k1) == 1 && y_rank(p, k2) == 2 && y_rank(p, k3)
            == 3);
    }
    assert(i0 != i1 && i2 != i3);
}

/// A spot: the disc around `center` with radius `radius`.
#[derive(Clone, Copy, Debug, PartialEq, Eq, Structural)]
pub struct Circle {
    pub center: Point,
    pub radius: i64,
}

impl Circle {
    /// The radius is non-negative and the bounding square's corners fit.
    pub open spec fn fits(&self) -> bool {
        &&& 0 <= self.radius
        &&& -COORD_LIMIT <= self.center.x - self.radius
        &&& self.center.x + self.radius <= COORD_LIMIT
        &&& -COORD_LIMIT <= self.center.y - self.radius
        &&& self.center.y + self.radius <= COORD_LIMIT
    }

    /// The axis-aligned square that circumscribes the circle.
    pub open spec fn spec_to_quad(&self) -> Quad {
        rectangle(
            (self.center.x - self.radius) as i64,
            (self.center.y - self.radius) as i64,
            (self.center.x + self.radius) as i64,
            (self.center.y + self.radius) as i64,
        )
    }

    pub fn new(center_x: i64, center_y: i64, radius: i64) -> (r: Circle)
        ensures
            r == (Circle { center: Point { x: center_x, y: center_y }, radius }),
    {
        Circle { center: Point { x: center_x, y: center_y }, radius }
    }

    /// The axis-aligned square that circumscribes the circle.
    pub fn to_quad(&self) -> (r: Quad)
        requires
            self.fits(),
        ensures
            r == self.spec_to_quad(),
            r.fits(),
    {
        let left = self.center.x - self.radius;
        let right = self.center.x + self.radius;
        let top = self.center.y - self.radius;
        let bottom = self.center.y + self.radius;
        Quad {
            top_left: Point { x: left, y: top },
            top_right: Point { x: right, y: top },
            bottom_right: Point { x: right, y: bottom },
            bottom_left: Point { x: left, y: bottom },
        }
    }

    /// Center coordinates and radius.
    pub fn to_tuples(&self) -> (r: (i64, i64, i64))
        ensures
            r == (self.center.x, self.center.y, self.radius),
    {
        (self.center.x, self.center.y, self.radius)
    }

    /// Center coordinates and radius, each saturated to the `i32` range.
    pub fn to_simple_vec(&self) -> (r: Vec<i32>)
        ensures
            r@ == seq![sat_i32(self.center.x), sat_i32(self.center.y), sat_i32(self.radius)],
    {
        let r = vec![to_i32(self.center.x), to_i32(self.center.y), to_i32(self.radius)];
        proof {
            assert(r@ =~= seq![
                sat_i32(self.center.x),
                sat_i32(self.center.y),
                sat_i32(self.radius),
            ]);
        }
        r
    }

    /// A circle from center coordinates and radius.
    pub fn from_simple_vec(coords: Vec<i32>) -> (r: Circle)
        requires
            coords@.len() >= 3,
        ensures
            r == (Circle {
                center: Point { x: coords@[0] as i64, y: coords@[1] as i64 },
                radius: coords@[2] as i64,
            }),
    {
        Circle {
            center: Point { x: coords[0] as i64, y: coords[1] as i64 },
            radius: coords[2] as i64,
        }
    }
}

/// `v` saturated to the `i32` range.
pub open spec fn sat_i32(v: i64) -> i32 {
    if v < i32::MIN {
        i32::MIN
    } else if v > i32::MAX {
        i32::MAX
    } else {
        v as i32
    }
}

fn to_i32(v: i64) -> (r: i32)
    ensures
        r == sat_i32(v),
{
    if v < i32::MIN as i64 {
        i32::MIN
    } else if v > i32::MAX as i64 {
        i32::MAX
    } else {
        v as i32
    }
}

} // verus!
