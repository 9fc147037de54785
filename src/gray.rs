use vstd::prelude::*;

verus! {

/// An 8-bit grayscale raster stored row by row.
pub struct GrayImage {
    pub width: u32,
    pub height: u32,
    pub pixels: Vec<u8>,
}

impl GrayImage {
    /// The buffer holds exactly one sample per pixel.
    pub open spec fn wf(&self) -> bool {
        self.pixels@.len() == self.width as int * self.height as int
    }

    /// Raster index of pixel `(x, y)`.
    pub open spec fn index_of(&self, x: int, y: int) -> int {
        x + y * self.width as int
    }

    /// Builds an image from raw samples; `None` when the length does not match the size.
    pub fn from_vec(width: u32, height: u32, pixels: Vec<u8>) -> (r: Option<GrayImage>)
        ensures
            r is Some <==> pixels@.len() == width as int * height as int,
            r matches Some(img) ==> img.wf() && img.width == width && img.height == height
                && img.pixels@ == pixels@,
    {
        proof {
            assert((width as u128) * (height as u128) <= 0xffff_ffffu128 * 0xffff_ffffu128)
                by (nonlinear_arith);
        }
        let n: u128 = (width as u128) * (height as u128);
        if (pixels.len() as u128) == n {
            Some(GrayImage { width, height, pixels })
        } else {
            None
        }
    }

    pub fn dimensions(&self) -> (r: (u32, u32))
        ensures
            r == (self.width, self.height),
    {
        (self.width, self.height)
    }

    /// Sample at column `x`, row `y`.
    pub fn get_pixel(&self, x: u32, y: u32) -> (r: u8)
        requires
            self.wf(),
            x < self.width,
            y < self.height,
        ensures
            r == self.pixels@[self.index_of(x as int, y as int)],
    {
        proof {
            lemma_raster_index_in_bounds(x as int, y as int, self.width as int, self.height as int);
        }
        let len: usize = self.pixels.len();
        proof {
            assert(x + y * self.width < len);
        }
        let row: usize = (y as usize) * (self.width as usize);
        let idx: usize = (x as usize) + row;
        self.pixels[idx]
    }
}

/// A pixel inside a `w` by `h` raster has a raster index below `w * h`.
pub proof fn lemma_raster_index_in_bounds(x: int, y: int, w: int, h: int)
    requires
        0 <= x < w,
        0 <= y < h,
    ensures
        0 <= y * w <= x + y * w < w * h,
{
    assert(0 <= y * w) by (nonlinear_arith)
        requires
            0 <= y,
            0 <= w,
    ;
    assert(y * w + w <= w * h) by (nonlinear_arith)
        requires
            y + 1 <= h,
            0 <= w,
    ;
}

/// Sum of the samples of `s`.
pub open spec fn seq_sum(s: Seq<u8>) -> int
    decreases s.len(),
{
    if s.len() == 0 {
        0
    } else {
        seq_sum(s.drop_last()) + s.last() as int
    }
}

/// Number of samples of `s` that are at most `v`.
pub open spec fn count_le(s: Seq<u8>, v: int) -> int
    decreases s.len(),
{
    if s.len() == 0 {
        0
    } else {
        count_le(s.drop_last(), v) + if s.last() as int <= v {
            1int
        } else {
            0int
        }
    }
}

/// The `k`-th smallest sample (counting from zero): the least value with more than `k`
/// samples at or below it.
pub open spec fn is_kth_smallest(s: Seq<u8>, k: int, v: u8) -> bool {
    count_le(s, v as int) > k && (v == 0 || count_le(s, v as int - 1) <= k)
}

/// The median of `s`: the middle sample, or the floor of the mean of the two middle samples.
pub open spec fn is_median(s: Seq<u8>, m: u8) -> bool {
    let mid = s.len() / 2;
    if s.len() == 0 {
        m == 0
    } else if s.len() % 2 == 1 {
        is_kth_smallest(s, mid as int, m)
    } else {
        exists|a: u8, b: u8|
            #[trigger] is_kth_smallest(s, mid as int - 1, a) && #[trigger] is_kth_smallest(
                s,
                mid as int,
                b,
            ) && m as int
                == (a as int + b as int) / 2
    }
}

pub proof fn lemma_count_le_bounds(s: Seq<u8>, v: int)
    ensures
        0 <= count_le(s, v) <= s.len(),
        v >= 255 ==> count_le(s, v) == s.len(),
        v < 0 ==> count_le(s, v) == 0,
    decreases s.len(),
{
    if s.len() > 0 {
        lemma_count_le_bounds(s.drop_last(), v);
    }
}

/// Number of samples at most `v`.
fn count_at_most(s: &Vec<u8>, v: u8) -> (r: usize)
    ensures
        r == count_le(s@, v as int),
{
    let mut c: usize = 0;
    let mut i: usize = 0;
    while i < s.len()
        invariant
            i <= s@.len(),
            c == count_le(s@.subrange(0, i as int), v as int),
            c <= i,
        decreases s.len() - i,
    {
        proof {
            assert(s@.subrange(0, i as int + 1).drop_last() == s@.subrange(0, i as int));
        }
        if s[i] <= v {
            c = c + 1;
        }
        i = i + 1;
    }
    proof {
        assert(s@.subrange(0, s@.len() as int) == s@);
    }
    c
}

/// The `k`-th smallest sample.
fn kth_smallest(s: &Vec<u8>, k: usize) -> (r: u8)
    requires
        k < s@.len(),
    ensures
        is_kth_smallest(s@, k as int, r),
{
    let mut v: u8 = 0;
    proof {
        lemma_count_le_bounds(s@, -1);
    }
    loop
        invariant
            count_le(s@, v as int - 1) <= k,
            k < s@.len(),
        decreases 256 - v,
    {
        let c = count_at_most(s, v);
        if c > k {
            return v;
        }
        proof {
            lemma_count_le_bounds(s@, v as int);
        }
        v = v + 1;
    }
}

/// Reverses the intensities of an 8-bit image.
pub trait InvertGrayImage: Sized {
    fn invert(&self) -> Self;
}

impl InvertGrayImage for GrayImage {
    fn invert(&self) -> (r: GrayImage)
        ensures
            r.width == self.width,
            r.height == self.height,
            r.pixels@.len() == self.pixels@.len(),
            forall|i: int| 0 <= i < r.pixels@.len() ==> r.pixels@[i] == 255 - self.pixels@[i],
    {
        let mut out: Vec<u8> = Vec::with_capacity(self.pixels.len());
        let mut i: usize = 0;
        while i < self.pixels.len()
            invariant
                i <= self.pixels@.len(),
                out@.len() == i,
                forall|j: int| 0 <= j < i ==> out@[j] == 255 - self.pixels@[j],
            decreases self.pixels.len() - i,
        {
            out.push(255 - self.pixels[i]);
            i = i + 1;
        }
        GrayImage { width: self.width, height: self.height, pixels: out }
    }
}

/// Summary statistics over all samples of an image.
pub trait StatsImage {
    fn mean(&self) -> u8;

    fn median(&self) -> u8;

    fn max(&self) -> u8;

    fn min(&self) -> u8;
}

impl StatsImage for GrayImage {
    /// Floor of the average sample; 0 for an empty image.
    fn mean(&self) -> (r: u8)
        ensures
            self.pixels@.len() == 0 ==> r == 0,
            self.pixels@.len() > 0 ==> r as int == seq_sum(self.pixels@) / (
            self.pixels@.len() as int),
    {
        let s = &self.pixels;
        let mut sum: u128 = 0;
        let mut i: usize = 0;
        while i < s.len()
            invariant
                i <= s@.len(),
                sum == seq_sum(s@.subrange(0, i as int)),
                sum <= 255 * i,
            decreases s.len() - i,
        {
            proof {
                assert(s@.subrange(0, i as int + 1).drop_last() == s@.subrange(0, i as int));
            }
            sum = sum + s[i] as u128;
            i = i + 1;
        }
        proof {
            assert(s@.subrange(0, s@.len() as int) == s@);
        }
        if s.len() == 0 {
            0
        } else {
            let n: u128 = s.len() as u128;
            proof {
                assert(sum / n <= 255) by (nonlinear_arith)
                    requires
                        sum <= 255 * n,
                        n > 0,
                ;
            }
            (sum / n) as u8
        }
    }

    /// Middle sample in sorted order; for an even count, the floor of the mean of the two
    /// middle samples; 0 for an empty image.
    fn median(&self) -> (r: u8)
        ensures
            is_median(self.pixels@, r),
    {
        let n = self.pixels.len();
        if n == 0 {
            0
        } else if n % 2 == 1 {
            kth_smallest(&self.pixels, n / 2)
        } else {
            let a = kth_smallest(&self.pixels, n / 2 - 1);
            let b = kth_smallest(&self.pixels, n / 2);
            let m: u16 = (a as u16 + b as u16) / 2;
            proof {
                assert(is_kth_smallest(self.pixels@, (n / 2) as int - 1, a));
            }
            m as u8
        }
    }

    /// Largest sample; 0 for an empty image.
    fn max(&self) -> (r: u8)
        ensures
            forall|i: int| 0 <= i < self.pixels@.len() ==> self.pixels@[i] <= r,
            self.pixels@.len() > 0 ==> exists|i: int|
                0 <= i < self.pixels@.len() && self.pixels@[i] == r,
            self.pixels@.len() == 0 ==> r == 0,
    {
        let mut m: u8 = 0;
        let mut i: usize = 0;
        while i < self.pixels.len()
            invariant
                i <= self.pixels@.len(),
                forall|j: int| 0 <= j < i ==> self.pixels@[j] <= m,
                i > 0 ==> exists|j: int| 0 <= j < i && self.pixels@[j] == m,
                i == 0 ==> m == 0,
            decreases self.pixels.len() - i,
        {
            if m <= self.pixels[i] {
                m = self.pixels[i];
            }
            i = i + 1;
        }
        m
    }

    /// Smallest sample; 255 for an empty image.
    fn min(&self) -> (r: u8)
        ensures
            forall|i: int| 0 <= i < self.pixels@.len() ==> r <= self.pixels@[i],
            self.pixels@.len() > 0 ==> exists|i: int|
                0 <= i < self.pixels@.len() && self.pixels@[i] == r,
            self.pixels@.len() == 0 ==> r == 255,
    {
        let mut m: u8 = 255;
        let mut i: usize = 0;
        while i < self.pixels.len()
            invariant
                i <= self.pixels@.len(),
                forall|j: int| 0 <= j < i ==> m <= self.pixels@[j],
                i > 0 ==> exists|j: int| 0 <= j < i && self.pixels@[j] == m,
                i == 0 ==> m == 255,
            decreases self.pixels.len() - i,
        {
            if m >= self.pixels[i] {
                m = self.pixels[i];
            }
            i = i + 1;
        }
        m
    }
}

/// Difference clamped below at zero.
pub trait SaturatingSub: Sized {
    fn saturating_sub(&self, other: &Self) -> Self;
}

impl SaturatingSub for u8 {
    fn saturating_sub(&self, other: &u8) -> (r: u8)
        ensures
            r as int == if *self >= *other {
                *self as int - *other as int
            } else {
                0int
            },
    {
        if *self < *other {
            0
        } else {
            *self - *other
        }
    }
}

/// Clamps an integer intensity into the 8-bit range.
pub fn attenuate_generic(channel: i64) -> (r: u8)
    ensures
        channel >= 255 ==> r == 255,
        channel <= 0 ==> r == 0,
        0 < channel < 255 ==> r == channel,
{
    if channel >= 255 {
        255
    } else if channel <= 0 {
        0
    } else {
        channel as u8
    }
}

} // verus!
