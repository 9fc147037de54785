use vstd::prelude::*;

verus! {

/// An 8-bit RGB raster stored row by row, three samples per pixel.
pub struct RgbImage {
    pub width: u32,
    pub height: u32,
    pub pixels: Vec<u8>,
}

impl RgbImage {
    /// The buffer holds exactly three samples per pixel.
    pub open spec fn wf(&self) -> bool {
        self.pixels@.len() == 3 * (self.width as int * self.height as int)
    }

    /// Builds an image from raw samples; `None` when the length does not match the size.
    pub fn from_vec(width: u32, height: u32, pixels: Vec<u8>) -> (r: Option<RgbImage>)
        ensures
            r is Some <==> pixels@.len() == 3 * (width as int * height as int),
            r matches Some(img) ==> img.wf() && img.width == width && img.height == height
                && img.pixels@ == pixels@,
    {
        proof {
            assert((width as u128) * (height as u128) <= 0xffff_ffffu128 * 0xffff_ffffu128)
                by (nonlinear_arith);
        }
        let n: u128 = 3 * ((width as u128) * (height as u128));
        if (pixels.len() as u128) == n {
            Some(RgbImage { width, height, pixels })
        } else {
            None
        }
    }
}

/// Number of the first `n` pixels whose channel `c` is at most `v`.
pub open spec fn channel_count_le(s: Seq<u8>, c: int, v: int, n: int) -> int
    decreases n,
{
    if n <= 0 {
        0
    } else {
        channel_count_le(s, c, v, n - 1) + if s[3 * (n - 1) + c] as int <= v {
            1int
        } else {
            0int
        }
    }
}

/// Relies on `imageproc::stats::cumulative_histogram` on an RGB image: per channel, entry
/// `v` counts the pixels whose sample in that channel is at most `v`. Its counters are
/// 32-bit, so images hold fewer than `2^32` pixels.
#[verifier::external_body]
fn cumulative_histogram(width: u32, height: u32, pixels: &Vec<u8>) -> (r: Vec<Vec<u32>>)
    requires
        pixels@.len() == 3 * (width as int * height as int),
        (width as int) * (height as int) < 0x1_0000_0000,
    ensures
        r@.len() == 3,
        forall|c: int| 0 <= c < 3 ==> (#[trigger] r@[c])@.len() == 256,
        forall|c: int, v: int|
            0 <= c < 3 && 0 <= v < 256 ==> (#[trigger] r@[c]@[v]) as int == channel_count_le(
                pixels@,
                c,
                v,
                width as int * height as int,
            ),
{
    let img = image::RgbImage::from_raw(width, height, pixels.clone()).unwrap();
    imageproc::stats::cumulative_histogram(&img).channels.iter().map(|h| h.to_vec()).collect()
}

proof fn lemma_count_all(s: Seq<u8>, c: int, n: int)
    requires
        0 <= n,
    ensures
        channel_count_le(s, c, 255, n) == n,
    decreases n,
{
    if n > 0 {
        lemma_count_all(s, c, n - 1);
    }
}

/// Polarity heuristic: spots count as dark on light when the green channel's cumulative
/// histogram reaches at least as high as the blue one's. Both count every pixel, so the
/// answer is always yes.
pub fn has_potential_dark_blobs(image: &RgbImage) -> (r: bool)
    requires
        image.wf(),
        (image.width as int) * (image.height as int) < 0x1_0000_0000,
    ensures
        r == (channel_count_le(image.pixels@, 1, 255, image.width as int * image.height as int)
            >= channel_count_le(image.pixels@, 2, 255, image.width as int * image.height as int)),
        r,
{
    let hist = cumulative_histogram(image.width, image.height, &image.pixels);
    proof {
        assert(hist@[1]@.len() == 256 && hist@[2]@.len() == 256);
        lemma_count_all(image.pixels@, 1, image.width as int * image.height as int);
        lemma_count_all(image.pixels@, 2, image.width as int * image.height as int);
    }
    hist[1][255] >= hist[2][255]
}

} // verus!
