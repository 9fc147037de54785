use vstd::prelude::*;
use crate::gray::GrayImage;

verus! {

/// Fixed-point units per intensity level in a high-dynamic-range sample.
pub const HDR_SCALE: i64 = 256;

/// A grayscale raster of fixed-point samples: intensity times `HDR_SCALE`, unclamped.
pub struct HdrGrayImage {
    pub width: u32,
    pub height: u32,
    pub samples: Vec<i64>,
}

impl HdrGrayImage {
    /// The buffer holds exactly one sample per pixel.
    pub open spec fn wf(&self) -> bool {
        self.samples@.len() == self.width as int * self.height as int
    }

    /// Builds an image from raw samples; `None` when the length does not match the size.
    pub fn from_vec(width: u32, height: u32, samples: Vec<i64>) -> (r: Option<HdrGrayImage>)
        ensures
            r is Some <==> samples@.len() == width as int * height as int,
            r matches Some(img) ==> img.wf() && img.width == width && img.height == height
                && img.samples@ == samples@,
    {
        proof {
            assert((width as u128) * (height as u128) <= 0xffff_ffffu128 * 0xffff_ffffu128)
                by (nonlinear_arith);
        }
        if (samples.len() as u128) == (width as u128) * (height as u128) {
            Some(HdrGrayImage { width, height, samples })
        } else {
            None
        }
    }
}

/// The 8-bit value of a fixed-point sample: its whole intensity, clamped to `0..=255`.
pub open spec fn ldr_of(v: int) -> u8 {
    if v <= 0 {
        0
    } else if v / HDR_SCALE as int >= 255 {
        255
    } else {
        (v / HDR_SCALE as int) as u8
    }
}

fn to_ldr(v: i128) -> (r: u8)
    ensures
        r == ldr_of(v as int),
{
    if v <= 0 {
        0
    } else if v / (HDR_SCALE as i128) >= 255 {
        255
    } else {
        (v / (HDR_SCALE as i128)) as u8
    }
}

/// Lifts an 8-bit image into fixed-point samples.
pub trait LDRToHDRGray {
    fn convert(&self) -> HdrGrayImage;
}

/// Lowers fixed-point samples to 8 bits, clamping to `0..=255`.
pub trait HDRtoLDRGray {
    fn convert(&self) -> GrayImage;
}

impl LDRToHDRGray for GrayImage {
    fn convert(&self) -> (r: HdrGrayImage)
        ensures
            r.width == self.width,
            r.height == self.height,
            r.samples@.len() == self.pixels@.len(),
            forall|i: int|
                0 <= i < r.samples@.len() ==> #[trigger] r.samples@[i] == self.pixels@[i]
                    * HDR_SCALE,
    {
        let mut out: Vec<i64> = Vec::with_capacity(self.pixels.len());
        let mut i: usize = 0;
        while i < self.pixels.len()
            invariant
                i <= self.pixels@.len(),
                out@.len() == i,
                forall|j: int| 0 <= j < i ==> #[trigger] out@[j] == self.pixels@[j] * HDR_SCALE,
            decreases self.pixels.len() - i,
        {
            out.push(self.pixels[i] as i64 * HDR_SCALE);
            i = i + 1;
        }
        HdrGrayImage { width: self.width, height: self.height, samples: out }
    }
}

impl HDRtoLDRGray for HdrGrayImage {
    fn convert(&self) -> (r: GrayImage)
        ensures
            r.width == self.width,
            r.height == self.height,
            r.pixels@.len() == self.samples@.len(),
            forall|i: int|
                0 <= i < r.pixels@.len() ==> #[trigger] r.pixels@[i] == ldr_of(
                    self.samples@[i] as int,
                ),
    {
        let mut out: Vec<u8> = Vec::with_capacity(self.samples.len());
        let mut i: usize = 0;
        while i < self.samples.len()
            invariant
                i <= self.samples@.len(),
                out@.len() == i,
                forall|j: int| 0 <= j < i ==> #[trigger] out@[j] == ldr_of(self.samples@[j] as int),
            decreases self.samples.len() - i,
        {
            out.push(to_ldr(self.samples[i] as i128));
            i = i + 1;
        }
        GrayImage { width: self.width, height: self.height, pixels: out }
    }
}

/// Foreground minus background at one pixel, in fixed point. Dark spots on a light plate
/// (`blobs_dark`) are subtracted as they are; for light spots on a dark plate both are first
/// inverted around 255, which turns the difference around.
pub open spec fn removal_difference(g: u8, b: i64, blobs_dark: bool) -> int {
    if blobs_dark {
        g * HDR_SCALE - b
    } else {
        b - g * HDR_SCALE
    }
}

/// Subtracts a fitted background from an 8-bit image: the difference at each pixel, clamped
/// at zero and to the 8-bit range. `None` when the two sizes differ.
pub fn remove_background(foreground: &GrayImage, background: &HdrGrayImage, blobs_dark: bool) -> (r:
    Option<GrayImage>)
    requires
        foreground.wf(),
        background.wf(),
    ensures
        r is Some <==> foreground.width == background.width && foreground.height
            == background.height,
        r matches Some(img) ==> {
            &&& img.wf()
            &&& img.width == foreground.width
            &&& img.height == foreground.height
            &&& forall|i: int|
                0 <= i < img.pixels@.len() ==> #[trigger] img.pixels@[i] == ldr_of(
                    removal_difference(foreground.pixels@[i], background.samples@[i], blobs_dark),
                )
        },
{
    if foreground.width != background.width || foreground.height != background.height {
        return None;
    }
    let n = foreground.pixels.len();
    let mut out: Vec<u8> = Vec::with_capacity(n);
    let mut i: usize = 0;
    while i < n
        invariant
            n == foreground.pixels@.len(),
            n == background.samples@.len(),
            i <= n,
            out@.len() == i,
            forall|j: int|
                0 <= j < i ==> #[trigger] out@[j] == ldr_of(
                    removal_difference(foreground.pixels@[j], background.samples@[j], blobs_dark),
                ),
        decreases n - i,
    {
        let g = foreground.pixels[i] as i128 * HDR_SCALE as i128;
        let b = background.samples[i] as i128;
        let d: i128 = if blobs_dark {
            g - b
        } else {
            b - g
        };
        out.push(to_ldr(d));
        i = i + 1;
    }
    Some(GrayImage { width: foreground.width, height: foreground.height, pixels: out })
}

} // verus!
