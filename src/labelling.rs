use vstd::prelude::*;
use crate::geometry::lemma_u64_products_fit;
use crate::gray::{GrayImage, StatsImage, seq_sum};

verus! {

/// The result of a morphological opening (erosion, then dilation, under the L-infinity
/// norm with radius `k`) of a `width` by `height` binary raster.
pub uninterp spec fn opened_of(pixels: Seq<u8>, width: nat, height: nat, k: nat) -> Seq<u8>;

/// The 4-connected component labels of a `width` by `height` raster whose pixels equal to
/// `background` are background.
pub uninterp spec fn labels_of(pixels: Seq<u8>, width: nat, height: nat, background: u8) -> Seq<
    u32,
>;

/// Relies on `imageproc::contrast::threshold`: samples above `thresh` become 255, the others 0.
#[verifier::external_body]
fn threshold(width: u32, height: u32, pixels: &Vec<u8>, thresh: u8) -> (r: Vec<u8>)
    requires
        pixels@.len() == width as int * height as int,
    ensures
        r@.len() == pixels@.len(),
        forall|i: int|
            0 <= i < r@.len() ==> #[trigger] r@[i] == if pixels@[i] > thresh {
                255u8
            } else {
                0u8
            },
{
    let img = image::GrayImage::from_raw(width, height, pixels.clone()).unwrap();
    imageproc::contrast::threshold(&img, thresh).into_raw()
}

/// Relies on `imageproc::morphology::open` with `Norm::LInf`: a raster of the same size,
/// depending on the input alone. Its distance transform adds width and height as `u32`.
#[verifier::external_body]
fn open(width: u32, height: u32, pixels: &Vec<u8>, k: u8) -> (r: Vec<u8>)
    requires
        pixels@.len() == width as int * height as int,
        width as int + height as int <= u32::MAX,
    ensures
        r@ == opened_of(pixels@, width as nat, height as nat, k as nat),
        r@.len() == pixels@.len(),
{
    let img = image::GrayImage::from_raw(width, height, pixels.clone()).unwrap();
    imageproc::morphology::open(&img, imageproc::distance_transform::Norm::LInf, k).into_raw()
}

/// Relies on `imageproc::region_labelling::connected_components` with `Connectivity::Four`:
/// one label per pixel, 0 exactly on the pixels equal to `background`. It panics on images
/// of `2^32` pixels or more. Its union-find holds one slot per pixel while provisional labels
/// start at 1, and a pixel opens a new provisional label unless it is background or equals
/// its west or north neighbour; so it also panics on a non-empty raster where every pixel
/// opens one, that is, without a background pixel and without two equal 4-neighbours.
#[verifier::external_body]
fn connected_components(width: u32, height: u32, pixels: &Vec<u8>, background: u8) -> (r: Vec<
    u32,
>)
    requires
        pixels@.len() == width as int * height as int,
        pixels@.len() < 0x1_0000_0000,
        pixels@.len() == 0 || has_level(pixels@, background) || has_equal_neighbour(
            pixels@,
            width as int,
        ),
    ensures
        r@ == labels_of(pixels@, width as nat, height as nat, background),
        r@.len() == pixels@.len(),
        forall|i: int| 0 <= i < r@.len() ==> (#[trigger] r@[i] == 0) == (pixels@[i] == background),
{
    let img = image::GrayImage::from_raw(width, height, pixels.clone()).unwrap();
    imageproc::region_labelling::connected_components(
        &img,
        imageproc::region_labelling::Connectivity::Four,
        image::Luma([background]),
    ).into_raw()
}

/// Tunable bounds of blob detection, in parts per thousand (the opening radius in parts per
/// ten thousand) of the image's larger side or of a square's aspect ratio.
#[derive(Clone, Copy, Debug, PartialEq, Eq, Structural)]
pub struct BlobParams {
    pub open_per_ten_thousand: u32,
    pub aspect_min_permille: u32,
    pub aspect_max_permille: u32,
    pub size_min_permille: u32,
    pub size_max_permille: u32,
}

impl BlobParams {
    /// Opening at 0.75% of the larger side; aspect ratio within 25% and 175%; width and
    /// height within 2% and 25% of the larger side.
    pub fn standard() -> (r: BlobParams)
        ensures
            r == (BlobParams {
                open_per_ten_thousand: 75,
                aspect_min_permille: 250,
                aspect_max_permille: 1750,
                size_min_permille: 20,
                size_max_permille: 250,
            }),
    {
        BlobParams {
            open_per_ten_thousand: 75,
            aspect_min_permille: 250,
            aspect_max_permille: 1750,
            size_min_permille: 20,
            size_max_permille: 250,
        }
    }
}

/// Larger side of a `width` by `height` image.
pub open spec fn max_dim(width: u32, height: u32) -> int {
    if width >= height {
        width as int
    } else {
        height as int
    }
}

/// Radius of the opening: the fraction of the larger side, at most 255.
pub open spec fn open_radius(width: u32, height: u32, p: BlobParams) -> int {
    let k = max_dim(width, height) * p.open_per_ten_thousand / 10000;
    if k > 255 {
        255
    } else {
        k
    }
}

/// Floor of the mean sample, 0 for an empty image.
pub open spec fn mean_level(s: Seq<u8>) -> u8 {
    if s.len() == 0 {
        0
    } else {
        (seq_sum(s) / s.len() as int) as u8
    }
}

/// The least sample, 255 for an empty image.
pub open spec fn is_min_level(s: Seq<u8>, m: u8) -> bool {
    &&& forall|i: int| 0 <= i < s.len() ==> m <= #[trigger] s[i]
    &&& s.len() > 0 ==> exists|i: int| 0 <= i < s.len() && s[i] == m
    &&& s.len() == 0 ==> m == 255
}

/// Binary raster: 255 where a sample exceeds `t`, else 0.
pub open spec fn thresholded(s: Seq<u8>, t: u8) -> Seq<u8> {
    Seq::new(
        s.len(),
        |i: int|
            if s[i] > t {
                255u8
            } else {
                0u8
            },
    )
}

/// Whether some sample of `s` equals `m`.
pub open spec fn has_level(s: Seq<u8>, m: u8) -> bool {
    exists|i: int| 0 <= i < s.len() && s[i] == m
}

/// Pixel `i` of a raster `w` pixels wide equals its west or north neighbour.
pub open spec fn equals_a_neighbour(s: Seq<u8>, w: int, i: int) -> bool {
    (i % w != 0 && s[i] == s[i - 1]) || (i >= w && s[i] == s[i - w])
}

/// Whether some pixel of a raster `w` pixels wide equals its west or north neighbour.
pub open spec fn has_equal_neighbour(s: Seq<u8>, w: int) -> bool {
    exists|i: int| 0 <= i < s.len() && #[trigger] equals_a_neighbour(s, w, i)
}

/// Whether some pixel of a raster `width` pixels wide equals its west or north neighbour.
fn find_equal_neighbour(s: &Vec<u8>, width: u32) -> (r: bool)
    requires
        width > 0,
    ensures
        r == has_equal_neighbour(s@, width as int),
{
    let w = width as usize;
    let mut i: usize = 0;
    while i < s.len()
        invariant
            w == width,
            w > 0,
            i <= s@.len(),
            forall|j: int| 0 <= j < i ==> !#[trigger] equals_a_neighbour(s@, w as int, j),
        decreases s.len() - i,
    {
        if i > 0 && i % w != 0 && s[i] == s[i - 1] {
            assert(equals_a_neighbour(s@, w as int, i as int));
            return true;
        }
        if i >= w && s[i] == s[i - w] {
            assert(equals_a_neighbour(s@, w as int, i as int));
            return true;
        }
        i = i + 1;
    }
    false
}

/// The binary raster that spot regions are labelled on: thresholded at the mean sample, then
/// opened with a radius proportional to the larger side.
pub open spec fn opened_raster(image: GrayImage, params: BlobParams) -> Seq<u8> {
    opened_of(
        thresholded(image.pixels@, mean_level(image.pixels@)),
        image.width as nat,
        image.height as nat,
        open_radius(image.width, image.height, params) as nat,
    )
}

/// The labels that `get_labeled_regions` gives an image whose least sample is `m`: the
/// components of the opened raster with `m` as background; all zero (no region) only for a
/// raster without a pixel equal to `m` and without two equal 4-neighbours, such as a single
/// pixel or a checkerboard.
pub open spec fn region_labels(image: GrayImage, params: BlobParams, m: u8) -> Seq<u32> {
    let opened = opened_raster(image, params);
    if opened.len() == 0 || has_level(opened, m) || has_equal_neighbour(opened, image.width as int) {
        labels_of(opened, image.width as nat, image.height as nat, m)
    } else {
        Seq::new(opened.len(), |i: int| 0u32)
    }
}

/// Whether some sample of `s` equals `m`.
fn contains_level(s: &Vec<u8>, m: u8) -> (r: bool)
    ensures
        r == has_level(s@, m),
{
    let mut i: usize = 0;
    while i < s.len()
        invariant
            i <= s@.len(),
            forall|j: int| 0 <= j < i ==> s@[j] != m,
        decreases s.len() - i,
    {
        if s[i] == m {
            return true;
        }
        i = i + 1;
    }
    false
}

/// Labels the spot regions of an image: threshold at the mean sample, open with a radius
/// proportional to the larger side, then label 4-connected components, taking the image's
/// least sample as the background value. A raster without a pixel of that value and without
/// two equal 4-neighbours (a single pixel, a checkerboard) gets every label 0.
pub fn get_labeled_regions(image: &GrayImage, params: &BlobParams) -> (r: Vec<u32>)
    requires
        image.wf(),
        image.pixels@.len() < 0x1_0000_0000,
        image.width as int + image.height as int <= u32::MAX,
    ensures
        r@.len() == image.pixels@.len(),
        exists|m: u8|
            #[trigger] is_min_level(image.pixels@, m) && r@ == region_labels(*image, *params, m),
{
    let thresh = image.mean();
    let (width, height) = image.dimensions();
    let max_side: u32 = if width >= height {
        width
    } else {
        height
    };
    proof {
        lemma_u64_products_fit(max_side as u64, params.open_per_ten_thousand as u64);
    }
    let k128: u128 = (max_side as u128) * (params.open_per_ten_thousand as u128) / 10000;
    let k: u8 = if k128 > 255 {
        255
    } else {
        k128 as u8
    };
    let binary = threshold(width, height, &image.pixels, thresh);
    proof {
        assert(binary@ =~= thresholded(image.pixels@, mean_level(image.pixels@)));
    }
    let opened = open(width, height, &binary, k);
    let background = image.min();
    proof {
        assert(is_min_level(image.pixels@, background));
        assert(opened@ == opened_raster(*image, *params));
        if width == 0 {
            assert(width as int * height as int == 0) by (nonlinear_arith)
                requires
                    width == 0,
            ;
        }
    }
    if opened.len() == 0 || contains_level(&opened, background) || (width > 0
        && find_equal_neighbour(&opened, width)) {
        connected_components(width, height, &opened, background)
    } else {
        let mut none: Vec<u32> = Vec::new();
        let mut i: usize = 0;
        while i < opened.len()
            invariant
                i <= opened@.len(),
                none@ == Seq::new(i as nat, |j: int| 0u32),
            decreases opened.len() - i,
        {
            none.push(0);
            proof {
                assert(none@ =~= Seq::new((i + 1) as nat, |j: int| 0u32));
            }
            i = i + 1;
        }
        none
    }
}

} // verus!
