use vstd::prelude::*;
use crate::gray::GrayImage;

verus! {

/// The fourteen bivariate monomials of degree one to four:
/// `x, y, x^2, xy, y^2, x^3, x^2y, xy^2, y^3, x^4, x^3y, x^2y^2, xy^3, y^4`.
pub open spec fn poly_basis(x: int, y: int) -> Seq<int> {
    seq![
        x,
        y,
        x * x,
        x * y,
        y * y,
        x * x * x,
        x * x * y,
        x * y * y,
        y * y * y,
        x * x * x * x,
        x * x * x * y,
        x * x * y * y,
        x * y * y * y,
        y * y * y * y,
    ]
}

proof fn lemma_product_bound(a: int, b: int, ma: int, mb: int)
    requires
        0 <= a <= ma,
        0 <= b <= mb,
    ensures
        0 <= a * b <= ma * mb,
{
    assert(0 <= a * b <= ma * mb) by (nonlinear_arith)
        requires
            0 <= a <= ma,
            0 <= b <= mb,
    ;
}

/// The polynomial basis at pixel `(x, y)`, exact in 128 bits.
pub fn coord_to_poly(x: u32, y: u32) -> (r: Vec<u128>)
    ensures
        r@.len() == 14,
        forall|i: int| 0 <= i < 14 ==> r@[i] as int == #[trigger] poly_basis(x as int, y as int)[i],
{
    let ghost m: int = 0xffff_ffff;
    let xx: u128 = x as u128;
    let yy: u128 = y as u128;
    proof {
        lemma_product_bound(x as int, x as int, m, m);
        lemma_product_bound(x as int, y as int, m, m);
        lemma_product_bound(y as int, y as int, m, m);
        lemma_product_bound(x as int * x as int, x as int, m * m, m);
        lemma_product_bound(x as int * x as int, y as int, m * m, m);
        lemma_product_bound(x as int * y as int, y as int, m * m, m);
        lemma_product_bound(y as int * y as int, y as int, m * m, m);
        lemma_product_bound(x as int * x as int * x as int, x as int, m * m * m, m);
        lemma_product_bound(x as int * x as int * x as int, y as int, m * m * m, m);
        lemma_product_bound(x as int * x as int * y as int, y as int, m * m * m, m);
        lemma_product_bound(x as int * y as int * y as int, y as int, m * m * m, m);
        lemma_product_bound(y as int * y as int * y as int, y as int, m * m * m, m);
    }
    let x2 = xx * xx;
    let xy = xx * yy;
    let y2 = yy * yy;
    let x3 = x2 * xx;
    let x2y = x2 * yy;
    let xy2 = xy * yy;
    let y3 = y2 * yy;
    let r = vec![
        xx,
        yy,
        x2,
        xy,
        y2,
        x3,
        x2y,
        xy2,
        y3,
        x3 * xx,
        x3 * yy,
        x2y * yy,
        xy2 * yy,
        y3 * yy,
    ];
    proof {
        assert(r@[0] == xx && r@[1] == yy);
    }
    r
}

/// Training data of the background fit: every `stride`-th pixel in raster order, from the
/// first one on, as its polynomial basis and its sample.
pub fn build_input_target_from_image(image: &GrayImage, stride: u32) -> (r: (
    Vec<Vec<u128>>,
    Vec<u8>,
))
    requires
        image.wf(),
        stride > 0,
    ensures
        r.0@.len() == r.1@.len(),
        r.1@.len() * stride >= image.pixels@.len(),
        r.1@.len() > 0 ==> (r.1@.len() - 1) * stride < image.pixels@.len(),
        forall|j: int| 0 <= j < r.1@.len() ==> #[trigger] r.1@[j] == image.pixels@[j * stride],
        forall|j: int| 0 <= j < r.1@.len() ==> (#[trigger] r.0@[j])@.len() == 14,
        forall|j: int, t: int|
            0 <= j < r.1@.len() && 0 <= t < 14 ==> (#[trigger] r.0@[j]@[t]) as int == poly_basis(
                (j * stride) % image.width as int,
                (j * stride) / image.width as int,
            )[t],
{
    let n = image.pixels.len();
    let w = image.width;
    let mut input: Vec<Vec<u128>> = Vec::new();
    let mut target: Vec<u8> = Vec::new();
    if n == 0 {
        return (input, target);
    }
    proof {
        if w == 0 {
            assert(w as int * image.height as int == 0) by (nonlinear_arith)
                requires
                    w == 0,
            ;
        }
    }
    let mut pos: u128 = 0;
    let ghost mut cnt: int = 0;
    while pos < n as u128
        invariant
            image.wf(),
            n == image.pixels@.len(),
            w == image.width,
            0 < w,
            stride > 0,
            pos == cnt * stride,
            0 <= cnt,
            input@.len() == cnt,
            target@.len() == cnt,
            pos <= n + stride,
            cnt > 0 ==> (cnt - 1) * stride < n,
            forall|k: int| 0 <= k < cnt ==> #[trigger] target@[k] == image.pixels@[k * stride],
            forall|k: int| 0 <= k < cnt ==> (#[trigger] input@[k])@.len() == 14,
            forall|k: int, t: int|
                0 <= k < cnt && 0 <= t < 14 ==> (#[trigger] input@[k]@[t]) as int == poly_basis(
                    (k * stride) % w as int,
                    (k * stride) / w as int,
                )[t],
        decreases n + stride - pos,
    {
        let i: usize = pos as usize;
        let x: u32 = (i % (w as usize)) as u32;
        let yq: usize = i / (w as usize);
        proof {
            assert(yq < image.height) by (nonlinear_arith)
                requires
                    yq as int == i as int / (w as int),
                    i < w * image.height,
                    0 < w,
            ;
        }
        let y: u32 = yq as u32;
        input.push(coord_to_poly(x, y));
        target.push(image.pixels[i]);
        proof {
            cnt = cnt + 1;
            assert(cnt * stride == (cnt - 1) * stride + stride) by (nonlinear_arith);
        }
        pos = pos + stride as u128;
    }
    (input, target)
}

} // verus!
