use linregress::{FormulaRegressionBuilder, RegressionDataBuilder};
use tlc::blobs::detect_blobs;
use tlc::gray::GrayImage;
use tlc::hdr::{remove_background, HdrGrayImage, HDR_SCALE};
use tlc::integration::integrate_spots;
use tlc::labelling::BlobParams;
use tlc::poly::{build_input_target_from_image, coord_to_poly};

/// Least-squares fit of the polynomial basis to every pixel, evaluated back on the grid.
fn fit_and_evaluate(img: &GrayImage) -> Vec<f64> {
    fit_and_evaluate_every(img, 1)
}

fn fit_and_evaluate_every(img: &GrayImage, stride: u32) -> Vec<f64> {
    let (input, target) = build_input_target_from_image(img, stride);
    let mut data: Vec<(String, Vec<f64>)> =
        vec![("Y".to_string(), target.iter().map(|v| *v as f64).collect())];
    let mut names = Vec::new();
    for t in 0..14 {
        let name = format!("X{}", t + 1);
        data.push((name.clone(), input.iter().map(|row| row[t] as f64).collect()));
        names.push(name);
    }
    let formula = format!("Y ~ {}", names.join(" + "));
    let reg = RegressionDataBuilder::new().build_from(data).unwrap();
    let fitted = FormulaRegressionBuilder::new()
        .data(&reg)
        .formula(formula)
        .fit_without_statistics()
        .unwrap();
    let mut out = Vec::new();
    for y in 0..img.height {
        for x in 0..img.width {
            let poly = coord_to_poly(x, y);
            let v: f64 = poly.iter().zip(fitted[1..].iter()).map(|(a, b)| *a as f64 * b).sum();
            out.push(v + fitted[0]);
        }
    }
    out
}

#[test]
fn background_fit_reproduces_a_ramp() {
    let (w, h) = (100u32, 100u32);
    let raw: Vec<u8> = (0..w * h).map(|i| ((i as f64 / (w * h) as f64) * 255.0) as u8).collect();
    let img = GrayImage::from_vec(w, h, raw.clone()).unwrap();
    let fitted = fit_and_evaluate(&img);
    for i in 0..raw.len() {
        assert!((fitted[i] - raw[i] as f64).abs() <= 1.0);
    }
}

#[test]
fn background_fit_reproduces_a_quartic_surface() {
    let (w, h) = (60u32, 40u32);
    let surface = |x: f64, y: f64| 40.0 + 0.8 * x - 0.5 * y + 0.0002 * x * x * y - 0.000002 * x * x * x * x;
    let raw: Vec<u8> = (0..w * h)
        .map(|i| surface((i % w) as f64, (i / w) as f64).round().clamp(0.0, 255.0) as u8)
        .collect();
    let img = GrayImage::from_vec(w, h, raw.clone()).unwrap();
    let fitted = fit_and_evaluate(&img);
    for i in 0..raw.len() {
        assert!((fitted[i] - raw[i] as f64).abs() <= 1.0);
    }
}

#[test]
fn pipeline_with_fitted_background_ranks_spots() {
    let (w, h) = (100u32, 100u32);
    let spots = [(30i64, 30i64, 8i64, 120i64), (70, 65, 8, 60)];
    let mut raw = Vec::new();
    for y in 0..h as i64 {
        for x in 0..w as i64 {
            let mut v = 30.0 + 0.4 * x as f64 + 0.2 * y as f64 + 0.002 * (x * y) as f64;
            for &(cx, cy, r, peak) in spots.iter() {
                let d2 = (x - cx) * (x - cx) + (y - cy) * (y - cy);
                if d2 < r * r {
                    v += (peak * (r * r - d2) / (r * r)) as f64;
                }
            }
            raw.push(v.round().clamp(0.0, 255.0) as u8);
        }
    }
    let img = GrayImage::from_vec(w, h, raw).unwrap();
    let surface = fit_and_evaluate_every(&img, 16);
    let samples: Vec<i64> = surface.iter().map(|v| (v * HDR_SCALE as f64).round() as i64).collect();
    let background = HdrGrayImage::from_vec(w, h, samples).unwrap();
    let cleaned = remove_background(&img, &background, true).unwrap();
    let blobs = detect_blobs(&cleaned, &BlobParams::standard());
    let near = |x: i64, y: i64| {
        blobs
            .iter()
            .position(|(_, c)| (c.center.x - x).abs() <= 2 && (c.center.y - y).abs() <= 2)
            .expect("every implanted spot is detected near its center")
    };
    let (bright, dim) = (near(30, 30), near(70, 65));
    let signals = integrate_spots(&cleaned, &blobs, 1000);
    assert!(signals[bright].1 > signals[dim].1);
}
