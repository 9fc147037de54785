use tlc::blobs::{blobs_from_labels, detect_blobs};
use tlc::geometry::{Circle, Point, Quad};
use tlc::gray::{GrayImage, SaturatingSub};
use tlc::integration::{
    find_bounding_box_from_blobs, find_scaling, integrate_spot, integrate_spots,
};
use tlc::labelling::{get_labeled_regions, BlobParams};

fn image(width: u32, height: u32, pixels: Vec<u8>) -> GrayImage {
    GrayImage::from_vec(width, height, pixels).unwrap()
}

/// Cone-shaped spots `(cx, cy, r, peak)` on a black 100 by 100 image.
fn spots(list: &[(i64, i64, i64, i64)]) -> Vec<u8> {
    let mut px = Vec::new();
    for y in 0..100i64 {
        for x in 0..100i64 {
            let mut v = 0i64;
            for &(cx, cy, r, peak) in list {
                let d2 = (x - cx) * (x - cx) + (y - cy) * (y - cy);
                if d2 < r * r {
                    v += peak * (r * r - d2) / (r * r);
                }
            }
            px.push(v.min(255) as u8);
        }
    }
    px
}

fn background(x: i64, y: i64) -> i64 {
    20 + x / 10 + y / 20 + (x * y) / 2000
}

fn rescale(v: u8, lo: u8, hi: u8) -> u64 {
    if hi <= lo || v <= lo {
        0
    } else {
        (((v - lo) as u64) * 255 / ((hi - lo) as u64)).min(255)
    }
}

fn window(img: &GrayImage, c: &Circle) -> Vec<u8> {
    let mut out = Vec::new();
    let x0 = (c.center.x - c.radius).max(0);
    let x1 = (c.center.x + c.radius).min(img.width as i64);
    let y0 = (c.center.y - c.radius).max(0);
    let y1 = (c.center.y + c.radius).min(img.height as i64);
    for y in y0..y1 {
        for x in x0..x1 {
            out.push(img.get_pixel(x as u32, y as u32));
        }
    }
    out
}

#[test]
fn end_to_end_spots_are_found_and_ranked() {
    let clean = spots(&[(30, 30, 8, 200), (70, 65, 8, 120)]);
    let mut raw = Vec::new();
    for y in 0..100i64 {
        for x in 0..100i64 {
            raw.push((clean[(y * 100 + x) as usize] as i64 + background(x, y)).min(255) as u8);
        }
    }
    let mut cleaned = Vec::new();
    for y in 0..100i64 {
        for x in 0..100i64 {
            let b = background(x, y) as u8;
            cleaned.push(SaturatingSub::saturating_sub(&raw[(y * 100 + x) as usize], &b));
        }
    }
    let img = image(100, 100, cleaned);
    let blobs = detect_blobs(&img, &BlobParams::standard());
    assert_eq!(blobs.len(), 2);
    let (k0, c0) = blobs[0];
    let (k1, c1) = blobs[1];
    assert!(k0 < k1);
    assert!((c0.center.x - 30).abs() <= 1 && (c0.center.y - 30).abs() <= 1);
    assert!((c1.center.x - 70).abs() <= 1 && (c1.center.y - 65).abs() <= 1);
    assert_eq!(c0.radius, 9);
    let signals = integrate_spots(&img, &blobs, 1000);
    assert_eq!(signals.len(), 2);
    assert_eq!(signals[0].0, k0);
    assert_eq!(signals[1].0, k1);
    assert!(signals[0].1 > signals[1].1);
}

#[test]
fn elongated_and_tiny_regions_are_rejected() {
    let mut px = vec![0u8; 100 * 100];
    for y in 10..13 {
        for x in 10..50 {
            px[y * 100 + x] = 200;
        }
    }
    px[80 * 100 + 80] = 200;
    let img = image(100, 100, px);
    let blobs = detect_blobs(&img, &BlobParams::standard());
    assert!(blobs.is_empty());
    assert!(integrate_spots(&img, &blobs, 1000).is_empty());
}

#[test]
fn thresholding_at_the_mean_merges_levels() {
    let img = image(5, 1, vec![0, 3, 10, 0, 10]);
    let labels = get_labeled_regions(&img, &BlobParams::standard());
    assert_eq!(labels, vec![0, 0, 1, 0, 2]);
}

#[test]
fn components_are_four_connected() {
    let img = image(3, 3, vec![9, 0, 9, 0, 9, 0, 9, 9, 9]);
    let labels = get_labeled_regions(&img, &BlobParams::standard());
    assert_eq!(labels, vec![1, 0, 2, 0, 3, 0, 3, 3, 3]);
}

#[test]
fn opening_removes_isolated_specks() {
    let mut px = vec![0u8; 100];
    for y in 2..8 {
        for x in 2..8 {
            px[y * 10 + x] = 200;
        }
    }
    px[9 * 10 + 0] = 200;
    let img = image(10, 10, px);
    let params = BlobParams { open_per_ten_thousand: 1000, ..BlobParams::standard() };
    let labels = get_labeled_regions(&img, &params);
    assert_eq!(labels[9 * 10 + 0], 0);
    assert_eq!(labels[5 * 10 + 5], 1);
    assert_eq!(*labels.iter().max().unwrap(), 1);
}

#[test]
fn zero_intensity_blob_is_centred_at_box_corner() {
    let img = image(100, 100, vec![0u8; 100 * 100]);
    let mut labels = vec![0u32; 100 * 100];
    for y in 40..50 {
        for x in 60..70 {
            labels[y * 100 + x] = 3;
        }
    }
    let blobs = blobs_from_labels(&img, &labels, &BlobParams::standard());
    assert_eq!(blobs.len(), 1);
    assert_eq!(blobs[0].0, 3);
    assert_eq!(blobs[0].1.center, Point { x: 60, y: 40 });
    assert_eq!(blobs[0].1.radius, 0);
}

#[test]
fn weighted_centroid_and_radius_from_labels() {
    let mut px = vec![0u8; 100 * 100];
    let mut labels = vec![0u32; 100 * 100];
    for y in 20..30 {
        for x in 20..30 {
            labels[y * 100 + x] = 1;
            px[y * 100 + x] = 10;
        }
    }
    px[29 * 100 + 29] = 255;
    let img = image(100, 100, px);
    let blobs = blobs_from_labels(&img, &labels, &BlobParams::standard());
    assert_eq!(blobs.len(), 1);
    let mut sw = 0u64;
    let mut sx = 0u64;
    for y in 20..30u64 {
        for x in 20..30u64 {
            let p = img.get_pixel(x as u32, y as u32) as u64;
            sw += p;
            sx += x * p;
        }
    }
    let cx = (sx / sw) as i64;
    assert_eq!(blobs[0].1.center, Point { x: cx, y: cx });
    let d2 = (cx - 20) * (cx - 20) * 2;
    let d2_far = (29 - cx) * (29 - cx) * 2;
    let m = d2.min(d2_far);
    let mut r = 0i64;
    while (r + 1) * (r + 1) <= m {
        r += 1;
    }
    assert_eq!(blobs[0].1.radius, r);
}

#[test]
fn bounding_box_covers_all_squares() {
    let blobs = vec![(1u32, Circle::new(30, 30, 5)), (2, Circle::new(60, 20, 3))];
    let q = find_bounding_box_from_blobs(100, 80, &blobs);
    assert_eq!(
        q,
        Quad {
            top_left: Point { x: 25, y: 17 },
            top_right: Point { x: 63, y: 17 },
            bottom_right: Point { x: 63, y: 35 },
            bottom_left: Point { x: 25, y: 35 },
        }
    );
    let empty = find_bounding_box_from_blobs(100, 80, &vec![]);
    assert_eq!(empty.top_left, Point { x: 99, y: 79 });
    assert_eq!(empty.bottom_right, Point { x: 0, y: 0 });
}

#[test]
fn scaling_is_range_of_covering_box() {
    let mut px = vec![50u8; 100 * 100];
    px[30 * 100 + 30] = 7;
    px[22 * 100 + 60] = 190;
    px[90 * 100 + 90] = 255;
    px[0] = 0;
    let img = image(100, 100, px);
    let blobs = vec![(1u32, Circle::new(30, 30, 5)), (2, Circle::new(60, 20, 3))];
    assert_eq!(find_scaling(&img, &blobs), (7, 190));
    assert_eq!(find_scaling(&img, &vec![]), (255, 0));
}

#[test]
fn full_cutoff_sums_window_and_zero_cutoff_is_zero() {
    let img = image(100, 100, spots(&[(40, 40, 10, 180)]));
    let c = Circle::new(40, 40, 6);
    let expected: u64 = window(&img, &c).iter().map(|&v| rescale(v, 20, 180)).sum();
    assert_eq!(integrate_spot(&img, &c, 20, 180, 1000), expected);
    assert_eq!(integrate_spot(&img, &c, 20, 180, 0), 0);
    assert!(expected > 0);
}

#[test]
fn partial_cutoff_sums_largest_values() {
    let img = image(100, 100, spots(&[(40, 40, 10, 180)]));
    let c = Circle::new(40, 40, 6);
    let mut vals: Vec<u64> = window(&img, &c).iter().map(|&v| rescale(v, 0, 180)).collect();
    vals.sort_by(|a, b| b.cmp(a));
    let k = vals.len() * 337 / 1000;
    let expected: u64 = vals[..k].iter().sum();
    assert_eq!(integrate_spot(&img, &c, 0, 180, 337), expected);
}

#[test]
fn window_is_cut_to_the_image() {
    let img = image(100, 100, vec![100u8; 100 * 100]);
    let c = Circle::new(2, 98, 5);
    // window [0, 7) x [93, 100): 49 samples, each rescaled to 255 by the range [0, 100]
    assert_eq!(integrate_spot(&img, &c, 0, 100, 1000), 49 * 255);
}

#[test]
fn flat_range_rescales_to_zero() {
    let img = image(100, 100, vec![100u8; 100 * 100]);
    let c = Circle::new(50, 50, 5);
    assert_eq!(integrate_spot(&img, &c, 100, 100, 1000), 0);
}

#[test]
fn raster_without_background_pixel_has_no_regions() {
    let single = image(1, 1, vec![5]);
    assert_eq!(get_labeled_regions(&single, &BlobParams::standard()), vec![0]);
    assert!(detect_blobs(&single, &BlobParams::standard()).is_empty());
    let checker = image(2, 2, vec![10, 200, 200, 10]);
    assert_eq!(get_labeled_regions(&checker, &BlobParams::standard()), vec![0, 0, 0, 0]);
    assert!(detect_blobs(&checker, &BlobParams::standard()).is_empty());
}

#[test]
fn repeated_identifier_gives_one_entry_each() {
    let img = image(100, 100, spots(&[(40, 40, 10, 180)]));
    let blobs = vec![(7u32, Circle::new(40, 40, 6)), (7, Circle::new(40, 40, 3))];
    let signals = integrate_spots(&img, &blobs, 1000);
    assert_eq!(signals.len(), 2);
    assert_eq!((signals[0].0, signals[1].0), (7, 7));
    assert!(signals[0].1 > signals[1].1);
}

#[test]
fn spots_found_when_least_sample_is_not_black() {
    let mut px = vec![5u8; 100 * 100];
    for y in 20..32 {
        for x in 20..32 {
            px[y * 100 + x] = 200;
        }
    }
    let img = image(100, 100, px);
    let blobs = detect_blobs(&img, &BlobParams::standard());
    assert_eq!(blobs.len(), 1);
    assert_eq!(blobs[0].0, 2);
    assert_eq!(blobs[0].1.center, Point { x: 25, y: 25 });
}
