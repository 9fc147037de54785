use tlc::calibration::{reference_signals, signal_of};
use tlc::color::{has_potential_dark_blobs, RgbImage};
use tlc::hdr::{remove_background, HDRtoLDRGray, HdrGrayImage, LDRToHDRGray, HDR_SCALE};
use tlc::gray::{attenuate_generic, GrayImage, InvertGrayImage, SaturatingSub, StatsImage};
use tlc::poly::{build_input_target_from_image, coord_to_poly};

fn image(width: u32, height: u32, pixels: Vec<u8>) -> GrayImage {
    GrayImage::from_vec(width, height, pixels).unwrap()
}

#[test]
fn test_poly_gen() {
    let when: Vec<u128> = coord_to_poly(2, 3);
    let then: Vec<u128> = vec![2, 3, 4, 6, 9, 8, 12, 18, 27, 16, 24, 36, 54, 81];
    assert!(when.iter().zip(then.iter()).all(|(a, b)| a == b));
    assert_eq!(when.len(), 14);
}

#[test]
fn poly_basis_at_largest_coordinates_is_exact() {
    let m = u32::MAX as u128;
    let when = coord_to_poly(u32::MAX, 1);
    assert_eq!(when[9], m * m * m * m);
    assert_eq!(when[13], 1);
}

#[test]
fn from_vec_rejects_wrong_length() {
    assert!(GrayImage::from_vec(2, 2, vec![1, 2, 3]).is_none());
    assert!(GrayImage::from_vec(2, 2, vec![1, 2, 3, 4]).is_some());
}

#[test]
fn get_pixel_reads_row_major() {
    let img = image(3, 2, vec![0, 1, 2, 3, 4, 5]);
    assert_eq!(img.get_pixel(2, 0), 2);
    assert_eq!(img.get_pixel(0, 1), 3);
    assert_eq!(img.dimensions(), (3, 2));
}

#[test]
fn statistics_of_samples() {
    let img = image(3, 2, vec![10, 200, 30, 40, 50, 60]);
    assert_eq!(img.mean(), 65);
    assert_eq!(img.median(), 45);
    assert_eq!(img.max(), 200);
    assert_eq!(img.min(), 10);
    let odd = image(3, 1, vec![9, 1, 5]);
    assert_eq!(odd.median(), 5);
}

#[test]
fn median_of_two_bright_samples_does_not_overflow() {
    let img = image(2, 1, vec![250, 255]);
    assert_eq!(img.median(), 252);
}

#[test]
fn statistics_of_empty_image() {
    let img = image(0, 0, vec![]);
    assert_eq!(img.mean(), 0);
    assert_eq!(img.median(), 0);
    assert_eq!(img.max(), 0);
    assert_eq!(img.min(), 255);
}

#[test]
fn invert_reverses_intensities() {
    let img = image(2, 1, vec![0, 200]);
    let inv = img.invert();
    assert_eq!(inv.pixels, vec![255, 55]);
    assert_eq!(inv.dimensions(), (2, 1));
}

#[test]
fn saturating_sub_clamps_at_zero() {
    assert_eq!(SaturatingSub::saturating_sub(&200u8, &50u8), 150);
    assert_eq!(SaturatingSub::saturating_sub(&50u8, &200u8), 0);
}

#[test]
fn attenuate_clamps_to_byte_range() {
    assert_eq!(attenuate_generic(-5), 0);
    assert_eq!(attenuate_generic(0), 0);
    assert_eq!(attenuate_generic(128), 128);
    assert_eq!(attenuate_generic(255), 255);
    assert_eq!(attenuate_generic(1000), 255);
}

#[test]
fn training_samples_take_every_stride_th_pixel() {
    let img = image(4, 2, vec![0, 1, 2, 3, 4, 5, 6, 7]);
    let (input, target) = build_input_target_from_image(&img, 3);
    assert_eq!(target, vec![0, 3, 6]);
    assert_eq!(input.len(), 3);
    assert_eq!(input[1], coord_to_poly(3, 0));
    assert_eq!(input[2], coord_to_poly(2, 1));
    let (all_in, all_t) = build_input_target_from_image(&img, 1);
    assert_eq!(all_t.len(), 8);
    assert_eq!(all_in.len(), 8);
}

#[test]
fn reference_signals_join_by_identifier() {
    let signals = vec![(0u32, 584007u64), (1, 522476), (2, 627150), (3, 935728)];
    assert_eq!(signal_of(&signals, 2), Some(627150));
    assert_eq!(signal_of(&signals, 9), None);
    assert_eq!(reference_signals(&signals, &vec![3, 0]), Some(vec![935728, 584007]));
    assert_eq!(reference_signals(&signals, &vec![0, 7]), None);
    assert_eq!(reference_signals(&signals, &vec![]), Some(vec![]));
}

#[test]
fn rgb_from_vec_checks_length() {
    assert!(RgbImage::from_vec(2, 1, vec![1, 2, 3, 4, 5]).is_none());
    assert!(RgbImage::from_vec(2, 1, vec![1, 2, 3, 4, 5, 6]).is_some());
}

#[test]
fn polarity_heuristic_counts_every_pixel() {
    let img = RgbImage::from_vec(2, 2, vec![0, 10, 250, 0, 255, 0, 9, 9, 9, 200, 0, 100]).unwrap();
    assert!(has_potential_dark_blobs(&img));
    let empty = RgbImage::from_vec(0, 3, vec![]).unwrap();
    assert!(has_potential_dark_blobs(&empty));
}

#[test]
fn fixed_point_conversions_round_trip_and_clamp() {
    let img = image(3, 1, vec![0, 17, 255]);
    let hdr = LDRToHDRGray::convert(&img);
    assert_eq!(hdr.samples, vec![0, 17 * HDR_SCALE, 255 * HDR_SCALE]);
    assert_eq!(HDRtoLDRGray::convert(&hdr).pixels, img.pixels);
    let odd = HdrGrayImage::from_vec(5, 1, vec![-5, 0, 255, 256 * 300, 256 * 7 + 255]).unwrap();
    assert_eq!(HDRtoLDRGray::convert(&odd).pixels, vec![0, 0, 0, 255, 7]);
    assert!(HdrGrayImage::from_vec(2, 2, vec![0; 3]).is_none());
}

#[test]
fn background_removal_subtracts_and_clamps() {
    let fg = image(2, 1, vec![10, 200]);
    let bg = HdrGrayImage::from_vec(2, 1, vec![5 * 256, 250 * 256 + 100]).unwrap();
    assert_eq!(remove_background(&fg, &bg, true).unwrap().pixels, vec![5, 0]);
    assert_eq!(remove_background(&fg, &bg, false).unwrap().pixels, vec![0, 50]);
    let one = image(1, 1, vec![100]);
    let half = HdrGrayImage::from_vec(1, 1, vec![50 * 256]).unwrap();
    assert_eq!(remove_background(&one, &half, true).unwrap().pixels, vec![50]);
    let other = HdrGrayImage::from_vec(1, 2, vec![0, 0]).unwrap();
    assert!(remove_background(&fg, &other, false).is_none());
}
