use screen_match::correlate::{best_match, cross_at};
use screen_match::cv::{match_grids, match_normalized, MatchError};
use screen_match::luma::{grid_area, LumaError, LumaImage};
use screen_match::normalize::{normalize, ZeroArea};
use screen_match::score::{correlation_ppm, MAX_ENERGY, PPM};
use screen_match::wide::{wide_product, Wide};

fn grid(width: u32, height: u32, data: Vec<u8>) -> LumaImage {
    LumaImage::new(width, height, data).unwrap()
}

#[test]
fn wide_product_of_small_numbers() {
    let w = wide_product(6, 7);
    assert_eq!((w.hi, w.lo), (0, 42));
    let z = wide_product(0, u128::MAX);
    assert_eq!((z.hi, z.lo), (0, 0));
}

#[test]
fn wide_product_carries_into_the_high_word() {
    let w = wide_product(1u128 << 64, 1u128 << 64);
    assert_eq!((w.hi, w.lo), (1, 0));
    let m = wide_product(u128::MAX, u128::MAX);
    assert_eq!((m.hi, m.lo), (u128::MAX - 1, 1));
    let k = wide_product(u128::MAX, 2);
    assert_eq!((k.hi, k.lo), (1, u128::MAX - 1));
    let p = wide_product(0xffff_ffff_ffff_ffff, 0xffff_ffff_ffff_ffff);
    assert_eq!((p.hi, p.lo), (0, 0xffff_ffff_ffff_fffe_0000_0000_0000_0001));
}

#[test]
fn wide_numbers_compare_by_value() {
    let small = Wide { hi: 0, lo: u128::MAX };
    let large = Wide { hi: 1, lo: 0 };
    assert!(small.at_most(&large));
    assert!(!large.at_most(&small));
    assert!(large.at_most(&large));
    assert!(Wide { hi: 3, lo: 4 }.at_most(&Wide { hi: 3, lo: 5 }));
    assert!(!Wide { hi: 3, lo: 5 }.at_most(&Wide { hi: 3, lo: 4 }));
}

#[test]
fn grid_area_is_the_product() {
    assert_eq!(grid_area(0, 7), 0);
    assert_eq!(grid_area(200, 150), 30_000);
    assert_eq!(grid_area(u32::MAX, u32::MAX), 18_446_744_065_119_617_025);
}

#[test]
fn luma_image_keeps_size_and_pixels() {
    let img = grid(3, 2, vec![1, 2, 3, 4, 5, 6]);
    assert_eq!(img.width(), 3);
    assert_eq!(img.height(), 2);
    assert_eq!(img.pixels(), &vec![1, 2, 3, 4, 5, 6]);
    assert_eq!(img.pixel(0, 0), 1);
    assert_eq!(img.pixel(2, 0), 3);
    assert_eq!(img.pixel(0, 1), 4);
    assert_eq!(img.pixel(2, 1), 6);
}

#[test]
fn luma_image_rejects_a_wrong_length() {
    assert_eq!(LumaImage::new(3, 2, vec![0; 5]).unwrap_err(), LumaError::LengthMismatch);
    assert_eq!(LumaImage::new(3, 2, vec![0; 7]).unwrap_err(), LumaError::LengthMismatch);
    assert_eq!(LumaImage::new(0, 2, vec![0; 1]).unwrap_err(), LumaError::LengthMismatch);
}

#[test]
fn luma_image_rejects_too_many_pixels() {
    let n: usize = 16_385 * 16_384;
    assert_eq!(LumaImage::new(16_385, 16_384, vec![0; n]).unwrap_err(), LumaError::TooLarge);
}

#[test]
fn luma_image_accepts_the_largest_size() {
    let n: usize = 16_384 * 16_384;
    let img = LumaImage::new(16_384, 16_384, vec![0; n]).unwrap();
    assert_eq!(img.width(), 16_384);
    assert_eq!(img.pixels().len(), 268_435_456);
}

#[test]
fn normalize_subtracts_the_mean() {
    // Two pixels, mean 127.5: the deviations are -127.5 and 127.5, kept
    // doubled.
    let n = normalize(&grid(2, 1, vec![0, 255])).unwrap();
    assert_eq!(n.width(), 2);
    assert_eq!(n.height(), 1);
    assert_eq!(n.values(), &vec![-255, 255]);
    assert_eq!(n.sum_squares(), 130_050);
}

#[test]
fn normalize_keeps_deviations_times_pixel_count() {
    // Sum 10 over four pixels: 4 * pixel - 10.
    let n = normalize(&grid(2, 2, vec![1, 2, 3, 4])).unwrap();
    assert_eq!(n.values(), &vec![-6, -2, 2, 6]);
    assert_eq!(n.sum_squares(), 36 + 4 + 4 + 36);
}

#[test]
fn normalize_of_a_flat_image_has_no_energy() {
    let n = normalize(&grid(4, 3, vec![77; 12])).unwrap();
    assert_eq!(n.values(), &vec![0; 12]);
    assert_eq!(n.sum_squares(), 0);
    let single = normalize(&grid(1, 1, vec![200])).unwrap();
    assert_eq!(single.sum_squares(), 0);
}

#[test]
fn normalize_of_a_varied_image_has_energy() {
    let n = normalize(&grid(4, 3, vec![77, 77, 77, 77, 77, 78, 77, 77, 77, 77, 77, 77])).unwrap();
    assert!(n.sum_squares() > 0);
}

#[test]
fn normalize_rejects_an_image_without_pixels() {
    assert_eq!(normalize(&grid(0, 5, vec![])).unwrap_err(), ZeroArea);
    assert_eq!(normalize(&grid(5, 0, vec![])).unwrap_err(), ZeroArea);
    assert_eq!(normalize(&grid(0, 0, vec![])).unwrap_err(), ZeroArea);
}

#[test]
fn cross_correlation_at_each_offset() {
    // Source deviations: 4 * [0, 255, 0, 0] - 255 = [-255, 765, -255, -255].
    // Template deviations: 2 * [0, 255] - 255 = [-255, 255].
    let s = normalize(&grid(4, 1, vec![0, 255, 0, 0])).unwrap();
    let t = normalize(&grid(2, 1, vec![0, 255])).unwrap();
    assert_eq!(cross_at(&s, &t, 0, 0), 255 * 255 + 765 * 255);
    assert_eq!(cross_at(&s, &t, 1, 0), -765 * 255 - 255 * 255);
    assert_eq!(cross_at(&s, &t, 2, 0), 0);
}

#[test]
fn cross_correlation_walks_the_rows_of_the_window() {
    let s = normalize(&grid(3, 3, vec![9, 0, 0, 0, 0, 0, 0, 0, 0])).unwrap();
    let t = normalize(&grid(2, 2, vec![0, 0, 0, 4])).unwrap();
    // Source deviations: 72 at the first cell and -9 elsewhere.
    // Template deviations: -4, -4, -4, 12.
    assert_eq!(cross_at(&s, &t, 0, 0), 72 * -4 + -9 * -4 + -9 * -4 + -9 * 12);
    assert_eq!(cross_at(&s, &t, 1, 1), 0);
    assert_eq!(cross_at(&s, &t, 1, 0), 0);
}

#[test]
fn best_match_takes_the_greatest_cross_correlation() {
    let s = normalize(&grid(4, 1, vec![0, 255, 0, 0])).unwrap();
    let t = normalize(&grid(2, 1, vec![0, 255])).unwrap();
    let p = best_match(&s, &t);
    assert_eq!((p.x, p.y), (0, 0));
    assert_eq!(p.cross, 255 * 255 + 765 * 255);
}

#[test]
fn best_match_prefers_the_first_of_equal_offsets_in_a_row() {
    let s = normalize(&grid(5, 1, vec![0, 255, 0, 255, 0])).unwrap();
    let t = normalize(&grid(2, 1, vec![0, 255])).unwrap();
    assert_eq!(cross_at(&s, &t, 0, 0), cross_at(&s, &t, 2, 0));
    let p = best_match(&s, &t);
    assert_eq!((p.x, p.y), (0, 0));
}

#[test]
fn best_match_prefers_the_upper_row_of_equal_offsets() {
    // The pattern stands at column 2 of row 0 and at column 0 of row 1.
    let s = normalize(&grid(4, 2, vec![0, 0, 0, 255, 0, 255, 0, 0])).unwrap();
    let t = normalize(&grid(2, 1, vec![0, 255])).unwrap();
    assert_eq!(cross_at(&s, &t, 2, 0), cross_at(&s, &t, 0, 1));
    let p = best_match(&s, &t);
    assert_eq!((p.x, p.y), (2, 0));
}

#[test]
fn score_is_rounded_up_to_the_next_millionth() {
    // 1 / sqrt(4) = 0.5
    assert_eq!(correlation_ppm(1, 1, 4), 500_000);
    // 1 / sqrt(3) = 0.577350269...
    assert_eq!(correlation_ppm(1, 1, 3), 577_351);
    assert_eq!(correlation_ppm(1, 3, 1), 577_351);
    // -1 / sqrt(3) = -0.577350269...
    assert_eq!(correlation_ppm(-1, 1, 3), -577_350);
    assert_eq!(correlation_ppm(-1, 2, 2), -500_000);
}

#[test]
fn score_reaches_one_and_minus_one() {
    assert_eq!(correlation_ppm(3, 3, 3), PPM);
    assert_eq!(correlation_ppm(-3, 3, 3), -PPM);
    assert_eq!(correlation_ppm(0, 5, 1), 0);
}

#[test]
fn score_above_zero_is_at_least_one_millionth() {
    assert_eq!(correlation_ppm(1, 1 << 50, 1 << 50), 1);
    assert_eq!(correlation_ppm(-1, 1 << 50, 1 << 50), 0);
}

#[test]
fn score_without_energy_is_zero() {
    assert_eq!(correlation_ppm(0, 0, 7), 0);
    assert_eq!(correlation_ppm(0, 7, 0), 0);
    assert_eq!(correlation_ppm(0, 0, 0), 0);
}

#[test]
fn score_of_the_largest_numbers() {
    assert_eq!(correlation_ppm(MAX_ENERGY as i128, MAX_ENERGY, MAX_ENERGY), PPM);
    assert_eq!(correlation_ppm(-(MAX_ENERGY as i128), MAX_ENERGY, MAX_ENERGY), -PPM);
    assert_eq!(correlation_ppm((MAX_ENERGY / 2) as i128, MAX_ENERGY, MAX_ENERGY), 500_000);
}

#[test]
fn match_normalized_scores_the_best_offset() {
    let s = normalize(&grid(4, 1, vec![0, 255, 0, 0])).unwrap();
    let t = normalize(&grid(2, 1, vec![0, 255])).unwrap();
    let m = match_normalized(&s, &t);
    assert_eq!((m.x, m.y), (0, 0));
    // 260100 / sqrt(780300 * 130050) = 0.816496...
    assert_eq!(m.correlation, 816_497);
}

#[test]
fn match_grids_checks_sizes_before_matching() {
    let s = grid(4, 1, vec![0, 255, 0, 0]);
    assert_eq!(
        match_grids(&s, &grid(5, 1, vec![0; 5])).unwrap_err(),
        MatchError::TemplateLargerThanSource
    );
    assert_eq!(
        match_grids(&s, &grid(1, 2, vec![0; 2])).unwrap_err(),
        MatchError::TemplateLargerThanSource
    );
    assert_eq!(match_grids(&s, &grid(0, 1, vec![])).unwrap_err(), MatchError::ZeroArea);
    assert_eq!(match_grids(&s, &grid(2, 0, vec![])).unwrap_err(), MatchError::ZeroArea);
    let m = match_grids(&s, &grid(2, 1, vec![0, 255])).unwrap();
    assert_eq!((m.x, m.y, m.correlation), (0, 0, 816_497));
}
