use image::{DynamicImage, GrayImage, Rgb, RgbImage, Rgba, RgbaImage};
use screen_match::cv::{
    cv_match_template_center, match_reduced, match_template_center, MatchError, MatchResult,
};
use screen_match::luma::{LumaError, LumaImage};
use screen_match::structs::Point;

fn grid(width: u32, height: u32, data: Vec<u8>) -> LumaImage {
    LumaImage::new(width, height, data).unwrap()
}

fn noise(seed: u32, n: usize) -> Vec<u8> {
    let mut state = seed;
    let mut out = Vec::with_capacity(n);
    for _ in 0..n {
        state = state.wrapping_mul(1_664_525).wrapping_add(1_013_904_223);
        out.push((state >> 24) as u8);
    }
    out
}

fn crop(data: &[u8], width: usize, x: usize, y: usize, w: usize, h: usize) -> Vec<u8> {
    let mut out = Vec::with_capacity(w * h);
    for dy in 0..h {
        for dx in 0..w {
            out.push(data[(y + dy) * width + x + dx]);
        }
    }
    out
}

fn gray_with_white_square() -> Vec<u8> {
    let mut data = vec![128u8; 100 * 100];
    for y in 5..15 {
        for x in 5..15 {
            data[y * 100 + x] = 255;
        }
    }
    data
}

fn blocks() -> Vec<u8> {
    let cells = noise(99, 30 * 30);
    let mut data = Vec::with_capacity(120 * 120);
    for y in 0..120 {
        for x in 0..120 {
            data.push(cells[(y / 4) * 30 + x / 4]);
        }
    }
    data
}

fn found(x: u32, y: u32, correlation: i32) -> MatchResult {
    MatchResult { pos: Point::new(x, y), correlation }
}

#[test]
fn image_matched_against_itself_is_found_at_its_centre() {
    let data = noise(7, 30 * 20);
    let img = grid(30, 20, data.clone());
    let same = grid(30, 20, data);
    assert_eq!(match_template_center(&img, &same, 30).unwrap(), found(15, 10, 1_000_000));
    assert_eq!(match_template_center(&img, &same, 31).unwrap(), found(15, 10, 1_000_000));
    assert_eq!(match_template_center(&img, &same, u32::MAX).unwrap(), found(15, 10, 1_000_000));
}

#[test]
fn flat_image_matched_against_itself_scores_zero() {
    let img = grid(7, 5, vec![90; 35]);
    let same = grid(7, 5, vec![90; 35]);
    assert_eq!(match_template_center(&img, &same, 100).unwrap(), found(3, 2, 0));
    let dot = grid(1, 1, vec![3]);
    let same_dot = grid(1, 1, vec![3]);
    assert_eq!(match_template_center(&dot, &same_dot, 1).unwrap(), found(0, 0, 0));
}

#[test]
fn white_square_alone_is_flat_and_scores_zero() {
    // The template is the white square itself: one constant luminance, so
    // there is no correlation to speak of. The score is zero, and the
    // placement is the first offset.
    let source = grid(100, 100, gray_with_white_square());
    let template = grid(10, 10, vec![255; 100]);
    assert_eq!(match_template_center(&source, &template, 1000).unwrap(), found(5, 5, 0));
}

#[test]
fn white_square_with_its_border_is_found_at_its_centre() {
    let data = gray_with_white_square();
    let template = grid(12, 12, crop(&data, 100, 4, 4, 12, 12));
    let source = grid(100, 100, data);
    let m = match_template_center(&source, &template, 1000).unwrap();
    assert_eq!(m.pos, Point::new(10, 10));
    // sqrt(275 / 891) = 0.5555...
    assert_eq!(m.correlation, 555_556);
}

#[test]
fn region_of_a_noisy_source_is_found_where_it_was_taken() {
    let data = noise(12_345, 200 * 150);
    let template = grid(24, 16, crop(&data, 200, 40, 60, 24, 16));
    let source = grid(200, 150, data);
    let m = match_template_center(&source, &template, 200).unwrap();
    assert_eq!(m.pos, Point::new(40 + 24 / 2, 60 + 16 / 2));
    assert_eq!(m.correlation, 116_200);
}

#[test]
fn reduced_search_lands_near_the_full_search() {
    let data = blocks();
    let template = grid(24, 24, crop(&data, 120, 33, 41, 24, 24));
    let source = grid(120, 120, data);
    let full = match_template_center(&source, &template, 120).unwrap();
    assert_eq!(full.pos, Point::new(33 + 12, 41 + 12));
    // At a threshold of 60 the search runs at half the size: positions are
    // known to two pixels.
    let reduced = match_template_center(&source, &template, 60).unwrap();
    let scale: i64 = 2;
    assert!((reduced.pos.x as i64 - full.pos.x as i64).abs() <= scale);
    assert!((reduced.pos.y as i64 - full.pos.y as i64).abs() <= scale);
    assert_eq!(reduced.pos, Point::new(46, 54));
}

#[test]
fn reduced_search_misses_a_feature_between_the_kept_pixels() {
    // One bright pixel at an even column of an even row. Reduction to half
    // the size keeps the odd columns of the odd rows: the reduced source is
    // flat, and so is the reduced template.
    let mut data = vec![0u8; 100 * 100];
    data[90 * 100 + 90] = 255;
    let template = grid(2, 2, crop(&data, 100, 90, 90, 2, 2));
    let source = grid(100, 100, data);
    assert_eq!(match_template_center(&source, &template, 100).unwrap(), found(91, 91, 866_069));
    assert_eq!(match_template_center(&source, &template, 50).unwrap(), found(1, 1, 0));
}

#[test]
fn reduced_search_reports_positions_inside_the_source() {
    let data = noise(5, 90 * 60);
    let template = grid(30, 20, crop(&data, 90, 60, 40, 30, 20));
    let source = grid(90, 60, data);
    for threshold in [7u32, 10, 29, 45, 89] {
        let m = match_template_center(&source, &template, threshold).unwrap();
        assert!(15 <= m.pos.x && m.pos.x < 90);
        assert!(10 <= m.pos.y && m.pos.y < 60);
        assert!(-1_000_000 <= m.correlation && m.correlation <= 1_000_000);
    }
}

#[test]
fn opposite_images_score_minus_one() {
    let source = grid(2, 1, vec![0, 255]);
    let template = grid(2, 1, vec![255, 0]);
    assert_eq!(match_template_center(&source, &template, 10).unwrap(), found(1, 0, -1_000_000));
}

#[test]
fn score_of_a_part_is_below_one() {
    let source = grid(4, 1, vec![0, 255, 0, 0]);
    let template = grid(2, 1, vec![0, 255]);
    assert_eq!(match_template_center(&source, &template, 10).unwrap(), found(1, 0, 816_497));
}

#[test]
fn template_larger_than_source_is_refused() {
    let source = grid(4, 3, vec![0; 12]);
    let wider = grid(5, 3, vec![0; 15]);
    let higher = grid(4, 4, vec![0; 16]);
    let both = grid(9, 9, vec![0; 81]);
    for threshold in [0u32, 1, 4, 100] {
        assert_eq!(
            match_template_center(&source, &wider, threshold).unwrap_err(),
            MatchError::TemplateLargerThanSource
        );
        assert_eq!(
            match_template_center(&source, &higher, threshold).unwrap_err(),
            MatchError::TemplateLargerThanSource
        );
        assert_eq!(
            match_template_center(&source, &both, threshold).unwrap_err(),
            MatchError::TemplateLargerThanSource
        );
    }
    let empty = grid(0, 0, vec![]);
    assert_eq!(
        match_template_center(&empty, &grid(1, 1, vec![0]), 10).unwrap_err(),
        MatchError::TemplateLargerThanSource
    );
}

#[test]
fn zero_size_threshold_is_refused() {
    let source = grid(4, 3, vec![0; 12]);
    let template = grid(2, 2, vec![0; 4]);
    assert_eq!(
        match_template_center(&source, &template, 0).unwrap_err(),
        MatchError::ZeroSizeThreshold
    );
}

#[test]
fn template_without_pixels_is_refused() {
    let source = grid(4, 3, vec![0; 12]);
    assert_eq!(
        match_template_center(&source, &grid(0, 2, vec![]), 10).unwrap_err(),
        MatchError::ZeroArea
    );
    assert_eq!(
        match_template_center(&source, &grid(2, 0, vec![]), 10).unwrap_err(),
        MatchError::ZeroArea
    );
    let empty = grid(0, 0, vec![]);
    assert_eq!(
        match_template_center(&empty, &grid(0, 0, vec![]), 10).unwrap_err(),
        MatchError::ZeroArea
    );
}

#[test]
fn template_that_vanishes_when_reduced_is_refused() {
    let source = grid(100, 100, noise(1, 100 * 100));
    let template = grid(3, 3, noise(2, 9));
    assert_eq!(
        match_template_center(&source, &template, 10).unwrap_err(),
        MatchError::VanishesAtScale
    );
    // 3 * 34 / 100 = 1: one pixel is left.
    assert!(match_template_center(&source, &template, 34).is_ok());
    // 3 * 33 / 100 = 0.
    assert_eq!(
        match_template_center(&source, &template, 33).unwrap_err(),
        MatchError::VanishesAtScale
    );
}

#[test]
fn frames_are_matched_by_their_luminance() {
    let data = noise(12_345, 60 * 40);
    let template = crop(&data, 60, 20, 10, 12, 8);
    let source = DynamicImage::ImageLuma8(GrayImage::from_raw(60, 40, data).unwrap());
    let template = DynamicImage::ImageLuma8(GrayImage::from_raw(12, 8, template).unwrap());
    let m = cv_match_template_center(&source, &template, 600).unwrap();
    assert_eq!(m.pos, Point::new(20 + 6, 10 + 4));
    assert!(m.correlation > 0);
}

#[test]
fn cv_match_template() {
    let data = noise(2024, 80 * 50);
    let mut source = RgbImage::new(80, 50);
    for y in 0..50u32 {
        for x in 0..80u32 {
            let v = data[(y * 80 + x) as usize];
            source.put_pixel(x, y, Rgb([v, v, v]));
        }
    }
    let mut template = RgbaImage::new(16, 10);
    for y in 0..10u32 {
        for x in 0..16u32 {
            let v = data[((y + 30) * 80 + x + 50) as usize];
            template.put_pixel(x, y, Rgba([v, v, v, 255]));
        }
    }
    let source = DynamicImage::ImageRgb8(source);
    let template = DynamicImage::ImageRgba8(template);

    let res = cv_match_template_center(&source, &template, 800).unwrap();

    println!("{:#?}", res);
    assert_eq!(res.pos, Point::new(50 + 8, 30 + 5));
}

#[test]
fn frame_matched_against_itself_is_found_at_its_centre() {
    let source = DynamicImage::ImageLuma8(GrayImage::from_raw(9, 7, noise(3, 63)).unwrap());
    let m = cv_match_template_center(&source, &source, 9).unwrap();
    assert_eq!(m, found(4, 3, 1_000_000));
}

#[test]
fn frame_larger_than_source_is_refused() {
    let source = DynamicImage::ImageLuma8(GrayImage::new(4, 4));
    let template = DynamicImage::ImageLuma8(GrayImage::new(5, 4));
    assert_eq!(
        cv_match_template_center(&source, &template, 10).unwrap_err(),
        MatchError::TemplateLargerThanSource
    );
    assert_eq!(
        cv_match_template_center(&source, &template, 0).unwrap_err(),
        MatchError::TemplateLargerThanSource
    );
}

#[test]
fn frame_with_too_many_pixels_is_refused() {
    let source = DynamicImage::ImageLuma8(GrayImage::new(16_385, 16_384));
    let template = DynamicImage::ImageLuma8(GrayImage::new(2, 2));
    assert_eq!(
        cv_match_template_center(&source, &template, 100).unwrap_err(),
        MatchError::ImageTooLarge
    );
    assert_eq!(LumaImage::from_frame(&source).unwrap_err(), LumaError::TooLarge);
}

#[test]
fn luminance_of_a_colour_frame_has_one_byte_per_pixel() {
    let mut frame = RgbImage::new(3, 1);
    frame.put_pixel(0, 0, Rgb([0, 0, 0]));
    frame.put_pixel(1, 0, Rgb([255, 255, 255]));
    frame.put_pixel(2, 0, Rgb([255, 0, 0]));
    let luma = LumaImage::from_frame(&DynamicImage::ImageRgb8(frame)).unwrap();
    assert_eq!(luma.width(), 3);
    assert_eq!(luma.height(), 1);
    assert_eq!(luma.pixels().len(), 3);
    assert_eq!(luma.pixel(0, 0), 0);
    assert_eq!(luma.pixel(1, 0), 255);
    assert!(0 < luma.pixel(2, 0) && luma.pixel(2, 0) < 128);
}

#[test]
fn luminance_of_a_gray_frame_is_its_pixels() {
    let frame = DynamicImage::ImageLuma8(GrayImage::from_raw(2, 2, vec![1, 2, 3, 4]).unwrap());
    let luma = LumaImage::from_frame(&frame).unwrap();
    assert_eq!(luma.pixels(), &vec![1, 2, 3, 4]);
}

#[test]
fn shrink_takes_pixels_of_the_grid() {
    let img = grid(4, 4, vec![10, 10, 20, 20, 10, 10, 20, 20, 30, 30, 40, 40, 30, 30, 40, 40]);
    let small = img.shrink(2, 2);
    assert_eq!(small.width(), 2);
    assert_eq!(small.height(), 2);
    assert_eq!(small.pixels(), &vec![10, 20, 30, 40]);
    let row = img.shrink(4, 1);
    assert_eq!((row.width(), row.height(), row.pixels().len()), (4, 1, 4));
}

#[test]
fn match_reduced_maps_the_offset_back_by_the_factor() {
    // A 12 x 10 source at a threshold of 6 is searched as 6 x 5, and a 4 x 4
    // template as 2 x 2. The pattern stands at offset (3, 2) of the reduced
    // source: 3 * 12 / 6 + 4 / 2 = 8 and 2 * 12 / 6 + 4 / 2 = 6.
    let mut data = vec![0u8; 30];
    data[2 * 6 + 3] = 200;
    data[2 * 6 + 4] = 10;
    data[3 * 6 + 3] = 10;
    data[3 * 6 + 4] = 200;
    let source = grid(6, 5, data);
    let template = grid(2, 2, vec![200, 10, 10, 200]);
    let m = match_reduced(&source, &template, 12, 10, 4, 4, 6);
    assert_eq!(m.pos, Point::new(8, 6));
    assert_eq!(m.correlation, 696_949);
}

#[test]
fn match_reduced_drops_the_fraction_of_the_restored_offset() {
    // A 10 x 7 source at a threshold of 4 is searched as 4 x 2, and a 5 x 4
    // template as 2 x 1. The best offset is (2, 1): 2 * 10 / 4 = 5 and
    // 1 * 10 / 4 = 2, to which 5 / 2 = 2 and 4 / 2 = 2 are added.
    let source = grid(4, 2, vec![10, 200, 30, 40, 50, 60, 220, 20]);
    let template = grid(2, 1, vec![220, 20]);
    let m = match_reduced(&source, &template, 10, 7, 5, 4, 4);
    assert_eq!(m, found(7, 4, 646_255));
}

#[test]
fn copied_region_that_varies_most_is_found_where_it_was_taken() {
    // A checkered patch on a flat ground: no window varies more than the
    // patch itself.
    let mut data = vec![100u8; 20 * 15];
    let patch = [0u8, 255, 0, 255, 255, 0, 255, 0, 0, 255, 0, 255];
    for dy in 0..3 {
        for dx in 0..4 {
            data[(5 + dy) * 20 + 7 + dx] = patch[dy * 4 + dx];
        }
    }
    let template = grid(4, 3, crop(&data, 20, 7, 5, 4, 3));
    let source = grid(20, 15, data);
    let m = match_template_center(&source, &template, 20).unwrap();
    assert_eq!(m.pos, Point::new(7 + 4 / 2, 5 + 3 / 2));
    assert_eq!(m.correlation, 978_392);
}
