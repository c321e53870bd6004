use image::{DynamicImage, GrayImage, ImageFormat};
use screen_match::adb_commands::{
    decimal, decode_screenshot, decoded_outcome, replace_crlf, screenshot_arguments, screenshot_outcome,
    tap_arguments, tap_outcome, text_or_notice, AdbScreenshotError, AdbTapError, CommandOutput,
};
use screen_match::structs::Point;
use std::io::Cursor;

fn png_of(width: u32, height: u32, data: Vec<u8>) -> Vec<u8> {
    let img = DynamicImage::ImageLuma8(GrayImage::from_raw(width, height, data).unwrap());
    let mut bytes = Vec::new();
    img.write_to(&mut Cursor::new(&mut bytes), ImageFormat::Png).unwrap();
    bytes
}

fn with_carriage_returns(bytes: &[u8]) -> Vec<u8> {
    let mut out = Vec::new();
    for &b in bytes {
        if b == b'\n' {
            out.push(b'\r');
        }
        out.push(b);
    }
    out
}

fn finished(success: bool, code: Option<i32>, stdout: &[u8], stderr: &[u8]) -> CommandOutput {
    CommandOutput { success, code, stdout: stdout.to_vec(), stderr: stderr.to_vec() }
}

#[test]
fn replace_crlf_replaces_each_pair() {
    assert_eq!(replace_crlf(b"a\r\nb\r\nc".to_vec()), b"a\nb\nc".to_vec());
    assert_eq!(replace_crlf(b"\r\n".to_vec()), b"\n".to_vec());
    assert_eq!(replace_crlf(b"\r\n\r\n".to_vec()), b"\n\n".to_vec());
}

#[test]
fn replace_crlf_keeps_a_lone_carriage_return() {
    assert_eq!(replace_crlf(b"a\rb".to_vec()), b"a\rb".to_vec());
    assert_eq!(replace_crlf(b"a\r".to_vec()), b"a\r".to_vec());
    assert_eq!(replace_crlf(b"\r".to_vec()), b"\r".to_vec());
    assert_eq!(replace_crlf(b"\r\r\n".to_vec()), b"\r\n".to_vec());
    assert_eq!(replace_crlf(b"\n\r".to_vec()), b"\n\r".to_vec());
}

#[test]
fn replace_crlf_keeps_other_bytes() {
    assert_eq!(replace_crlf(Vec::new()), Vec::<u8>::new());
    assert_eq!(replace_crlf(b"plain\ntext".to_vec()), b"plain\ntext".to_vec());
    assert_eq!(replace_crlf(vec![0, 13, 10, 255, 10, 13]), vec![0, 10, 255, 10, 13]);
}

#[test]
fn replace_crlf_undoes_added_carriage_returns() {
    let samples: [&[u8]; 6] =
        [b"", b"\n", b"\r", b"\r\n", b"\r\r\n\n\r", b"\x89PNG\r\n\x1a\n\x00\r\x00\n"];
    for sample in samples {
        assert_eq!(replace_crlf(with_carriage_returns(sample)), sample.to_vec());
    }
}

#[test]
fn decimal_writes_numbers_without_leading_zeros() {
    assert_eq!(decimal(0), "0");
    assert_eq!(decimal(7), "7");
    assert_eq!(decimal(10), "10");
    assert_eq!(decimal(285), "285");
    assert_eq!(decimal(2700), "2700");
    assert_eq!(decimal(1_000_000), "1000000");
    assert_eq!(decimal(u32::MAX), "4294967295");
}

#[test]
fn tap_arguments_name_the_point() {
    assert_eq!(tap_arguments(&Point::new(2700, 285)), vec!["shell", "input", "tap", "2700", "285"]);
    assert_eq!(tap_arguments(&Point::new(0, 9)), vec!["shell", "input", "tap", "0", "9"]);
}

#[test]
fn screenshot_arguments_ask_for_a_png() {
    assert_eq!(screenshot_arguments(), vec!["shell", "screencap", "-p"]);
}

#[test]
fn text_or_notice_decodes_utf8() {
    assert_eq!(text_or_notice(b"device offline".to_vec()), "device offline");
    assert_eq!(text_or_notice("gr\u{fc}n \u{2713}".as_bytes().to_vec()), "gr\u{fc}n \u{2713}");
    assert_eq!(text_or_notice(Vec::new()), "");
}

#[test]
fn text_or_notice_gives_the_notice_for_other_bytes() {
    assert_eq!(text_or_notice(vec![0xff]), "<Failed to decode string>");
    assert_eq!(text_or_notice(vec![b'a', 0xc3]), "<Failed to decode string>");
    assert_eq!(text_or_notice(vec![0xed, 0xa0, 0x80]), "<Failed to decode string>");
}

#[test]
fn tap_outcome_of_a_success() {
    assert!(tap_outcome(finished(true, Some(0), b"", b"")).is_ok());
    assert!(tap_outcome(finished(true, None, b"ignored", b"ignored")).is_ok());
}

#[test]
fn tap_outcome_of_a_failure_carries_code_and_output() {
    match tap_outcome(finished(false, Some(1), b"out", b"error: no devices")) {
        Err(AdbTapError::ExecutionError { code, stdout, stderr }) => {
            assert_eq!(code, Some(1));
            assert_eq!(stdout, "out");
            assert_eq!(stderr, "error: no devices");
        }
        other => panic!("unexpected: {:?}", other),
    }
    match tap_outcome(finished(false, None, &[0xff], b"")) {
        Err(AdbTapError::ExecutionError { code, stdout, stderr }) => {
            assert_eq!(code, None);
            assert_eq!(stdout, "<Failed to decode string>");
            assert_eq!(stderr, "");
        }
        other => panic!("unexpected: {:?}", other),
    }
}

#[test]
fn screenshot_outcome_of_a_failure_carries_code_and_output() {
    let png = png_of(2, 2, vec![1, 2, 3, 4]);
    match screenshot_outcome(finished(false, Some(255), &png, b"adb: not found"), false) {
        Err(AdbScreenshotError::ExecutionError { code, stdout, stderr }) => {
            assert_eq!(code, Some(255));
            assert_eq!(stdout, "<Failed to decode string>");
            assert_eq!(stderr, "adb: not found");
        }
        other => panic!("unexpected: {:?}", other),
    }
}

#[test]
fn screenshot_outcome_decodes_what_was_written() {
    let png = png_of(3, 2, vec![1, 2, 3, 4, 5, 6]);
    let image = screenshot_outcome(finished(true, Some(0), &png, b""), false).unwrap();
    assert_eq!((image.width(), image.height()), (3, 2));
    assert_eq!(image.to_luma8().into_raw(), vec![1, 2, 3, 4, 5, 6]);
}

#[test]
fn screenshot_outcome_undoes_crlf_line_ends() {
    let png = png_of(3, 2, vec![10, 13, 10, 13, 10, 10]);
    let widened = with_carriage_returns(&png);
    assert!(widened.len() > png.len());
    let image = screenshot_outcome(finished(true, Some(0), &widened, b""), true).unwrap();
    assert_eq!((image.width(), image.height()), (3, 2));
    assert_eq!(image.to_luma8().into_raw(), vec![10, 13, 10, 13, 10, 10]);
    match screenshot_outcome(finished(true, Some(0), &widened, b""), false) {
        Err(AdbScreenshotError::ImageDecodeError(_)) => {}
        other => panic!("unexpected: {:?}", other),
    }
}

#[test]
fn screenshot_outcome_reports_what_is_no_image() {
    match screenshot_outcome(finished(true, Some(0), b"not an image", b""), false) {
        Err(AdbScreenshotError::ImageDecodeError(_)) => {}
        other => panic!("unexpected: {:?}", other),
    }
    match screenshot_outcome(finished(true, Some(0), b"", b""), true) {
        Err(AdbScreenshotError::ImageDecodeError(_)) => {}
        other => panic!("unexpected: {:?}", other),
    }
}

#[test]
fn decoded_outcome_passes_the_image_on() {
    let image = DynamicImage::ImageLuma8(GrayImage::from_raw(1, 1, vec![9]).unwrap());
    let out = decoded_outcome(Ok(image)).unwrap();
    assert_eq!(out.to_luma8().into_raw(), vec![9]);
    let failed = image::load_from_memory(b"nothing").unwrap_err();
    match decoded_outcome(Err(failed)) {
        Err(AdbScreenshotError::ImageDecodeError(_)) => {}
        other => panic!("unexpected: {:?}", other),
    }
}

#[test]
fn decode_screenshot_reads_the_format_that_the_bytes_announce() {
    let png = png_of(2, 3, vec![9, 8, 7, 6, 5, 4]);
    let image = decode_screenshot(&png).unwrap();
    assert_eq!((image.width(), image.height()), (2, 3));
    assert_eq!(image.to_luma8().into_raw(), vec![9, 8, 7, 6, 5, 4]);

    let frame = DynamicImage::ImageLuma8(GrayImage::from_raw(2, 2, vec![1, 2, 3, 4]).unwrap());
    let mut bmp = Vec::new();
    frame.write_to(&mut Cursor::new(&mut bmp), ImageFormat::Bmp).unwrap();
    let image = decode_screenshot(&bmp).unwrap();
    assert_eq!((image.width(), image.height()), (2, 2));
    assert_eq!(image.to_luma8().into_raw(), vec![1, 2, 3, 4]);
}

#[test]
fn decode_screenshot_reports_bytes_that_announce_no_format() {
    for bytes in [Vec::new(), b"plain text".to_vec(), vec![0u8; 64]] {
        match decode_screenshot(&bytes) {
            Err(AdbScreenshotError::ImageDecodeError(_)) => {}
            other => panic!("unexpected: {:?}", other),
        }
    }
}

#[test]
fn decode_screenshot_reports_bytes_that_break_off() {
    let png = png_of(4, 4, vec![7; 16]);
    match decode_screenshot(&png[..20].to_vec()) {
        Err(AdbScreenshotError::ImageDecodeError(_)) => {}
        other => panic!("unexpected: {:?}", other),
    }
}
