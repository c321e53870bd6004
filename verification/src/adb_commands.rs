//! What is said to `adb` and what is made of its answers. Running the command
//! is the caller's business: these functions build its arguments and read
//! what it left behind.

use crate::structs::Point;
use image::DynamicImage;
use image::ImageError;
use image::ImageFormat;
use vstd::prelude::*;
use vstd::string::StringExecFns;
use vstd::utf8::{decode_utf8, valid_utf8};

verus! {

/// `std::io::Error`: why a command could not be run. It is carried as it
/// came; nothing is known of what it holds.
#[verifier::external_type_specification]
#[verifier::external_body]
pub struct ExIoError(std::io::Error);

/// `image::ImageError`: why bytes could not be decoded. It is carried as it
/// came; nothing is known of what it holds.
#[verifier::external_type_specification]
#[verifier::external_body]
pub struct ExImageError(image::ImageError);

/// What a finished command left behind.
#[derive(Debug)]
pub struct CommandOutput {
    /// Whether the command reported success.
    pub success: bool,
    /// Its exit code, if it has one.
    pub code: Option<i32>,
    /// What it wrote to its standard output.
    pub stdout: Vec<u8>,
    /// What it wrote to its standard error.
    pub stderr: Vec<u8>,
}

/// Why no screenshot was had from the device.
#[derive(Debug)]
pub enum AdbScreenshotError {
    /// The command could not be run.
    CommandError(std::io::Error),
    /// The command ran and reported failure.
    ExecutionError { code: Option<i32>, stdout: String, stderr: String },
    /// The command succeeded, and what it wrote is no image.
    ImageDecodeError(ImageError),
}

/// Why the device was not tapped.
#[derive(Debug)]
pub enum AdbTapError {
    /// The command could not be run.
    CommandError(std::io::Error),
    /// The command ran and reported failure.
    ExecutionError { code: Option<i32>, stdout: String, stderr: String },
}

/// The bytes with every carriage return that a line feed follows removed.
pub open spec fn crlf_replaced(bytes: Seq<u8>) -> Seq<u8>
    decreases bytes.len(),
{
    if bytes.len() == 0 {
        bytes
    } else if bytes.len() >= 2 && bytes[0] == 13 && bytes[1] == 10 {
        seq![10u8] + crlf_replaced(bytes.skip(2))
    } else {
        seq![bytes[0]] + crlf_replaced(bytes.skip(1))
    }
}

/// Replaces every pair of carriage return and line feed by a line feed,
/// reading from the left. A carriage return that no line feed follows stays.
pub fn replace_crlf(buffer: Vec<u8>) -> (result: Vec<u8>)
    ensures
        result@ == crlf_replaced(buffer@),
{
    let n: usize = buffer.len();
    let mut result: Vec<u8> = Vec::new();
    let mut i: usize = 0;
    proof {
        assert(buffer@.skip(0) =~= buffer@);
        assert(result@ + crlf_replaced(buffer@) =~= crlf_replaced(buffer@));
    }
    while i < n
        invariant
            i <= n,
            n == buffer@.len(),
            result@ + crlf_replaced(buffer@.skip(i as int)) == crlf_replaced(buffer@),
        decreases n - i,
    {
        let ghost rest = buffer@.skip(i as int);
        let ghost before = result@;
        let current: u8 = buffer[i];
        if current == 13 && i + 1 < n && buffer[i + 1] == 10 {
            result.push(10);
            proof {
                assert(rest.skip(2) =~= buffer@.skip(i + 2));
                assert(result@ + crlf_replaced(buffer@.skip(i + 2)) =~= before + (seq![10u8]
                    + crlf_replaced(rest.skip(2))));
            }
            i = i + 2;
        } else {
            result.push(current);
            proof {
                assert(rest.skip(1) =~= buffer@.skip(i + 1));
                assert(result@ + crlf_replaced(buffer@.skip(i + 1)) =~= before + (seq![rest[0]]
                    + crlf_replaced(rest.skip(1))));
            }
            i = i + 1;
        }
    }
    proof {
        assert(buffer@.skip(n as int) =~= Seq::<u8>::empty());
        assert(result@ + Seq::<u8>::empty() =~= result@);
    }
    result
}

/// The bytes with a carriage return put before every line feed.
pub open spec fn with_carriage_returns(bytes: Seq<u8>) -> Seq<u8>
    decreases bytes.len(),
{
    if bytes.len() == 0 {
        bytes
    } else if bytes[0] == 10 {
        seq![13u8, 10u8] + with_carriage_returns(bytes.skip(1))
    } else {
        seq![bytes[0]] + with_carriage_returns(bytes.skip(1))
    }
}

/// Replacing the pairs takes out again what was put in: whatever the bytes
/// were before a carriage return was put before each line feed, they are had
/// back.
pub proof fn lemma_carriage_returns_undone(bytes: Seq<u8>)
    ensures
        crlf_replaced(with_carriage_returns(bytes)) == bytes,
        with_carriage_returns(bytes).len() > 0 ==> with_carriage_returns(bytes)[0] != 10,
        with_carriage_returns(bytes).len() >= bytes.len(),
    decreases bytes.len(),
{
    if bytes.len() > 0 {
        let rest = bytes.skip(1);
        let tail = with_carriage_returns(rest);
        let whole = with_carriage_returns(bytes);
        lemma_carriage_returns_undone(rest);
        if bytes[0] == 10 {
            assert(whole.skip(2) =~= tail);
            assert(seq![10u8] + rest =~= bytes);
        } else {
            assert(whole.skip(1) =~= tail);
            assert(seq![bytes[0]] + rest =~= bytes);
        }
    }
}

/// The character of a decimal digit.
pub open spec fn digit_char(d: nat) -> char {
    if d == 0 {
        '0'
    } else if d == 1 {
        '1'
    } else if d == 2 {
        '2'
    } else if d == 3 {
        '3'
    } else if d == 4 {
        '4'
    } else if d == 5 {
        '5'
    } else if d == 6 {
        '6'
    } else if d == 7 {
        '7'
    } else if d == 8 {
        '8'
    } else {
        '9'
    }
}

/// A number in decimal, without leading zeros.
pub open spec fn decimal_digits(n: nat) -> Seq<char>
    decreases n,
{
    if n < 10 {
        seq![digit_char(n)]
    } else {
        decimal_digits(n / 10).push(digit_char(n % 10))
    }
}

fn digit_text(d: u32) -> (s: &'static str)
    requires
        d < 10,
    ensures
        s@ == seq![digit_char(d as nat)],
{
    proof {
        reveal_strlit("0");
        reveal_strlit("1");
        reveal_strlit("2");
        reveal_strlit("3");
        reveal_strlit("4");
        reveal_strlit("5");
        reveal_strlit("6");
        reveal_strlit("7");
        reveal_strlit("8");
        reveal_strlit("9");
    }
    let s = if d == 0 {
        "0"
    } else if d == 1 {
        "1"
    } else if d == 2 {
        "2"
    } else if d == 3 {
        "3"
    } else if d == 4 {
        "4"
    } else if d == 5 {
        "5"
    } else if d == 6 {
        "6"
    } else if d == 7 {
        "7"
    } else if d == 8 {
        "8"
    } else {
        "9"
    };
    assert(s@ =~= seq![digit_char(d as nat)]);
    s
}

/// A number written in decimal.
pub fn decimal(n: u32) -> (s: String)
    ensures
        s@ == decimal_digits(n as nat),
    decreases n,
{
    if n < 10 {
        String::from_str(digit_text(n))
    } else {
        let mut s = decimal(n / 10);
        s.append(digit_text(n % 10));
        s
    }
}

/// The arguments with which `adb` writes a screenshot, as a PNG, to its
/// standard output.
pub fn screenshot_arguments() -> (args: Vec<String>)
    ensures
        args@.len() == 3,
        args@[0]@ == "shell"@,
        args@[1]@ == "screencap"@,
        args@[2]@ == "-p"@,
{
    let mut args: Vec<String> = Vec::new();
    args.push(String::from_str("shell"));
    args.push(String::from_str("screencap"));
    args.push(String::from_str("-p"));
    args
}

/// The arguments with which `adb` taps the device at `point`.
pub fn tap_arguments(point: &Point) -> (args: Vec<String>)
    ensures
        args@.len() == 5,
        args@[0]@ == "shell"@,
        args@[1]@ == "input"@,
        args@[2]@ == "tap"@,
        args@[3]@ == decimal_digits(point.x as nat),
        args@[4]@ == decimal_digits(point.y as nat),
{
    let mut args: Vec<String> = Vec::new();
    args.push(String::from_str("shell"));
    args.push(String::from_str("input"));
    args.push(String::from_str("tap"));
    args.push(decimal(point.x));
    args.push(decimal(point.y));
    args
}

/// `String::from_utf8`: the text that the bytes encode, if they are valid
/// UTF-8, and nothing otherwise.
#[verifier::external_body]
fn utf8_text(bytes: Vec<u8>) -> (r: Option<String>)
    ensures
        match r {
            Some(text) => valid_utf8(bytes@) && text@ == decode_utf8(bytes@),
            None => !valid_utf8(bytes@),
        },
{
    String::from_utf8(bytes).ok()
}

/// What the command wrote, as text.
pub open spec fn output_text(bytes: Seq<u8>) -> Seq<char> {
    if valid_utf8(bytes) {
        decode_utf8(bytes)
    } else {
        "<Failed to decode string>"@
    }
}

/// What the command wrote, as text; a fixed notice where it is no valid
/// UTF-8.
pub fn text_or_notice(bytes: Vec<u8>) -> (text: String)
    ensures
        text@ == output_text(bytes@),
{
    match utf8_text(bytes) {
        Some(text) => text,
        None => String::from_str("<Failed to decode string>"),
    }
}

/// What a tap command that has run amounts to: success, or its exit code
/// with what it wrote.
pub fn tap_outcome(output: CommandOutput) -> (r: Result<(), AdbTapError>)
    ensures
        match r {
            Ok(_) => output.success,
            Err(AdbTapError::ExecutionError { code, stdout, stderr }) => {
                &&& !output.success
                &&& code == output.code
                &&& stdout@ == output_text(output.stdout@)
                &&& stderr@ == output_text(output.stderr@)
            },
            Err(AdbTapError::CommandError(_)) => false,
        },
{
    if output.success {
        Ok(())
    } else {
        let stdout = text_or_notice(output.stdout);
        let stderr = text_or_notice(output.stderr);
        Err(AdbTapError::ExecutionError { code: output.code, stdout, stderr })
    }
}

/// `image::ImageFormat`: one of the image formats that the crate knows. It
/// is carried from the guess to the decoder as it came.
#[verifier::external_type_specification]
#[verifier::external_body]
pub struct ExImageFormat(image::ImageFormat);

/// The format that the first bytes announce, by the `image` crate's own
/// table of signatures, or the reason why they announce none.
pub uninterp spec fn guessed_format(bytes: Seq<u8>) -> Result<ImageFormat, ImageError>;

/// What the decoder of `format` makes of the bytes: the image that they
/// encode, or the reason why they encode none.
pub uninterp spec fn decoded_image(bytes: Seq<u8>, format: ImageFormat) -> Result<
    DynamicImage,
    ImageError,
>;

/// `image::guess_format`: the format whose signature the bytes begin with,
/// looked up in the crate's own table, or an error where they begin with
/// none. The result depends on the bytes alone.
#[verifier::external_body]
fn guess_format(bytes: &Vec<u8>) -> (r: Result<ImageFormat, ImageError>)
    ensures
        r == guessed_format(bytes@),
{
    image::guess_format(bytes)
}

/// `image::load_from_memory_with_format`: the image that the crate's own
/// decoder of `format` reads from the bytes, or the reason why it reads
/// none. The result depends on the bytes and the format alone.
#[verifier::external_body]
fn decode_frame(bytes: &Vec<u8>, format: ImageFormat) -> (r: Result<DynamicImage, ImageError>)
    ensures
        r == decoded_image(bytes@, format),
{
    image::load_from_memory_with_format(bytes, format)
}

/// The screenshot as decoding left it: the image, or the reason why the
/// bytes are none.
pub fn decoded_outcome(decoded: Result<DynamicImage, ImageError>) -> (r: Result<
    DynamicImage,
    AdbScreenshotError,
>)
    ensures
        match decoded {
            Ok(image) => r == Ok::<DynamicImage, AdbScreenshotError>(image),
            Err(e) => r == Err::<DynamicImage, AdbScreenshotError>(
                AdbScreenshotError::ImageDecodeError(e),
            ),
        },
{
    match decoded {
        Ok(image) => Ok(image),
        Err(e) => Err(AdbScreenshotError::ImageDecodeError(e)),
    }
}

/// The bytes of the screenshot among what the command wrote: all of it, or,
/// where a carriage return was put before every line feed on the way, all of
/// it with that undone.
pub open spec fn screenshot_bytes(stdout: Seq<u8>, crlf_line_ends: bool) -> Seq<u8> {
    if crlf_line_ends {
        crlf_replaced(stdout)
    } else {
        stdout
    }
}

/// What a screenshot command that has run wrote as its screenshot, or its
/// exit code with what it wrote where it reported failure.
///
/// `crlf_line_ends` says that every line feed in the output arrived
/// with a carriage return before it, as on Windows.
pub fn screenshot_payload(output: CommandOutput, crlf_line_ends: bool) -> (r: Result<
    Vec<u8>,
    AdbScreenshotError,
>)
    ensures
        match r {
            Ok(bytes) => output.success && bytes@ == screenshot_bytes(
                output.stdout@,
                crlf_line_ends,
            ),
            Err(AdbScreenshotError::ExecutionError { code, stdout, stderr }) => {
                &&& !output.success
                &&& code == output.code
                &&& stdout@ == output_text(output.stdout@)
                &&& stderr@ == output_text(output.stderr@)
            },
            Err(_) => false,
        },
{
    if !output.success {
        let stdout = text_or_notice(output.stdout);
        let stderr = text_or_notice(output.stderr);
        Err(AdbScreenshotError::ExecutionError { code: output.code, stdout, stderr })
    } else if crlf_line_ends {
        Ok(replace_crlf(output.stdout))
    } else {
        Ok(output.stdout)
    }
}

/// What decoding makes of a screenshot's bytes: the image that they encode,
/// in the format that their first bytes announce, or the reason why no
/// format is announced or no image of that format is encoded.
pub open spec fn decoded_screenshot(bytes: Seq<u8>) -> Result<DynamicImage, AdbScreenshotError> {
    match guessed_format(bytes) {
        Ok(format) => match decoded_image(bytes, format) {
            Ok(image) => Ok(image),
            Err(e) => Err(AdbScreenshotError::ImageDecodeError(e)),
        },
        Err(e) => Err(AdbScreenshotError::ImageDecodeError(e)),
    }
}

/// Decodes the bytes of a screenshot: the format is guessed from the first
/// bytes, and the decoder of that format reads the image.
pub fn decode_screenshot(bytes: &Vec<u8>) -> (r: Result<DynamicImage, AdbScreenshotError>)
    ensures
        r == decoded_screenshot(bytes@),
{
    match guess_format(bytes) {
        Ok(format) => decoded_outcome(decode_frame(bytes, format)),
        Err(e) => Err(AdbScreenshotError::ImageDecodeError(e)),
    }
}

/// What a screenshot command that has run amounts to: the image decoded from
/// its payload, or the command's exit code with what it wrote, or the reason
/// why its payload is no image.
pub fn screenshot_outcome(output: CommandOutput, crlf_line_ends: bool) -> (r: Result<
    DynamicImage,
    AdbScreenshotError,
>)
    ensures
        output.success ==> r == decoded_screenshot(
            screenshot_bytes(output.stdout@, crlf_line_ends),
        ),
        !output.success ==> match r {
            Err(AdbScreenshotError::ExecutionError { code, stdout, stderr }) => {
                &&& code == output.code
                &&& stdout@ == output_text(output.stdout@)
                &&& stderr@ == output_text(output.stderr@)
            },
            _ => false,
        },
{
    match screenshot_payload(output, crlf_line_ends) {
        Ok(bytes) => decode_screenshot(&bytes),
        Err(e) => Err(e),
    }
}

} // verus!
