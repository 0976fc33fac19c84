//! The boundary with the image codec: which encoder a file extension
//! selects, and how a decoded byte buffer becomes a pixel grid.

use vstd::prelude::*;
use vstd::std_specs::convert::FromSpecImpl;
use vstd::string::StrSliceExecFns;
use crate::color::{bytes_of, Color};

verus! {

/// `std::io::Error`, carried through as an opaque value.
#[verifier::external_type_specification]
#[verifier::external_body]
pub struct ExIoError(std::io::Error);

/// Why an image could not be read.
#[derive(Debug)]
pub enum ImageReadError {
    /// The file could not be opened or read.
    IoError(std::io::Error),
    /// The decoder produced no image, or an image without pixels.
    DecodeError,
}

impl From<std::io::Error> for ImageReadError {
    fn from(error: std::io::Error) -> (e: ImageReadError) {
        ImageReadError::IoError(error)
    }
}

impl FromSpecImpl<std::io::Error> for ImageReadError {
    open spec fn obeys_from_spec() -> bool {
        true
    }

    open spec fn from_spec(error: std::io::Error) -> ImageReadError {
        ImageReadError::IoError(error)
    }
}

/// Why an image could not be written.
#[derive(Debug)]
pub enum ImageWriteError {
    /// The file extension names no supported format.
    UnsupportedImageType,
}

/// The image formats the codec can encode.
#[derive(Copy, Clone, PartialEq, Eq, Debug, Structural)]
pub enum ImageFormat {
    Jpeg,
    Png,
    Bmp,
    Tga,
}

/// `s` spells a name, letter by letter, each letter in either case.
pub open spec fn spells(s: Seq<char>, lower: Seq<char>, upper: Seq<char>) -> bool {
    &&& s.len() == lower.len()
    &&& forall|i: int| 0 <= i < s.len() ==> s[i] == lower[i] || s[i] == upper[i]
}

/// The format a file extension selects, without regard to letter case:
/// `jpg` and `jpeg` select JPEG, `png`, `bmp` and `tga` their namesakes,
/// and every other extension selects nothing.
pub open spec fn image_format_spec(extension: Seq<char>) -> Option<ImageFormat> {
    if spells(extension, seq!['j', 'p', 'g'], seq!['J', 'P', 'G']) || spells(
        extension,
        seq!['j', 'p', 'e', 'g'],
        seq!['J', 'P', 'E', 'G'],
    ) {
        Some(ImageFormat::Jpeg)
    } else if spells(extension, seq!['p', 'n', 'g'], seq!['P', 'N', 'G']) {
        Some(ImageFormat::Png)
    } else if spells(extension, seq!['b', 'm', 'p'], seq!['B', 'M', 'P']) {
        Some(ImageFormat::Bmp)
    } else if spells(extension, seq!['t', 'g', 'a'], seq!['T', 'G', 'A']) {
        Some(ImageFormat::Tga)
    } else {
        None
    }
}

fn is_letter(c: char, lower: char, upper: char) -> (b: bool)
    ensures
        b == (c == lower || c == upper),
{
    c == lower || c == upper
}

impl ImageFormat {
    /// Selects the format for a file extension, given without its dot.
    pub fn from_extension(extension: &str) -> (r: Result<ImageFormat, ImageWriteError>)
        ensures
            match image_format_spec(extension@) {
                Some(format) => r == Ok::<ImageFormat, ImageWriteError>(format),
                None => r is Err && r->Err_0 is UnsupportedImageType,
            },
    {
        let n: usize = extension.unicode_len();
        if n == 3 {
            let a: char = extension.get_char(0);
            let b: char = extension.get_char(1);
            let c: char = extension.get_char(2);
            if is_letter(a, 'j', 'J') && is_letter(b, 'p', 'P') && is_letter(c, 'g', 'G') {
                return Ok(ImageFormat::Jpeg);
            } else if is_letter(a, 'p', 'P') && is_letter(b, 'n', 'N') && is_letter(c, 'g', 'G') {
                return Ok(ImageFormat::Png);
            } else if is_letter(a, 'b', 'B') && is_letter(b, 'm', 'M') && is_letter(c, 'p', 'P') {
                return Ok(ImageFormat::Bmp);
            } else if is_letter(a, 't', 'T') && is_letter(b, 'g', 'G') && is_letter(c, 'a', 'A') {
                return Ok(ImageFormat::Tga);
            }
        } else if n == 4 {
            let a: char = extension.get_char(0);
            let b: char = extension.get_char(1);
            let c: char = extension.get_char(2);
            let d: char = extension.get_char(3);
            if is_letter(a, 'j', 'J') && is_letter(b, 'p', 'P') && is_letter(c, 'e', 'E')
                && is_letter(d, 'g', 'G') {
                return Ok(ImageFormat::Jpeg);
            }
        }
        Err(ImageWriteError::UnsupportedImageType)
    }
}

/// The pixels a byte buffer holds, four bytes per pixel in RGBA order.
pub open spec fn pixels_of(data: Seq<u8>) -> Seq<Color> {
    Seq::new(
        (data.len() / 4) as nat,
        |i: int| Color { r: data[4 * i], g: data[4 * i + 1], b: data[4 * i + 2], a: data[4 * i + 3] },
    )
}

/// A decoder result holds an image when both dimensions are positive and
/// the buffer has four bytes for every pixel.
pub open spec fn is_decoded_image(data: Seq<u8>, width: int, height: int) -> bool {
    width > 0 && height > 0 && data.len() == 4 * (width * height)
}

/// Turns what the decoder produced into a pixel grid. `data` is the
/// decoded RGBA buffer, row-major, and `width` and `height` the size the
/// decoder reported. Anything but a complete image with at least one pixel
/// is a decode error.
pub fn image_read(data: &Vec<u8>, width: i32, height: i32) -> (r: Result<
    Vec<Color>,
    ImageReadError,
>)
    ensures
        is_decoded_image(data@, width as int, height as int) ==> r is Ok && r->Ok_0@ == pixels_of(
            data@,
        ) && r->Ok_0@.len() == width * height,
        !is_decoded_image(data@, width as int, height as int) ==> r is Err
            && r->Err_0 is DecodeError,
{
    if width <= 0 || height <= 0 {
        return Err(ImageReadError::DecodeError);
    }
    assert(0 < width * height <= 0x7fff_ffff * 0x7fff_ffff) by (nonlinear_arith)
        requires
            0 < width <= 0x7fff_ffff,
            0 < height <= 0x7fff_ffff,
    ;
    let cells: u64 = width as u64 * height as u64;
    if data.len() as u64 / 4 != cells || data.len() % 4 != 0 {
        return Err(ImageReadError::DecodeError);
    }
    let count: usize = data.len() / 4;
    let mut pixels: Vec<Color> = Vec::new();
    let mut i: usize = 0;
    while i < count
        invariant
            i <= count,
            count == data.len() / 4,
            data.len() % 4 == 0,
            pixels@.len() == i,
            forall|j: int| 0 <= j < i ==> pixels@[j] == pixels_of(data@)[j],
        decreases count - i,
    {
        let color: Color = Color {
            r: data[4 * i],
            g: data[4 * i + 1],
            b: data[4 * i + 2],
            a: data[4 * i + 3],
        };
        pixels.push(color);
        i += 1;
    }
    assert(pixels@ =~= pixels_of(data@));
    Ok(pixels)
}

/// Reading back the bytes of a pixel grid yields the grid, and writing out
/// the pixels of a whole number of pixels yields the bytes.
pub proof fn lemma_bytes_and_pixels_round_trip(colors: Seq<Color>, data: Seq<u8>)
    requires
        data.len() % 4 == 0,
    ensures
        pixels_of(bytes_of(colors)) == colors,
        bytes_of(pixels_of(data)) == data,
{
    assert(pixels_of(bytes_of(colors)) =~= colors);
    assert(bytes_of(pixels_of(data)) =~= data);
}

} // verus!
