//! Textures: an immutable pixel grid with a border color, and the wrap and
//! filter policies a sampler applies to it.

use vstd::prelude::*;
use vstd::std_specs::convert::FromSpecImpl;
use crate::color::{bytes_of, pack_bytes, pack_words, words_of, Color};
use crate::image_rw::{image_read, is_decoded_image, pixels_of, ImageReadError, ImageWriteError};

verus! {

/// Why a texture operation was refused.
#[derive(Debug)]
pub enum Texture2DError {
    /// A negative width or height was asked for.
    BadSize,
    /// A texel outside the grid was asked for.
    BadPosition,
    /// The image behind the texture could not be read.
    ImageReadError(ImageReadError),
    /// The texture could not be written out as an image.
    ImageWriteError(ImageWriteError),
}

impl From<ImageReadError> for Texture2DError {
    fn from(error: ImageReadError) -> (e: Texture2DError) {
        Texture2DError::ImageReadError(error)
    }
}

impl FromSpecImpl<ImageReadError> for Texture2DError {
    open spec fn obeys_from_spec() -> bool {
        true
    }

    open spec fn from_spec(error: ImageReadError) -> Texture2DError {
        Texture2DError::ImageReadError(error)
    }
}

impl From<ImageWriteError> for Texture2DError {
    fn from(error: ImageWriteError) -> (e: Texture2DError) {
        Texture2DError::ImageWriteError(error)
    }
}

impl FromSpecImpl<ImageWriteError> for Texture2DError {
    open spec fn obeys_from_spec() -> bool {
        true
    }

    open spec fn from_spec(error: ImageWriteError) -> Texture2DError {
        Texture2DError::ImageWriteError(error)
    }
}

/// How a texture coordinate outside `[0, 1]` is brought back into range.
#[derive(Copy, Clone, PartialEq, Eq, Debug, Structural)]
pub enum Texture2DWrapMode {
    /// Clamp to `[0, 1]`.
    ClampToEdge,
    /// Clamp to `[0, 1]`, and answer with the border color when the
    /// coordinate was outside.
    ClampToBorder,
    /// Keep the fractional part.
    Repeat,
    /// Keep the fractional part, reflected in every odd tile.
    MirroredRepeat,
}

/// How a texel is chosen for a coordinate between texel centers.
#[derive(Copy, Clone, PartialEq, Eq, Debug, Structural)]
pub enum Texture2DFilterMode {
    /// The nearest texel.
    Nearest,
    /// A bilinear blend of the four surrounding texels.
    Linear,
}

/// The mathematical content of a texture: a row-major grid indexed by
/// `y * width + x`, and the border color.
pub struct Texture2DView {
    pub width: int,
    pub height: int,
    pub pixels: Seq<Color>,
    pub border_color: Color,
}

impl Texture2DView {
    /// The grid holds exactly `width * height` texels.
    pub open spec fn wf(self) -> bool {
        &&& 0 <= self.width <= i32::MAX
        &&& 0 <= self.height <= i32::MAX
        &&& self.pixels.len() == self.width * self.height
    }

    pub open spec fn in_bounds(self, x: int, y: int) -> bool {
        0 <= x < self.width && 0 <= y < self.height
    }

    pub open spec fn offset(self, x: int, y: int) -> int {
        y * self.width + x
    }

    /// The texel stored at an in-bounds position.
    pub open spec fn color_at(self, x: int, y: int) -> Color
        recommends
            self.in_bounds(x, y),
    {
        self.pixels[self.offset(x, y)]
    }
}

/// A pixel grid to sample from.
pub struct Texture2D {
    pixels: Vec<Color>,
    border_color: Color,
    width: i32,
    height: i32,
}

impl View for Texture2D {
    type V = Texture2DView;

    closed spec fn view(&self) -> Texture2DView {
        Texture2DView {
            width: self.width as int,
            height: self.height as int,
            pixels: self.pixels@,
            border_color: self.border_color,
        }
    }
}

impl Texture2D {
    #[verifier::type_invariant]
    spec fn inv(&self) -> bool {
        self@.wf()
    }

    /// Creates a texture filled with transparent black.
    pub fn create(width: i32, height: i32) -> (r: Result<Texture2D, Texture2DError>)
        requires
            width < 0 || height < 0 || width * height <= usize::MAX,
        ensures
            (width < 0 || height < 0) ==> r is Err && r->Err_0 is BadSize,
            (width >= 0 && height >= 0) ==> r is Ok && r->Ok_0@ == (Texture2DView {
                width: width as int,
                height: height as int,
                pixels: Seq::new((width * height) as nat, |i: int| Color { r: 0, g: 0, b: 0, a: 0 }),
                border_color: Color { r: 0, g: 0, b: 0, a: 0 },
            }),
    {
        Self::create_init_color(width, height, &Color::transparent())
    }

    /// Creates a texture with every texel set to `color` and a transparent
    /// border color. Fails with `BadSize` exactly when a dimension is
    /// negative.
    pub fn create_init_color(width: i32, height: i32, color: &Color) -> (r: Result<
        Texture2D,
        Texture2DError,
    >)
        requires
            width < 0 || height < 0 || width * height <= usize::MAX,
        ensures
            (width < 0 || height < 0) ==> r is Err && r->Err_0 is BadSize,
            (width >= 0 && height >= 0) ==> r is Ok && r->Ok_0@ == (Texture2DView {
                width: width as int,
                height: height as int,
                pixels: Seq::new((width * height) as nat, |i: int| *color),
                border_color: Color { r: 0, g: 0, b: 0, a: 0 },
            }),
    {
        if width < 0 || height < 0 {
            return Err(Texture2DError::BadSize);
        }
        assert(0 <= width * height) by (nonlinear_arith)
            requires
                0 <= width,
                0 <= height,
        ;
        let cells: usize = width as usize * height as usize;
        let texture = Texture2D {
            pixels: vec![*color; cells],
            border_color: Color::transparent(),
            width,
            height,
        };
        assert(texture@.pixels =~= Seq::new((width * height) as nat, |i: int| *color));
        Ok(texture)
    }

    /// Builds a texture from what the image decoder produced: the RGBA
    /// buffer and the size it reported. The border color is transparent.
    /// Fails with the decode error of [`image_read`] unless the buffer
    /// holds a complete image with at least one pixel.
    pub fn load(data: &Vec<u8>, width: i32, height: i32) -> (r: Result<Texture2D, Texture2DError>)
        ensures
            is_decoded_image(data@, width as int, height as int) ==> r is Ok && r->Ok_0@ == (
            Texture2DView {
                width: width as int,
                height: height as int,
                pixels: pixels_of(data@),
                border_color: Color { r: 0, g: 0, b: 0, a: 0 },
            }),
            !is_decoded_image(data@, width as int, height as int) ==> r is Err && (
            r->Err_0 matches Texture2DError::ImageReadError(e) && e is DecodeError),
    {
        match image_read(data, width, height) {
            Ok(pixels) => Ok(
                Texture2D { pixels, border_color: Color::transparent(), width, height },
            ),
            Err(e) => Err(Texture2DError::from(e)),
        }
    }

    pub fn width(&self) -> (w: i32)
        ensures
            w == self@.width,
            self@.wf(),
    {
        proof {
            use_type_invariant(self);
        }
        self.width
    }

    pub fn height(&self) -> (h: i32)
        ensures
            h == self@.height,
            self@.wf(),
    {
        proof {
            use_type_invariant(self);
        }
        self.height
    }

    /// The color a sampler answers with under `ClampToBorder` when the
    /// coordinate is out of range.
    pub fn border_color(&self) -> (c: Color)
        ensures
            c == self@.border_color,
    {
        self.border_color
    }

    /// The row-major offset of a texel, or `BadPosition` outside the grid.
    fn calc_offset(&self, x: i32, y: i32) -> (r: Result<usize, Texture2DError>)
        ensures
            self@.in_bounds(x as int, y as int) ==> r is Ok && r->Ok_0 == self@.offset(
                x as int,
                y as int,
            ) && r->Ok_0 < self@.pixels.len(),
            !self@.in_bounds(x as int, y as int) ==> r is Err && r->Err_0 is BadPosition,
    {
        proof {
            use_type_invariant(self);
        }
        if x < 0 || y < 0 || x >= self.width || y >= self.height {
            return Err(Texture2DError::BadPosition);
        }
        let row: usize = y as usize;
        let stride: usize = self.width as usize;
        let column: usize = x as usize;
        assert(row * stride + column < self.width * self.height) by (nonlinear_arith)
            requires
                0 <= row < self.height,
                0 <= column < stride,
                stride == self.width,
        ;
        assert(self.pixels.len() == self.width * self.height);
        assert(0 <= row * stride) by (nonlinear_arith);
        Ok(row * stride + column)
    }

    /// Reads one texel, or fails with `BadPosition` outside the grid.
    pub fn get_color(&self, x: i32, y: i32) -> (r: Result<&Color, Texture2DError>)
        ensures
            self@.in_bounds(x as int, y as int) ==> r is Ok && *r->Ok_0 == self@.color_at(
                x as int,
                y as int,
            ),
            !self@.in_bounds(x as int, y as int) ==> r is Err && r->Err_0 is BadPosition,
    {
        match self.calc_offset(x, y) {
            Ok(offset) => Ok(&self.pixels[offset]),
            Err(e) => Err(e),
        }
    }

    /// Replaces the border color; the grid is left alone.
    pub fn set_border_color(&mut self, color: &Color)
        ensures
            final(self)@ == (Texture2DView { border_color: *color, ..old(self)@ }),
    {
        proof {
            use_type_invariant(&*self);
        }
        self.border_color = *color;
    }

    /// The grid as bytes, four per texel in RGBA order. The result is a
    /// copy.
    pub fn to_u8_slice(&self) -> (bytes: Vec<u8>)
        ensures
            bytes@ == bytes_of(self@.pixels),
    {
        pack_bytes(&self.pixels)
    }

    /// The grid as packed texels, one 32-bit word each with red in the
    /// lowest byte. The result is a copy.
    pub fn to_u32_slice(&self) -> (words: Vec<u32>)
        ensures
            words@ == words_of(self@.pixels),
    {
        pack_words(&self.pixels)
    }
}

} // verus!
