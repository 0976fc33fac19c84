//! The render target: a color grid and a depth grid of equal size.

use vstd::prelude::*;
use vstd::std_specs::convert::FromSpecImpl;
use crate::color::{bytes_of, pack_bytes, pack_words, words_of, Color};
use crate::depth::Depth;
use crate::image_rw::ImageWriteError;

verus! {

/// Why a framebuffer operation was refused.
#[derive(Debug)]
pub enum FramebufferError {
    /// A negative width or height was asked for.
    BadSize,
    /// A pixel outside the grid was asked for.
    BadPosition,
    /// The framebuffer could not be written out as an image.
    ImageWriteError(ImageWriteError),
}

impl From<ImageWriteError> for FramebufferError {
    fn from(error: ImageWriteError) -> (e: FramebufferError) {
        FramebufferError::ImageWriteError(error)
    }
}

impl FromSpecImpl<ImageWriteError> for FramebufferError {
    open spec fn obeys_from_spec() -> bool {
        true
    }

    open spec fn from_spec(error: ImageWriteError) -> FramebufferError {
        FramebufferError::ImageWriteError(error)
    }
}

/// The mathematical content of a framebuffer: two row-major grids indexed
/// by `y * width + x`, and the depth-test switch.
pub struct FramebufferView {
    pub width: int,
    pub height: int,
    pub colors: Seq<Color>,
    pub depths: Seq<Depth>,
    pub depth_test: bool,
}

impl FramebufferView {
    /// Both grids hold exactly `width * height` cells.
    pub open spec fn wf(self) -> bool {
        &&& 0 <= self.width <= i32::MAX
        &&& 0 <= self.height <= i32::MAX
        &&& self.colors.len() == self.width * self.height
        &&& self.depths.len() == self.width * self.height
    }

    /// A framebuffer of the given size, every pixel `color`, every depth the
    /// lowest depth, depth testing on.
    pub open spec fn filled(width: int, height: int, color: Color) -> FramebufferView {
        FramebufferView {
            width,
            height,
            colors: Seq::new((width * height) as nat, |i: int| color),
            depths: Seq::new((width * height) as nat, |i: int| Depth::lowest()),
            depth_test: true,
        }
    }

    pub open spec fn in_bounds(self, x: int, y: int) -> bool {
        0 <= x < self.width && 0 <= y < self.height
    }

    pub open spec fn offset(self, x: int, y: int) -> int {
        y * self.width + x
    }

    /// The color stored at an in-bounds pixel.
    pub open spec fn color_at(self, x: int, y: int) -> Color
        recommends
            self.in_bounds(x, y),
    {
        self.colors[self.offset(x, y)]
    }

    /// The depth stored at a pixel; the highest depth outside the grid.
    pub open spec fn depth_at(self, x: int, y: int) -> Depth {
        if self.in_bounds(x, y) {
            self.depths[self.offset(x, y)]
        } else {
            Depth::highest()
        }
    }

    /// Writes one color; nothing changes outside the grid.
    pub open spec fn set_color(self, x: int, y: int, color: Color) -> FramebufferView {
        if self.in_bounds(x, y) {
            FramebufferView { colors: self.colors.update(self.offset(x, y), color), ..self }
        } else {
            self
        }
    }

    /// Writes one depth; nothing changes outside the grid.
    pub open spec fn set_depth(self, x: int, y: int, depth: Depth) -> FramebufferView {
        if self.in_bounds(x, y) {
            FramebufferView { depths: self.depths.update(self.offset(x, y), depth), ..self }
        } else {
            self
        }
    }

    /// Every pixel becomes `color`.
    pub open spec fn clear_color(self, color: Color) -> FramebufferView {
        FramebufferView { colors: Seq::new(self.colors.len(), |i: int| color), ..self }
    }

    /// Every depth becomes `depth`.
    pub open spec fn clear_depth(self, depth: Depth) -> FramebufferView {
        FramebufferView { depths: Seq::new(self.depths.len(), |i: int| depth), ..self }
    }

    /// A fragment passes when its depth is in the clip range and strictly
    /// greater than the stored depth.
    pub open spec fn passes_depth_test(self, x: int, y: int, depth: Depth) -> bool {
        depth.in_clip_range() && depth.gt_spec(self.depth_at(x, y))
    }

    /// The combined write. With depth testing on, color and depth are
    /// written together when the fragment passes; with depth testing off
    /// the color is written and the depth grid is left alone.
    pub open spec fn set_color_with_depth(
        self,
        x: int,
        y: int,
        depth: Depth,
        color: Color,
    ) -> FramebufferView {
        if self.depth_test {
            if self.passes_depth_test(x, y, depth) {
                self.set_color(x, y, color).set_depth(x, y, depth)
            } else {
                self
            }
        } else {
            self.set_color(x, y, color)
        }
    }

    /// One write of a rasterizer, through the combined write.
    pub open spec fn apply(self, write: PixelWrite) -> FramebufferView {
        self.set_color_with_depth(write.x, write.y, write.depth, write.color)
    }

    /// A sequence of writes through the combined write, first to last.
    pub open spec fn apply_all(self, writes: Seq<PixelWrite>) -> FramebufferView
        decreases writes.len(),
    {
        if writes.len() == 0 {
            self
        } else {
            self.apply_all(writes.drop_last()).apply(writes.last())
        }
    }

    /// One color written to a sequence of pixels by the plain color write,
    /// first to last.
    pub open spec fn fill_all(self, pixels: Seq<(int, int)>, color: Color) -> FramebufferView
        decreases pixels.len(),
    {
        if pixels.len() == 0 {
            self
        } else {
            self.fill_all(pixels.drop_last(), color).set_color(
                pixels.last().0,
                pixels.last().1,
                color,
            )
        }
    }
}

/// What a rasterizer asks the framebuffer to write at one pixel.
pub struct PixelWrite {
    pub x: int,
    pub y: int,
    pub depth: Depth,
    pub color: Color,
}

/// A color grid with a depth grid of the same size.
pub struct Framebuffer {
    color_buffer: Vec<Color>,
    depth_buffer: Vec<Depth>,
    depth_test: bool,
    width: i32,
    height: i32,
}

impl View for Framebuffer {
    type V = FramebufferView;

    closed spec fn view(&self) -> FramebufferView {
        FramebufferView {
            width: self.width as int,
            height: self.height as int,
            colors: self.color_buffer@,
            depths: self.depth_buffer@,
            depth_test: self.depth_test,
        }
    }
}

/// In a well-formed grid every in-bounds pixel has an offset inside the
/// grid.
pub proof fn lemma_offset_in_grid(v: FramebufferView, x: int, y: int)
    requires
        v.wf(),
        v.in_bounds(x, y),
    ensures
        0 <= v.offset(x, y) < v.width * v.height,
{
    assert(y * v.width <= (v.height - 1) * v.width) by (nonlinear_arith)
        requires
            0 <= y <= v.height - 1,
            0 <= v.width,
    ;
    assert((v.height - 1) * v.width == v.height * v.width - v.width) by (nonlinear_arith);
    assert(0 <= y * v.width) by (nonlinear_arith)
        requires
            0 <= y,
            0 <= v.width,
    ;
    assert(v.height * v.width == v.width * v.height) by (nonlinear_arith);
}

/// Two different in-bounds pixels never share an offset.
pub proof fn lemma_offset_is_injective(v: FramebufferView, x1: int, y1: int, x2: int, y2: int)
    requires
        v.wf(),
        v.in_bounds(x1, y1),
        v.in_bounds(x2, y2),
        x1 != x2 || y1 != y2,
    ensures
        v.offset(x1, y1) != v.offset(x2, y2),
{
    if y1 < y2 {
        assert(y2 * v.width >= y1 * v.width + v.width) by (nonlinear_arith)
            requires
                y1 + 1 <= y2,
                0 <= v.width,
        ;
    } else if y2 < y1 {
        assert(y1 * v.width >= y2 * v.width + v.width) by (nonlinear_arith)
            requires
                y2 + 1 <= y1,
                0 <= v.width,
        ;
    }
}

/// Writing an in-bounds pixel and reading it back yields the written
/// color, every other pixel keeps its color, and the depth grid is left
/// alone.
pub proof fn lemma_set_color_then_get(v: FramebufferView, x: int, y: int, color: Color)
    requires
        v.wf(),
        v.in_bounds(x, y),
    ensures
        v.set_color(x, y, color).wf(),
        v.set_color(x, y, color).color_at(x, y) == color,
        forall|x2: int, y2: int|
            v.in_bounds(x2, y2) && (x2 != x || y2 != y) ==> (#[trigger] v.set_color(
                x,
                y,
                color,
            ).color_at(x2, y2)) == v.color_at(x2, y2),
        v.set_color(x, y, color).depths == v.depths,
{
    lemma_offset_in_grid(v, x, y);
    assert forall|x2: int, y2: int|
        v.in_bounds(x2, y2) && (x2 != x || y2 != y) implies (#[trigger] v.set_color(
        x,
        y,
        color,
    ).color_at(x2, y2)) == v.color_at(x2, y2) by {
        lemma_offset_in_grid(v, x2, y2);
        lemma_offset_is_injective(v, x, y, x2, y2);
    }
}

/// Writing a color or a depth outside the grid changes nothing.
pub proof fn lemma_write_out_of_bounds(
    v: FramebufferView,
    x: int,
    y: int,
    depth: Depth,
    color: Color,
)
    requires
        !v.in_bounds(x, y),
    ensures
        v.set_color(x, y, color) == v,
        v.set_depth(x, y, depth) == v,
        v.set_color_with_depth(x, y, depth, color) == v,
{
}

/// On a pixel whose stored depth is the lowest depth, as after a depth
/// clear, the combined write succeeds for every depth in the clip range.
pub proof fn lemma_first_write_passes(
    v: FramebufferView,
    x: int,
    y: int,
    depth: Depth,
    color: Color,
)
    requires
        v.wf(),
        v.in_bounds(x, y),
        v.depth_test,
        v.depth_at(x, y) == Depth::lowest(),
        depth.in_clip_range(),
    ensures
        v.set_color_with_depth(x, y, depth, color).color_at(x, y) == color,
        v.set_color_with_depth(x, y, depth, color).depth_at(x, y) == depth,
{
    lemma_offset_in_grid(v, x, y);
}

/// After a successful combined write with depth `first`, a second write
/// at the same pixel with a strictly smaller depth changes nothing.
pub proof fn lemma_smaller_depth_is_rejected(
    v: FramebufferView,
    x: int,
    y: int,
    first: Depth,
    second: Depth,
    color: Color,
)
    requires
        v.wf(),
        v.in_bounds(x, y),
        v.depth_test,
        v.depth_at(x, y) == first,
        first.gt_spec(second),
    ensures
        v.set_color_with_depth(x, y, second, color) == v,
{
}

/// A second write at the same pixel with a strictly larger depth that lies
/// in the clip range replaces both the color and the depth.
pub proof fn lemma_larger_depth_overwrites(
    v: FramebufferView,
    x: int,
    y: int,
    first: Depth,
    second: Depth,
    color: Color,
)
    requires
        v.wf(),
        v.in_bounds(x, y),
        v.depth_test,
        v.depth_at(x, y) == first,
        second.in_clip_range(),
        second.gt_spec(first),
    ensures
        v.set_color_with_depth(x, y, second, color).color_at(x, y) == color,
        v.set_color_with_depth(x, y, second, color).depth_at(x, y) == second,
{
    lemma_offset_in_grid(v, x, y);
}

/// The combined write keeps the grid well formed and touches no pixel but
/// the one it names.
pub proof fn lemma_combined_write_is_local(
    v: FramebufferView,
    x: int,
    y: int,
    depth: Depth,
    color: Color,
)
    requires
        v.wf(),
    ensures
        v.set_color_with_depth(x, y, depth, color).wf(),
        v.set_color_with_depth(x, y, depth, color).width == v.width,
        v.set_color_with_depth(x, y, depth, color).height == v.height,
        v.set_color_with_depth(x, y, depth, color).depth_test == v.depth_test,
        forall|x2: int, y2: int|
            v.in_bounds(x2, y2) && (x2 != x || y2 != y) ==> {
                &&& #[trigger] v.set_color_with_depth(x, y, depth, color).color_at(x2, y2)
                    == v.color_at(x2, y2)
                &&& v.set_color_with_depth(x, y, depth, color).depth_at(x2, y2) == v.depth_at(
                    x2,
                    y2,
                )
            },
{
    if v.in_bounds(x, y) {
        lemma_offset_in_grid(v, x, y);
        assert forall|x2: int, y2: int| v.in_bounds(x2, y2) && (x2 != x || y2 != y) implies {
            &&& #[trigger] v.set_color_with_depth(x, y, depth, color).color_at(x2, y2)
                == v.color_at(x2, y2)
            &&& v.set_color_with_depth(x, y, depth, color).depth_at(x2, y2) == v.depth_at(x2, y2)
        } by {
            lemma_offset_in_grid(v, x2, y2);
            lemma_offset_is_injective(v, x, y, x2, y2);
        }
    }
}

/// The depth test after a depth clear. The first combined write at a
/// pixel succeeds for every depth in the clip range. A second write at
/// that pixel with a strictly smaller depth changes nothing, and a second
/// write with a strictly larger depth in the clip range replaces the
/// color and the depth.
pub proof fn lemma_depth_test_after_clear(
    v: FramebufferView,
    x: int,
    y: int,
    first: Depth,
    first_color: Color,
    second: Depth,
    second_color: Color,
)
    requires
        v.wf(),
        v.in_bounds(x, y),
        v.depth_test,
        first.in_clip_range(),
    ensures
        ({
            let cleared = v.clear_depth(Depth::lowest());
            let once = cleared.set_color_with_depth(x, y, first, first_color);
            let twice = once.set_color_with_depth(x, y, second, second_color);
            &&& once.color_at(x, y) == first_color
            &&& once.depth_at(x, y) == first
            &&& first.gt_spec(second) ==> twice == once
            &&& second.in_clip_range() && second.gt_spec(first) ==> twice.color_at(x, y)
                == second_color && twice.depth_at(x, y) == second
        }),
{
    let cleared = v.clear_depth(Depth::lowest());
    lemma_offset_in_grid(v, x, y);
    lemma_first_write_passes(cleared, x, y, first, first_color);
    let once = cleared.set_color_with_depth(x, y, first, first_color);
    lemma_combined_write_is_local(cleared, x, y, first, first_color);
    if first.gt_spec(second) {
        lemma_smaller_depth_is_rejected(once, x, y, first, second, second_color);
    }
    if second.in_clip_range() && second.gt_spec(first) {
        lemma_larger_depth_overwrites(once, x, y, first, second, second_color);
    }
}

/// The color of a pixel after painting: the paint where the pixel was
/// touched, its former color elsewhere.
pub open spec fn painted(touched: bool, paint: Color, former: Color) -> Color {
    if touched {
        paint
    } else {
        former
    }
}

/// Some write of the sequence names the pixel `(x, y)`.
pub open spec fn names_pixel(writes: Seq<PixelWrite>, x: int, y: int) -> bool {
    exists|i: int| 0 <= i < writes.len() && (#[trigger] writes[i]).x == x && writes[i].y == y
}

/// A sequence of combined writes keeps the grid well formed, keeps its
/// size and its depth-test switch, and leaves every pixel alone that no
/// write names.
pub proof fn lemma_apply_all_is_local(v: FramebufferView, writes: Seq<PixelWrite>)
    requires
        v.wf(),
    ensures
        v.apply_all(writes).wf(),
        v.apply_all(writes).width == v.width,
        v.apply_all(writes).height == v.height,
        v.apply_all(writes).depth_test == v.depth_test,
        forall|x: int, y: int|
            v.in_bounds(x, y) && !names_pixel(writes, x, y) ==> {
                &&& (#[trigger] v.apply_all(writes).color_at(x, y)) == v.color_at(x, y)
                &&& v.apply_all(writes).depth_at(x, y) == v.depth_at(x, y)
            },
    decreases writes.len(),
{
    if writes.len() > 0 {
        let before = v.apply_all(writes.drop_last());
        let last = writes.last();
        lemma_apply_all_is_local(v, writes.drop_last());
        lemma_combined_write_is_local(before, last.x, last.y, last.depth, last.color);
        assert forall|x: int, y: int| v.in_bounds(x, y) && !names_pixel(writes, x, y) implies {
            &&& (#[trigger] v.apply_all(writes).color_at(x, y)) == v.color_at(x, y)
            &&& v.apply_all(writes).depth_at(x, y) == v.depth_at(x, y)
        } by {
            if names_pixel(writes.drop_last(), x, y) {
                let i = choose|i: int|
                    0 <= i < writes.drop_last().len() && (#[trigger] writes.drop_last()[i]).x == x
                        && writes.drop_last()[i].y == y;
                assert(writes[i].x == x && writes[i].y == y);
            }
            assert(writes[writes.len() - 1] == last);
            assert(last.x != x || last.y != y);
            assert(before.in_bounds(x, y));
            assert(before.color_at(x, y) == v.color_at(x, y));
            assert(before.depth_at(x, y) == v.depth_at(x, y));
            assert(v.apply_all(writes) == before.set_color_with_depth(
                last.x,
                last.y,
                last.depth,
                last.color,
            ));
            assert(before.set_color_with_depth(last.x, last.y, last.depth, last.color).color_at(
                x,
                y,
            ) == before.color_at(x, y));
        }
    }
}

/// With depth testing off, a sequence of combined writes that all carry
/// one color gives that color to every pixel of the grid that a write
/// names, leaves the other pixels as they were, and leaves the depth grid
/// alone.
pub proof fn lemma_apply_all_without_depth_test(
    v: FramebufferView,
    writes: Seq<PixelWrite>,
    color: Color,
)
    requires
        v.wf(),
        !v.depth_test,
        forall|i: int| 0 <= i < writes.len() ==> (#[trigger] writes[i]).color == color,
    ensures
        v.apply_all(writes).depths == v.depths,
        forall|x: int, y: int|
            v.in_bounds(x, y) ==> (#[trigger] v.apply_all(writes).color_at(x, y)) == painted(
                names_pixel(writes, x, y),
                color,
                v.color_at(x, y),
            ),
    decreases writes.len(),
{
    if writes.len() > 0 {
        let before = v.apply_all(writes.drop_last());
        let last = writes.last();
        lemma_apply_all_without_depth_test(v, writes.drop_last(), color);
        lemma_apply_all_is_local(v, writes.drop_last());
        lemma_apply_all_is_local(v, writes);
        assert(writes[writes.len() - 1] == last);
        assert forall|x: int, y: int| v.in_bounds(x, y) implies (#[trigger] v.apply_all(
            writes,
        ).color_at(x, y)) == painted(names_pixel(writes, x, y), color, v.color_at(x, y)) by {
            assert(before.in_bounds(x, y));
            if last.x == x && last.y == y {
                lemma_set_color_then_get(before, x, y, color);
            } else {
                lemma_combined_write_is_local(before, last.x, last.y, last.depth, last.color);
                if names_pixel(writes.drop_last(), x, y) {
                    let i = choose|i: int|
                        0 <= i < writes.drop_last().len() && (#[trigger] writes.drop_last()[i]).x
                            == x && writes.drop_last()[i].y == y;
                    assert(writes[i].x == x && writes[i].y == y);
                } else if names_pixel(writes, x, y) {
                    let i = choose|i: int|
                        0 <= i < writes.len() && (#[trigger] writes[i]).x == x && writes[i].y == y;
                    assert(writes.drop_last()[i].x == x);
                }
            }
        }
    }
}

/// Filling a sequence of pixels gives the color to every pixel of the grid
/// that the sequence holds, leaves the other pixels as they were, and
/// leaves the depth grid and the depth-test switch alone.
pub proof fn lemma_fill_all_colors_its_pixels(
    v: FramebufferView,
    pixels: Seq<(int, int)>,
    color: Color,
)
    requires
        v.wf(),
    ensures
        v.fill_all(pixels, color).wf(),
        v.fill_all(pixels, color).width == v.width,
        v.fill_all(pixels, color).height == v.height,
        v.fill_all(pixels, color).depths == v.depths,
        v.fill_all(pixels, color).depth_test == v.depth_test,
        forall|x: int, y: int|
            v.in_bounds(x, y) ==> (#[trigger] v.fill_all(pixels, color).color_at(x, y)) == painted(
                pixels.contains((x, y)),
                color,
                v.color_at(x, y),
            ),
    decreases pixels.len(),
{
    if pixels.len() > 0 {
        let before = v.fill_all(pixels.drop_last(), color);
        let last = pixels.last();
        lemma_fill_all_colors_its_pixels(v, pixels.drop_last(), color);
        assert(pixels[pixels.len() - 1] == last);
        assert forall|x: int, y: int| v.in_bounds(x, y) implies (#[trigger] v.fill_all(
            pixels,
            color,
        ).color_at(x, y)) == painted(pixels.contains((x, y)), color, v.color_at(x, y)) by {
            assert(before.in_bounds(x, y));
            if last == (x, y) {
                lemma_set_color_then_get(before, x, y, color);
            } else {
                if before.in_bounds(last.0, last.1) {
                    lemma_set_color_then_get(before, last.0, last.1, color);
                }
                if pixels.drop_last().contains((x, y)) {
                    let i = choose|i: int|
                        0 <= i < pixels.drop_last().len() && pixels.drop_last()[i] == (x, y);
                    assert(pixels[i] == (x, y));
                } else if pixels.contains((x, y)) {
                    let i = choose|i: int| 0 <= i < pixels.len() && pixels[i] == (x, y);
                    assert(pixels.drop_last()[i] == (x, y));
                }
            }
        }
        if before.in_bounds(last.0, last.1) {
            lemma_set_color_then_get(before, last.0, last.1, color);
        }
    }
}

impl Framebuffer {
    #[verifier::type_invariant]
    spec fn inv(&self) -> bool {
        self@.wf()
    }

    /// Creates a framebuffer filled with transparent black.
    pub fn create(width: i32, height: i32) -> (r: Result<Framebuffer, FramebufferError>)
        requires
            width < 0 || height < 0 || width * height <= usize::MAX,
        ensures
            (width < 0 || height < 0) ==> r is Err && r->Err_0 is BadSize,
            (width >= 0 && height >= 0) ==> r is Ok && r->Ok_0@ == FramebufferView::filled(
                width as int,
                height as int,
                Color { r: 0, g: 0, b: 0, a: 0 },
            ),
    {
        Self::create_init_color(width, height, &Color::transparent())
    }

    /// Creates a framebuffer with every pixel set to `color`, every depth
    /// set to the lowest depth and depth testing switched on. Fails with
    /// `BadSize` exactly when a dimension is negative.
    pub fn create_init_color(width: i32, height: i32, color: &Color) -> (r: Result<
        Framebuffer,
        FramebufferError,
    >)
        requires
            width < 0 || height < 0 || width * height <= usize::MAX,
        ensures
            (width < 0 || height < 0) ==> r is Err && r->Err_0 is BadSize,
            (width >= 0 && height >= 0) ==> r is Ok && r->Ok_0@ == FramebufferView::filled(
                width as int,
                height as int,
                *color,
            ),
    {
        if width < 0 || height < 0 {
            return Err(FramebufferError::BadSize);
        }
        assert(0 <= width * height) by (nonlinear_arith)
            requires
                0 <= width,
                0 <= height,
        ;
        let cells: usize = width as usize * height as usize;
        let fb = Framebuffer {
            color_buffer: vec![*color; cells],
            depth_buffer: vec![Depth::min_value(); cells],
            depth_test: true,
            width,
            height,
        };
        assert(fb@.colors =~= FramebufferView::filled(width as int, height as int, *color).colors);
        assert(fb@.depths =~= FramebufferView::filled(width as int, height as int, *color).depths);
        Ok(fb)
    }

    pub fn width(&self) -> (w: i32)
        ensures
            w == self@.width,
            self@.wf(),
    {
        proof {
            use_type_invariant(self);
        }
        self.width
    }

    pub fn height(&self) -> (h: i32)
        ensures
            h == self@.height,
            self@.wf(),
    {
        proof {
            use_type_invariant(self);
        }
        self.height
    }

    /// The row-major offset of a pixel, or `BadPosition` outside the grid.
    fn calc_offset(&self, x: i32, y: i32) -> (r: Result<usize, FramebufferError>)
        ensures
            self@.wf(),
            self@.in_bounds(x as int, y as int) ==> r is Ok && r->Ok_0 == self@.offset(
                x as int,
                y as int,
            ) && r->Ok_0 < self@.width * self@.height,
            !self@.in_bounds(x as int, y as int) ==> r is Err && r->Err_0 is BadPosition,
    {
        proof {
            use_type_invariant(self);
        }
        if x < 0 || y < 0 || x >= self.width || y >= self.height {
            return Err(FramebufferError::BadPosition);
        }
        proof {
            lemma_offset_in_grid(self@, x as int, y as int);
            assert(0 <= y * self.width) by (nonlinear_arith)
                requires
                    0 <= y,
                    0 <= self.width,
            ;
        }
        let row: usize = y as usize;
        let stride: usize = self.width as usize;
        let column: usize = x as usize;
        assert(row * stride == y * self.width) by (nonlinear_arith)
            requires
                row == y,
                stride == self.width,
        ;
        assert(self.color_buffer.len() == self.width * self.height);
        Ok(row * stride + column)
    }

    /// Writes one pixel. A position outside the grid is ignored.
    pub fn set_color(&mut self, x: i32, y: i32, color: &Color)
        ensures
            final(self)@ == old(self)@.set_color(x as int, y as int, *color),
    {
        if let Ok(offset) = self.calc_offset(x, y) {
            self.color_buffer[offset] = *color;
        }
    }

    /// Reads one pixel, or fails with `BadPosition` outside the grid.
    pub fn get_color(&self, x: i32, y: i32) -> (r: Result<&Color, FramebufferError>)
        ensures
            self@.in_bounds(x as int, y as int) ==> r is Ok && *r->Ok_0 == self@.color_at(
                x as int,
                y as int,
            ),
            !self@.in_bounds(x as int, y as int) ==> r is Err && r->Err_0 is BadPosition,
    {
        match self.calc_offset(x, y) {
            Ok(offset) => Ok(&self.color_buffer[offset]),
            Err(e) => Err(e),
        }
    }

    /// Fills the color grid with `color`.
    pub fn clear_color_with(&mut self, color: &Color)
        ensures
            final(self)@ == old(self)@.clear_color(*color),
    {
        proof {
            use_type_invariant(&*self);
        }
        let n: usize = self.color_buffer.len();
        let mut i: usize = 0;
        while i < n
            invariant
                i <= n,
                n == self.color_buffer@.len(),
                self.color_buffer@.len() == old(self).color_buffer@.len(),
                forall|j: int| 0 <= j < i ==> self.color_buffer@[j] == *color,
                self.depth_buffer == old(self).depth_buffer,
                self.depth_test == old(self).depth_test,
                self.width == old(self).width,
                self.height == old(self).height,
                old(self)@.wf(),
            decreases n - i,
        {
            self.color_buffer[i] = *color;
            i += 1;
        }
        assert(self@.colors =~= old(self)@.clear_color(*color).colors);
    }

    /// Fills the color grid with transparent black.
    pub fn clear_color(&mut self)
        ensures
            final(self)@ == old(self)@.clear_color(Color { r: 0, g: 0, b: 0, a: 0 }),
    {
        self.clear_color_with(&Color::transparent());
    }

    /// Fills the depth grid with `depth`.
    pub fn clear_depth_with(&mut self, depth: Depth)
        ensures
            final(self)@ == old(self)@.clear_depth(depth),
    {
        proof {
            use_type_invariant(&*self);
        }
        let n: usize = self.depth_buffer.len();
        let mut i: usize = 0;
        while i < n
            invariant
                i <= n,
                n == self.depth_buffer@.len(),
                self.depth_buffer@.len() == old(self).depth_buffer@.len(),
                forall|j: int| 0 <= j < i ==> self.depth_buffer@[j] == depth,
                self.color_buffer == old(self).color_buffer,
                self.depth_test == old(self).depth_test,
                self.width == old(self).width,
                self.height == old(self).height,
                old(self)@.wf(),
            decreases n - i,
        {
            self.depth_buffer[i] = depth;
            i += 1;
        }
        assert(self@.depths =~= old(self)@.clear_depth(depth).depths);
    }

    /// Fills the depth grid with the lowest depth, so that every in-range
    /// fragment passes the next depth test.
    pub fn clear_depth(&mut self)
        ensures
            final(self)@ == old(self)@.clear_depth(Depth::lowest()),
    {
        self.clear_depth_with(Depth::min_value());
    }

    /// Switches the depth test on or off.
    pub fn set_depth_test(&mut self, enable: bool)
        ensures
            final(self)@ == (FramebufferView { depth_test: enable, ..old(self)@ }),
    {
        proof {
            use_type_invariant(&*self);
        }
        self.depth_test = enable;
    }

    /// Writes one depth. A position outside the grid is ignored.
    pub fn set_depth(&mut self, x: i32, y: i32, depth: Depth)
        ensures
            final(self)@ == old(self)@.set_depth(x as int, y as int, depth),
    {
        if let Ok(offset) = self.calc_offset(x, y) {
            self.depth_buffer[offset] = depth;
        }
    }

    /// Reads one depth. Outside the grid the answer is the highest depth.
    pub fn get_depth(&self, x: i32, y: i32) -> (d: Depth)
        ensures
            d == self@.depth_at(x as int, y as int),
    {
        if let Ok(offset) = self.calc_offset(x, y) {
            self.depth_buffer[offset]
        } else {
            Depth::max_value()
        }
    }

    /// The combined write used by the rasterizer. With depth testing on,
    /// the pixel and its depth are replaced exactly when `depth` lies in the
    /// clip range and is strictly greater than the stored depth. With depth
    /// testing off the color is written and `depth` is ignored.
    pub fn set_color_with_depth(&mut self, x: i32, y: i32, depth: Depth, color: &Color)
        ensures
            final(self)@ == old(self)@.set_color_with_depth(x as int, y as int, depth, *color),
    {
        if self.depth_test {
            if depth.is_in_clip_range() && depth.gt(self.get_depth(x, y)) {
                self.set_color(x, y, color);
                self.set_depth(x, y, depth);
            }
        } else {
            self.set_color(x, y, color);
        }
    }

    /// The color grid as bytes, four per pixel in RGBA order. The result is
    /// a copy: later writes to the framebuffer do not show in it.
    pub fn to_u8_slice(&self) -> (bytes: Vec<u8>)
        ensures
            bytes@ == bytes_of(self@.colors),
    {
        pack_bytes(&self.color_buffer)
    }

    /// The color grid as packed pixels, one 32-bit word each with red in
    /// the lowest byte. The result is a copy.
    pub fn to_u32_slice(&self) -> (words: Vec<u32>)
        ensures
            words@ == words_of(self@.colors),
    {
        pack_words(&self.color_buffer)
    }
}

} // verus!
