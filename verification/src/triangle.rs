//! Triangle rasterization: bounding box, exact barycentric coverage and
//! the per-fragment writes.

use vstd::prelude::*;
use crate::color::Color;
use crate::depth::Depth;
use crate::framebuffer::{
    lemma_apply_all_is_local, lemma_fill_all_colors_its_pixels, names_pixel, painted,
    Framebuffer, FramebufferView, PixelWrite,
};
use crate::vector::{cross_spec, Vec2i, Vec3i};

verus! {

/// The smaller of two integers.
pub open spec fn lower(a: int, b: int) -> int {
    if a <= b {
        a
    } else {
        b
    }
}

/// The larger of two integers.
pub open spec fn higher(a: int, b: int) -> int {
    if a >= b {
        a
    } else {
        b
    }
}

/// The smallest of three coordinates, clamped to `[0, limit]` from above
/// first and from below last.
pub open spec fn clamped_low(limit: int, a: int, b: int, c: int) -> int {
    higher(0, lower(limit, lower(a, lower(b, c))))
}

/// The largest of three coordinates, clamped to `[0, limit]` from below
/// first and from above last.
pub open spec fn clamped_high(limit: int, a: int, b: int, c: int) -> int {
    lower(limit, higher(0, higher(a, higher(b, c))))
}

/// An axis-aligned pixel rectangle with inclusive corners. It holds no
/// pixel when a `max` coordinate is below the `min` coordinate.
#[derive(Copy, Clone, PartialEq, Eq, Debug, Structural)]
pub struct BoundingBox {
    pub min: Vec2i,
    pub max: Vec2i,
}

/// The two integer vectors whose cross product yields the barycentric
/// numerators of the pixel `(x, y)`.
pub open spec fn edge_vectors(x: int, y: int, p0: Vec2i, p1: Vec2i, p2: Vec2i) -> (
    (int, int, int),
    (int, int, int),
) {
    ((p2.x - p0.x, p1.x - p0.x, p0.x - x), (p2.y - p0.y, p1.y - p0.y, p0.y - y))
}

/// The cross product `u` from which the barycentric weights of the pixel
/// `(x, y)` derive: the weights of `p0`, `p1` and `p2` are
/// `1 - (u.0 + u.1) / u.2`, `u.1 / u.2` and `u.0 / u.2`.
pub open spec fn barycentric_spec(x: int, y: int, p0: Vec2i, p1: Vec2i, p2: Vec2i) -> (
    int,
    int,
    int,
) {
    let (s0, s1) = edge_vectors(x, y, p0, p1, p2);
    cross_spec(s0, s1)
}

/// Twice the signed area of the triangle. It is the third component of
/// every pixel's cross product; a triangle is degenerate when it is zero.
pub open spec fn doubled_area(p0: Vec2i, p1: Vec2i, p2: Vec2i) -> int {
    (p2.x - p0.x) * (p1.y - p0.y) - (p1.x - p0.x) * (p2.y - p0.y)
}

/// All three barycentric weights are non-negative, as exact fractions.
/// A zero denominator rejects the pixel.
pub open spec fn covers(u: (int, int, int)) -> bool {
    if u.2 > 0 {
        u.0 >= 0 && u.1 >= 0 && u.0 + u.1 <= u.2
    } else if u.2 < 0 {
        u.0 <= 0 && u.1 <= 0 && u.0 + u.1 >= u.2
    } else {
        false
    }
}

fn smaller(a: i32, b: i32) -> (r: i32)
    ensures
        r == lower(a as int, b as int),
{
    if a <= b {
        a
    } else {
        b
    }
}

fn larger(a: i32, b: i32) -> (r: i32)
    ensures
        r == higher(a as int, b as int),
{
    if a >= b {
        a
    } else {
        b
    }
}

/// The bounding box of three screen positions, clamped to the pixels of
/// the framebuffer.
pub fn bounding_box(framebuffer: &Framebuffer, p0: &Vec2i, p1: &Vec2i, p2: &Vec2i) -> (b:
    BoundingBox)
    ensures
        b.min.x == clamped_low(framebuffer@.width - 1, p0.x as int, p1.x as int, p2.x as int),
        b.min.y == clamped_low(framebuffer@.height - 1, p0.y as int, p1.y as int, p2.y as int),
        b.max.x == clamped_high(framebuffer@.width - 1, p0.x as int, p1.x as int, p2.x as int),
        b.max.y == clamped_high(framebuffer@.height - 1, p0.y as int, p1.y as int, p2.y as int),
{
    let clamp: Vec2i = Vec2i { x: framebuffer.width() - 1, y: framebuffer.height() - 1 };
    let mut min: Vec2i = clamp;
    let mut max: Vec2i = Vec2i { x: 0, y: 0 };
    min.x = larger(0, smaller(min.x, p0.x));
    min.y = larger(0, smaller(min.y, p0.y));
    min.x = larger(0, smaller(min.x, p1.x));
    min.y = larger(0, smaller(min.y, p1.y));
    min.x = larger(0, smaller(min.x, p2.x));
    min.y = larger(0, smaller(min.y, p2.y));
    max.x = smaller(clamp.x, larger(max.x, p0.x));
    max.y = smaller(clamp.y, larger(max.y, p0.y));
    max.x = smaller(clamp.x, larger(max.x, p1.x));
    max.y = smaller(clamp.y, larger(max.y, p1.y));
    max.x = smaller(clamp.x, larger(max.x, p2.x));
    max.y = smaller(clamp.y, larger(max.y, p2.y));
    BoundingBox { min, max }
}

/// The cross product from which the barycentric weights of `p` with
/// respect to the triangle `p0`, `p1`, `p2` derive.
pub fn barycentric(p: &Vec2i, p0: &Vec2i, p1: &Vec2i, p2: &Vec2i) -> (u: Vec3i)
    ensures
        u@ == barycentric_spec(p.x as int, p.y as int, *p0, *p1, *p2),
{
    let s0: Vec3i = Vec3i {
        x: p2.x as i128 - p0.x as i128,
        y: p1.x as i128 - p0.x as i128,
        z: p0.x as i128 - p.x as i128,
    };
    let s1: Vec3i = Vec3i {
        x: p2.y as i128 - p0.y as i128,
        y: p1.y as i128 - p0.y as i128,
        z: p0.y as i128 - p.y as i128,
    };
    s0.cross(&s1)
}

/// Whether a pixel with cross product `u` lies inside the triangle or on
/// its boundary.
pub fn is_covered(u: &Vec3i) -> (b: bool)
    ensures
        b == covers(u@),
{
    if u.z > 0 {
        u.x >= 0 && u.y >= 0 && u.x <= u.z - u.y
    } else if u.z < 0 {
        u.x <= 0 && u.y <= 0 && u.x >= u.z - u.y
    } else {
        false
    }
}

/// A pixel the triangle covers, with the cross product its barycentric
/// weights derive from.
#[derive(Copy, Clone, PartialEq, Eq, Debug, Structural)]
pub struct Fragment {
    pub x: i32,
    pub y: i32,
    pub u: Vec3i,
}

/// The mathematical content of a fragment.
pub struct FragmentView {
    pub x: int,
    pub y: int,
    pub u: (int, int, int),
}

impl View for Fragment {
    type V = FragmentView;

    open spec fn view(&self) -> FragmentView {
        FragmentView { x: self.x as int, y: self.y as int, u: self.u@ }
    }
}

/// What shading produced for one fragment.
#[derive(Copy, Clone, PartialEq, Eq, Debug, Structural)]
pub struct Shade {
    pub depth: Depth,
    pub color: Color,
}

/// The fragment of the pixel `(x, y)`.
pub open spec fn fragment_at(x: int, y: int, p0: Vec2i, p1: Vec2i, p2: Vec2i) -> FragmentView {
    FragmentView { x, y, u: barycentric_spec(x, y, p0, p1, p2) }
}

/// The covered pixels of row `y` with `x_min <= x < x_end`, from left to
/// right.
pub open spec fn row_fragments(
    y: int,
    x_min: int,
    x_end: int,
    p0: Vec2i,
    p1: Vec2i,
    p2: Vec2i,
) -> Seq<FragmentView>
    decreases x_end - x_min,
{
    if x_end <= x_min {
        Seq::empty()
    } else {
        let before = row_fragments(y, x_min, x_end - 1, p0, p1, p2);
        if covers(barycentric_spec(x_end - 1, y, p0, p1, p2)) {
            before.push(fragment_at(x_end - 1, y, p0, p1, p2))
        } else {
            before
        }
    }
}

/// The covered pixels of the rows `y_min <= y < y_end`, row after row from
/// the top, each row restricted to `x_min <= x < x_end`.
pub open spec fn box_fragments(
    x_min: int,
    x_end: int,
    y_min: int,
    y_end: int,
    p0: Vec2i,
    p1: Vec2i,
    p2: Vec2i,
) -> Seq<FragmentView>
    decreases y_end - y_min,
{
    if y_end <= y_min {
        Seq::empty()
    } else {
        box_fragments(x_min, x_end, y_min, y_end - 1, p0, p1, p2) + row_fragments(
            y_end - 1,
            x_min,
            x_end,
            p0,
            p1,
            p2,
        )
    }
}

/// The fragments of a triangle on a `width` by `height` pixel grid: the
/// covered pixels of its clamped bounding box in scan order.
pub open spec fn triangle_fragments_spec(
    width: int,
    height: int,
    p0: Vec2i,
    p1: Vec2i,
    p2: Vec2i,
) -> Seq<FragmentView> {
    box_fragments(
        clamped_low(width - 1, p0.x as int, p1.x as int, p2.x as int),
        clamped_high(width - 1, p0.x as int, p1.x as int, p2.x as int) + 1,
        clamped_low(height - 1, p0.y as int, p1.y as int, p2.y as int),
        clamped_high(height - 1, p0.y as int, p1.y as int, p2.y as int) + 1,
        p0,
        p1,
        p2,
    )
}

/// The views of a sequence of fragments.
pub open spec fn fragment_views(fragments: Seq<Fragment>) -> Seq<FragmentView> {
    fragments.map_values(|f: Fragment| f@)
}

/// Lists the fragments of a triangle: every pixel of the clamped bounding
/// box whose barycentric weights are all non-negative, in scan order.
pub fn triangle_fragments(framebuffer: &Framebuffer, p0: &Vec2i, p1: &Vec2i, p2: &Vec2i) -> (r:
    Vec<Fragment>)
    ensures
        fragment_views(r@) == triangle_fragments_spec(
            framebuffer@.width,
            framebuffer@.height,
            *p0,
            *p1,
            *p2,
        ),
{
    let bounds: BoundingBox = bounding_box(framebuffer, p0, p1, p2);
    let width: i32 = framebuffer.width();
    let height: i32 = framebuffer.height();
    let mut fragments: Vec<Fragment> = Vec::new();
    let ghost x_min: int = bounds.min.x as int;
    let ghost x_end: int = bounds.max.x + 1;
    let ghost y_min: int = bounds.min.y as int;
    let mut y: i32 = bounds.min.y;
    assert(fragment_views(fragments@) =~= Seq::<FragmentView>::empty());
    while y <= bounds.max.y
        invariant
            bounds.max.x < width,
            bounds.max.y < height,
            bounds.min.y <= y,
            y == bounds.min.y || y <= bounds.max.y + 1,
            x_min == bounds.min.x,
            x_end == bounds.max.x + 1,
            y_min == bounds.min.y,
            fragment_views(fragments@) == box_fragments(
                x_min,
                x_end,
                y_min,
                y as int,
                *p0,
                *p1,
                *p2,
            ),
        decreases bounds.max.y + 1 - y,
    {
        let mut x: i32 = bounds.min.x;
        let ghost done: Seq<FragmentView> = fragment_views(fragments@);
        while x <= bounds.max.x
            invariant
                bounds.max.x < width,
                bounds.min.x <= x,
                x == bounds.min.x || x <= bounds.max.x + 1,
                x_min == bounds.min.x,
                x_end == bounds.max.x + 1,
                fragment_views(fragments@) == done + row_fragments(
                    y as int,
                    x_min,
                    x as int,
                    *p0,
                    *p1,
                    *p2,
                ),
            decreases bounds.max.x + 1 - x,
        {
            let u: Vec3i = barycentric(&Vec2i { x, y }, p0, p1, p2);
            let ghost before: Seq<Fragment> = fragments@;
            if is_covered(&u) {
                fragments.push(Fragment { x, y, u });
                assert(fragment_views(fragments@) =~= fragment_views(before).push(
                    fragment_at(x as int, y as int, *p0, *p1, *p2),
                ));
            }
            assert(fragment_views(fragments@) =~= done + row_fragments(
                y as int,
                x_min,
                x + 1,
                *p0,
                *p1,
                *p2,
            ));
            x += 1;
        }
        assert(row_fragments(y as int, x_min, x as int, *p0, *p1, *p2) =~= row_fragments(
            y as int,
            x_min,
            x_end,
            *p0,
            *p1,
            *p2,
        ));
        y += 1;
    }
    proof {
        if bounds.max.y + 1 <= y_min {
            lemma_empty_box_has_no_fragments(x_min, x_end, y_min, y as int, *p0, *p1, *p2);
            lemma_empty_box_has_no_fragments(x_min, x_end, y_min, bounds.max.y + 1, *p0, *p1, *p2);
        }
    }
    assert(box_fragments(x_min, x_end, y_min, y as int, *p0, *p1, *p2) =~= box_fragments(
        x_min,
        x_end,
        y_min,
        bounds.max.y + 1,
        *p0,
        *p1,
        *p2,
    ));
    fragments
}

/// The writes that drawing shaded fragments asks for: fragment `i` with
/// the depth and the color of `shades[i]`.
pub open spec fn fragment_writes(fragments: Seq<FragmentView>, shades: Seq<Shade>) -> Seq<
    PixelWrite,
> {
    Seq::new(
        fragments.len(),
        |i: int|
            PixelWrite {
                x: fragments[i].x,
                y: fragments[i].y,
                depth: shades[i].depth,
                color: shades[i].color,
            },
    )
}

/// The pixels of a sequence of fragments.
pub open spec fn fragment_pixels(fragments: Seq<FragmentView>) -> Seq<(int, int)> {
    Seq::new(fragments.len(), |i: int| (fragments[i].x, fragments[i].y))
}

/// The framebuffer after a shaded triangle has been drawn.
pub open spec fn draw_triangle_spec(
    v: FramebufferView,
    p0: Vec2i,
    p1: Vec2i,
    p2: Vec2i,
    shades: Seq<Shade>,
) -> FramebufferView {
    v.apply_all(fragment_writes(triangle_fragments_spec(v.width, v.height, p0, p1, p2), shades))
}

/// The framebuffer after a triangle has been filled with one color.
pub open spec fn draw_triangle_flat_spec(
    v: FramebufferView,
    p0: Vec2i,
    p1: Vec2i,
    p2: Vec2i,
    color: Color,
) -> FramebufferView {
    v.fill_all(fragment_pixels(triangle_fragments_spec(v.width, v.height, p0, p1, p2)), color)
}

/// Draws a shaded triangle. The fragments are visited in scan order and
/// fragment `i` is handed to the combined color-and-depth write with the
/// depth and the color of `shades[i]`, so `shades` holds one entry per
/// fragment of [`triangle_fragments`].
pub fn draw_triangle(
    framebuffer: &mut Framebuffer,
    p0: &Vec2i,
    p1: &Vec2i,
    p2: &Vec2i,
    shades: &Vec<Shade>,
)
    requires
        shades@.len() == triangle_fragments_spec(
            old(framebuffer)@.width,
            old(framebuffer)@.height,
            *p0,
            *p1,
            *p2,
        ).len(),
    ensures
        final(framebuffer)@ == draw_triangle_spec(old(framebuffer)@, *p0, *p1, *p2, shades@),
{
    let fragments: Vec<Fragment> = triangle_fragments(framebuffer, p0, p1, p2);
    let ghost writes: Seq<PixelWrite> = fragment_writes(fragment_views(fragments@), shades@);
    let mut i: usize = 0;
    assert(writes.take(0) =~= Seq::<PixelWrite>::empty());
    while i < fragments.len()
        invariant
            i <= fragments.len(),
            shades.len() == fragments.len(),
            writes == fragment_writes(fragment_views(fragments@), shades@),
            framebuffer@ == old(framebuffer)@.apply_all(writes.take(i as int)),
        decreases fragments.len() - i,
    {
        let fragment: Fragment = fragments[i];
        let shade: Shade = shades[i];
        proof {
            assert(writes.take(i + 1).drop_last() =~= writes.take(i as int));
            assert(writes.take(i + 1).last() == writes[i as int]);
        }
        framebuffer.set_color_with_depth(fragment.x, fragment.y, shade.depth, &shade.color);
        i += 1;
    }
    assert(writes.take(i as int) =~= writes);
}

/// Fills a triangle with one color. Every fragment is written with the
/// plain color write; the depth grid is neither consulted nor changed.
pub fn draw_triangle_flat(
    framebuffer: &mut Framebuffer,
    p0: &Vec2i,
    p1: &Vec2i,
    p2: &Vec2i,
    color: &Color,
)
    ensures
        final(framebuffer)@ == draw_triangle_flat_spec(old(framebuffer)@, *p0, *p1, *p2, *color),
{
    let fragments: Vec<Fragment> = triangle_fragments(framebuffer, p0, p1, p2);
    let ghost pixels: Seq<(int, int)> = fragment_pixels(fragment_views(fragments@));
    let mut i: usize = 0;
    assert(pixels.take(0) =~= Seq::<(int, int)>::empty());
    while i < fragments.len()
        invariant
            i <= fragments.len(),
            pixels == fragment_pixels(fragment_views(fragments@)),
            framebuffer@ == old(framebuffer)@.fill_all(pixels.take(i as int), *color),
        decreases fragments.len() - i,
    {
        let fragment: Fragment = fragments[i];
        proof {
            assert(pixels.take(i + 1).drop_last() =~= pixels.take(i as int));
            assert(pixels.take(i + 1).last() == pixels[i as int]);
        }
        framebuffer.set_color(fragment.x, fragment.y, color);
        i += 1;
    }
    assert(pixels.take(i as int) =~= pixels);
}

/// A box without columns or without rows holds no fragment.
proof fn lemma_empty_box_has_no_fragments(
    x_min: int,
    x_end: int,
    y_min: int,
    y_end: int,
    p0: Vec2i,
    p1: Vec2i,
    p2: Vec2i,
)
    requires
        x_end <= x_min || y_end <= y_min,
    ensures
        box_fragments(x_min, x_end, y_min, y_end, p0, p1, p2) =~= Seq::<FragmentView>::empty(),
    decreases y_end - y_min,
{
    if y_end > y_min {
        lemma_empty_box_has_no_fragments(x_min, x_end, y_min, y_end - 1, p0, p1, p2);
    }
}

/// A cross product is orthogonal to both of its factors.
proof fn lemma_cross_is_orthogonal(a: (int, int, int), b: (int, int, int))
    ensures
        ({
            let u = cross_spec(a, b);
            &&& u.0 * a.0 + u.1 * a.1 + u.2 * a.2 == 0
            &&& u.0 * b.0 + u.1 * b.1 + u.2 * b.2 == 0
        }),
{
    let u = cross_spec(a, b);
    assert(u.0 * a.0 == a.1 * b.2 * a.0 - a.2 * b.1 * a.0) by (nonlinear_arith)
        requires
            u.0 == a.1 * b.2 - a.2 * b.1,
    ;
    assert(u.1 * a.1 == a.2 * b.0 * a.1 - a.0 * b.2 * a.1) by (nonlinear_arith)
        requires
            u.1 == a.2 * b.0 - a.0 * b.2,
    ;
    assert(u.2 * a.2 == a.0 * b.1 * a.2 - a.1 * b.0 * a.2) by (nonlinear_arith)
        requires
            u.2 == a.0 * b.1 - a.1 * b.0,
    ;
    assert(a.1 * b.2 * a.0 == a.0 * b.2 * a.1) by (nonlinear_arith);
    assert(a.2 * b.1 * a.0 == a.0 * b.1 * a.2) by (nonlinear_arith);
    assert(a.2 * b.0 * a.1 == a.1 * b.0 * a.2) by (nonlinear_arith);
    assert(u.0 * b.0 == a.1 * b.2 * b.0 - a.2 * b.1 * b.0) by (nonlinear_arith)
        requires
            u.0 == a.1 * b.2 - a.2 * b.1,
    ;
    assert(u.1 * b.1 == a.2 * b.0 * b.1 - a.0 * b.2 * b.1) by (nonlinear_arith)
        requires
            u.1 == a.2 * b.0 - a.0 * b.2,
    ;
    assert(u.2 * b.2 == a.0 * b.1 * b.2 - a.1 * b.0 * b.2) by (nonlinear_arith)
        requires
            u.2 == a.0 * b.1 - a.1 * b.0,
    ;
    assert(a.1 * b.2 * b.0 == a.1 * b.0 * b.2) by (nonlinear_arith);
    assert(a.2 * b.1 * b.0 == a.2 * b.0 * b.1) by (nonlinear_arith);
    assert(a.0 * b.2 * b.1 == a.0 * b.1 * b.2) by (nonlinear_arith);
}

/// The cross product ties a pixel to the vertices: scaled by the doubled
/// area, each pixel coordinate is the weighted sum of the vertex
/// coordinates.
proof fn lemma_weighted_sum(x: int, y: int, p0: Vec2i, p1: Vec2i, p2: Vec2i)
    ensures
        ({
            let u = barycentric_spec(x, y, p0, p1, p2);
            &&& u.2 == doubled_area(p0, p1, p2)
            &&& u.2 * x == (u.2 - u.0 - u.1) * p0.x + u.1 * p1.x + u.0 * p2.x
            &&& u.2 * y == (u.2 - u.0 - u.1) * p0.y + u.1 * p1.y + u.0 * p2.y
        }),
{
    let u = barycentric_spec(x, y, p0, p1, p2);
    let (s0, s1) = edge_vectors(x, y, p0, p1, p2);
    lemma_cross_is_orthogonal(s0, s1);
    lemma_spread(u, x, p0.x as int, p1.x as int, p2.x as int);
    lemma_spread(u, y, p0.y as int, p1.y as int, p2.y as int);
}

/// Rearranges `u . (c - a, b - a, a - t) == 0` into a weighted sum.
proof fn lemma_spread(u: (int, int, int), t: int, a: int, b: int, c: int)
    requires
        u.0 * (c - a) + u.1 * (b - a) + u.2 * (a - t) == 0,
    ensures
        u.2 * t == (u.2 - u.0 - u.1) * a + u.1 * b + u.0 * c,
{
    assert(u.0 * (c - a) == u.0 * c - u.0 * a) by (nonlinear_arith);
    assert(u.1 * (b - a) == u.1 * b - u.1 * a) by (nonlinear_arith);
    assert(u.2 * (a - t) == u.2 * a - u.2 * t) by (nonlinear_arith);
    assert((u.2 - u.0 - u.1) * a == u.2 * a - u.0 * a - u.1 * a) by (nonlinear_arith);
}

/// A weighted sum with non-negative weights lies between the smallest and
/// the largest of its terms.
proof fn lemma_weighted_sum_is_between(w: (int, int, int), t: int, a: int, b: int, c: int)
    requires
        w.0 >= 0,
        w.1 >= 0,
        w.2 >= 0,
        w.0 + w.1 + w.2 > 0,
        (w.0 + w.1 + w.2) * t == w.0 * a + w.1 * b + w.2 * c,
    ensures
        lower(a, lower(b, c)) <= t <= higher(a, higher(b, c)),
{
    let lo = lower(a, lower(b, c));
    let hi = higher(a, higher(b, c));
    let n = w.0 + w.1 + w.2;
    assert(w.0 * lo <= w.0 * a <= w.0 * hi) by (nonlinear_arith)
        requires
            w.0 >= 0,
            lo <= a <= hi,
    ;
    assert(w.1 * lo <= w.1 * b <= w.1 * hi) by (nonlinear_arith)
        requires
            w.1 >= 0,
            lo <= b <= hi,
    ;
    assert(w.2 * lo <= w.2 * c <= w.2 * hi) by (nonlinear_arith)
        requires
            w.2 >= 0,
            lo <= c <= hi,
    ;
    assert(n * lo == w.0 * lo + w.1 * lo + w.2 * lo) by (nonlinear_arith)
        requires
            n == w.0 + w.1 + w.2,
    ;
    assert(n * hi == w.0 * hi + w.1 * hi + w.2 * hi) by (nonlinear_arith)
        requires
            n == w.0 + w.1 + w.2,
    ;
    assert(lo <= t <= hi) by (nonlinear_arith)
        requires
            n > 0,
            n * lo <= n * t <= n * hi,
    ;
}

/// A covered pixel lies within the extent of the three vertices on both
/// axes.
proof fn lemma_covered_pixel_is_within_extent(x: int, y: int, p0: Vec2i, p1: Vec2i, p2: Vec2i)
    requires
        covers(barycentric_spec(x, y, p0, p1, p2)),
    ensures
        lower(p0.x as int, lower(p1.x as int, p2.x as int)) <= x <= higher(
            p0.x as int,
            higher(p1.x as int, p2.x as int),
        ),
        lower(p0.y as int, lower(p1.y as int, p2.y as int)) <= y <= higher(
            p0.y as int,
            higher(p1.y as int, p2.y as int),
        ),
{
    let u = barycentric_spec(x, y, p0, p1, p2);
    lemma_weighted_sum(x, y, p0, p1, p2);
    if u.2 > 0 {
        let w = (u.2 - u.0 - u.1, u.1, u.0);
        lemma_weighted_sum_is_between(w, x, p0.x as int, p1.x as int, p2.x as int);
        lemma_weighted_sum_is_between(w, y, p0.y as int, p1.y as int, p2.y as int);
    } else {
        let w = (u.0 + u.1 - u.2, -u.1, -u.0);
        lemma_negated_sum(u, x, p0.x as int, p1.x as int, p2.x as int);
        lemma_negated_sum(u, y, p0.y as int, p1.y as int, p2.y as int);
        lemma_weighted_sum_is_between(w, x, p0.x as int, p1.x as int, p2.x as int);
        lemma_weighted_sum_is_between(w, y, p0.y as int, p1.y as int, p2.y as int);
    }
}

/// The weighted sum with every weight negated.
proof fn lemma_negated_sum(u: (int, int, int), t: int, a: int, b: int, c: int)
    requires
        u.2 * t == (u.2 - u.0 - u.1) * a + u.1 * b + u.0 * c,
    ensures
        ((u.0 + u.1 - u.2) + (-u.1) + (-u.0)) * t == (u.0 + u.1 - u.2) * a + (-u.1) * b + (-u.0)
            * c,
{
    assert(((u.0 + u.1 - u.2) + (-u.1) + (-u.0)) * t == -(u.2 * t)) by (nonlinear_arith);
    assert((u.0 + u.1 - u.2) * a == -((u.2 - u.0 - u.1) * a)) by (nonlinear_arith);
    assert((-u.1) * b == -(u.1 * b)) by (nonlinear_arith);
    assert((-u.0) * c == -(u.0 * c)) by (nonlinear_arith);
}

/// The fragment `f` belongs to the pixel rectangle and is the fragment of a
/// covered pixel.
pub open spec fn is_fragment_of(
    f: FragmentView,
    x_min: int,
    x_end: int,
    y_min: int,
    y_end: int,
    p0: Vec2i,
    p1: Vec2i,
    p2: Vec2i,
) -> bool {
    &&& x_min <= f.x < x_end
    &&& y_min <= f.y < y_end
    &&& covers(f.u)
    &&& f == fragment_at(f.x, f.y, p0, p1, p2)
}

/// Scan order: rows from the top, each row from the left.
pub open spec fn scans_before(a: FragmentView, b: FragmentView) -> bool {
    a.y < b.y || (a.y == b.y && a.x < b.x)
}

/// A row lists exactly the covered pixels of its range, from left to
/// right.
proof fn lemma_row_fragments(y: int, x_min: int, x_end: int, p0: Vec2i, p1: Vec2i, p2: Vec2i)
    ensures
        forall|i: int|
            0 <= i < row_fragments(y, x_min, x_end, p0, p1, p2).len() ==> is_fragment_of(
                #[trigger] row_fragments(y, x_min, x_end, p0, p1, p2)[i],
                x_min,
                x_end,
                y,
                y + 1,
                p0,
                p1,
                p2,
            ),
        forall|i: int, j: int|
            0 <= i < j < row_fragments(y, x_min, x_end, p0, p1, p2).len() ==> scans_before(
                #[trigger] row_fragments(y, x_min, x_end, p0, p1, p2)[i],
                #[trigger] row_fragments(y, x_min, x_end, p0, p1, p2)[j],
            ),
        forall|x: int|
            x_min <= x < x_end && covers(barycentric_spec(x, y, p0, p1, p2)) ==> row_fragments(
                y,
                x_min,
                x_end,
                p0,
                p1,
                p2,
            ).contains(#[trigger] fragment_at(x, y, p0, p1, p2)),
    decreases x_end - x_min,
{
    let row = row_fragments(y, x_min, x_end, p0, p1, p2);
    if x_end > x_min {
        let before = row_fragments(y, x_min, x_end - 1, p0, p1, p2);
        lemma_row_fragments(y, x_min, x_end - 1, p0, p1, p2);
        let last = fragment_at(x_end - 1, y, p0, p1, p2);
        assert forall|x: int|
            x_min <= x < x_end && covers(barycentric_spec(x, y, p0, p1, p2)) implies row.contains(
            #[trigger] fragment_at(x, y, p0, p1, p2),
        ) by {
            if x < x_end - 1 {
                let f = fragment_at(x, y, p0, p1, p2);
                assert(before.contains(f));
                let i = choose|i: int| 0 <= i < before.len() && before[i] == f;
                assert(row[i] == f);
            } else {
                assert(row[row.len() - 1] == last);
            }
        }
    }
}

/// A box lists exactly the covered pixels of its rectangle, in
/// scan order.
proof fn lemma_box_fragments(
    x_min: int,
    x_end: int,
    y_min: int,
    y_end: int,
    p0: Vec2i,
    p1: Vec2i,
    p2: Vec2i,
)
    ensures
        forall|i: int|
            0 <= i < box_fragments(x_min, x_end, y_min, y_end, p0, p1, p2).len()
                ==> is_fragment_of(
                #[trigger] box_fragments(x_min, x_end, y_min, y_end, p0, p1, p2)[i],
                x_min,
                x_end,
                y_min,
                y_end,
                p0,
                p1,
                p2,
            ),
        forall|i: int, j: int|
            0 <= i < j < box_fragments(x_min, x_end, y_min, y_end, p0, p1, p2).len()
                ==> scans_before(
                #[trigger] box_fragments(x_min, x_end, y_min, y_end, p0, p1, p2)[i],
                #[trigger] box_fragments(x_min, x_end, y_min, y_end, p0, p1, p2)[j],
            ),
        forall|x: int, y: int|
            x_min <= x < x_end && y_min <= y < y_end && covers(
                barycentric_spec(x, y, p0, p1, p2),
            ) ==> box_fragments(x_min, x_end, y_min, y_end, p0, p1, p2).contains(
                #[trigger] fragment_at(x, y, p0, p1, p2),
            ),
    decreases y_end - y_min,
{
    let all = box_fragments(x_min, x_end, y_min, y_end, p0, p1, p2);
    if y_end > y_min {
        let above = box_fragments(x_min, x_end, y_min, y_end - 1, p0, p1, p2);
        let row = row_fragments(y_end - 1, x_min, x_end, p0, p1, p2);
        lemma_box_fragments(x_min, x_end, y_min, y_end - 1, p0, p1, p2);
        lemma_row_fragments(y_end - 1, x_min, x_end, p0, p1, p2);
        assert(all == above + row);
        assert forall|i: int| 0 <= i < all.len() implies is_fragment_of(
            #[trigger] all[i],
            x_min,
            x_end,
            y_min,
            y_end,
            p0,
            p1,
            p2,
        ) by {
            if i < above.len() {
                assert(all[i] == above[i]);
            } else {
                assert(all[i] == row[i - above.len()]);
            }
        }
        assert forall|i: int, j: int| 0 <= i < j < all.len() implies scans_before(
            #[trigger] all[i],
            #[trigger] all[j],
        ) by {
            if j < above.len() {
                assert(all[i] == above[i] && all[j] == above[j]);
            } else if i < above.len() {
                assert(all[i] == above[i] && all[j] == row[j - above.len()]);
            } else {
                assert(all[i] == row[i - above.len()] && all[j] == row[j - above.len()]);
            }
        }
        assert forall|x: int, y: int|
            x_min <= x < x_end && y_min <= y < y_end && covers(
                barycentric_spec(x, y, p0, p1, p2),
            ) implies all.contains(#[trigger] fragment_at(x, y, p0, p1, p2)) by {
            let f = fragment_at(x, y, p0, p1, p2);
            if y < y_end - 1 {
                assert(above.contains(f));
                let i = choose|i: int| 0 <= i < above.len() && above[i] == f;
                assert(all[i] == f);
            } else {
                assert(row.contains(f));
                let i = choose|i: int| 0 <= i < row.len() && row[i] == f;
                assert(all[above.len() + i] == f);
            }
        }
    }
}

/// The fragments of a triangle are exactly the pixels of the grid that the
/// triangle covers: every fragment is the fragment of a covered pixel
/// inside the grid, every covered pixel inside the grid has its fragment
/// in the list, and the list is in scan order, so no pixel occurs twice.
pub proof fn lemma_fragments_are_the_covered_pixels(
    width: int,
    height: int,
    p0: Vec2i,
    p1: Vec2i,
    p2: Vec2i,
)
    requires
        0 <= width,
        0 <= height,
    ensures
        forall|i: int|
            0 <= i < triangle_fragments_spec(width, height, p0, p1, p2).len() ==> is_fragment_of(
                #[trigger] triangle_fragments_spec(width, height, p0, p1, p2)[i],
                0,
                width,
                0,
                height,
                p0,
                p1,
                p2,
            ),
        forall|i: int, j: int|
            0 <= i < j < triangle_fragments_spec(width, height, p0, p1, p2).len() ==> scans_before(
                #[trigger] triangle_fragments_spec(width, height, p0, p1, p2)[i],
                #[trigger] triangle_fragments_spec(width, height, p0, p1, p2)[j],
            ),
        forall|x: int, y: int|
            0 <= x < width && 0 <= y < height && covers(barycentric_spec(x, y, p0, p1, p2))
                ==> triangle_fragments_spec(width, height, p0, p1, p2).contains(
                #[trigger] fragment_at(x, y, p0, p1, p2),
            ),
{
    let x_min = clamped_low(width - 1, p0.x as int, p1.x as int, p2.x as int);
    let x_end = clamped_high(width - 1, p0.x as int, p1.x as int, p2.x as int) + 1;
    let y_min = clamped_low(height - 1, p0.y as int, p1.y as int, p2.y as int);
    let y_end = clamped_high(height - 1, p0.y as int, p1.y as int, p2.y as int) + 1;
    let all = triangle_fragments_spec(width, height, p0, p1, p2);
    lemma_box_fragments(x_min, x_end, y_min, y_end, p0, p1, p2);
    assert forall|x: int, y: int|
        0 <= x < width && 0 <= y < height && covers(
            barycentric_spec(x, y, p0, p1, p2),
        ) implies all.contains(#[trigger] fragment_at(x, y, p0, p1, p2)) by {
        lemma_covered_pixel_is_within_extent(x, y, p0, p1, p2);
    }
}

/// A triangle without area covers no pixel: it has no fragments, and
/// filling it leaves the framebuffer as it was.
pub proof fn lemma_degenerate_triangle_covers_nothing(
    v: FramebufferView,
    p0: Vec2i,
    p1: Vec2i,
    p2: Vec2i,
    color: Color,
)
    requires
        doubled_area(p0, p1, p2) == 0,
    ensures
        forall|x: int, y: int| !covers(#[trigger] barycentric_spec(x, y, p0, p1, p2)),
        triangle_fragments_spec(v.width, v.height, p0, p1, p2).len() == 0,
        draw_triangle_flat_spec(v, p0, p1, p2, color) == v,
        draw_triangle_spec(v, p0, p1, p2, Seq::empty()) == v,
{
    let x_min = clamped_low(v.width - 1, p0.x as int, p1.x as int, p2.x as int);
    let x_end = clamped_high(v.width - 1, p0.x as int, p1.x as int, p2.x as int) + 1;
    let y_min = clamped_low(v.height - 1, p0.y as int, p1.y as int, p2.y as int);
    let y_end = clamped_high(v.height - 1, p0.y as int, p1.y as int, p2.y as int) + 1;
    let all = triangle_fragments_spec(v.width, v.height, p0, p1, p2);
    lemma_box_fragments(x_min, x_end, y_min, y_end, p0, p1, p2);
    if all.len() > 0 {
        assert(is_fragment_of(all[0], x_min, x_end, y_min, y_end, p0, p1, p2));
    }
    assert(fragment_pixels(all) =~= Seq::<(int, int)>::empty());
    assert(fragment_writes(all, Seq::<Shade>::empty()) =~= Seq::<PixelWrite>::empty());
}

/// Filling a triangle paints exactly the pixels it covers: every pixel of
/// the grid whose barycentric weights are all non-negative takes the
/// color, every other pixel keeps its color, and the depth grid is left
/// alone.
pub proof fn lemma_flat_triangle_paints_the_covered_pixels(
    v: FramebufferView,
    p0: Vec2i,
    p1: Vec2i,
    p2: Vec2i,
    color: Color,
)
    requires
        v.wf(),
    ensures
        draw_triangle_flat_spec(v, p0, p1, p2, color).wf(),
        draw_triangle_flat_spec(v, p0, p1, p2, color).depths == v.depths,
        draw_triangle_flat_spec(v, p0, p1, p2, color).depth_test == v.depth_test,
        forall|x: int, y: int|
            v.in_bounds(x, y) ==> (#[trigger] draw_triangle_flat_spec(
                v,
                p0,
                p1,
                p2,
                color,
            ).color_at(x, y)) == painted(
                covers(barycentric_spec(x, y, p0, p1, p2)),
                color,
                v.color_at(x, y),
            ),
{
    let fragments = triangle_fragments_spec(v.width, v.height, p0, p1, p2);
    let pixels = fragment_pixels(fragments);
    lemma_fill_all_colors_its_pixels(v, pixels, color);
    lemma_fragments_are_the_covered_pixels(v.width, v.height, p0, p1, p2);
    assert forall|x: int, y: int| v.in_bounds(x, y) implies pixels.contains((x, y)) == covers(
        barycentric_spec(x, y, p0, p1, p2),
    ) by {
        if pixels.contains((x, y)) {
            let i = choose|i: int| 0 <= i < pixels.len() && pixels[i] == (x, y);
            assert(is_fragment_of(fragments[i], 0, v.width, 0, v.height, p0, p1, p2));
        }
        if covers(barycentric_spec(x, y, p0, p1, p2)) {
            let f = fragment_at(x, y, p0, p1, p2);
            assert(fragments.contains(f));
            let i = choose|i: int| 0 <= i < fragments.len() && fragments[i] == f;
            assert(pixels[i] == (x, y));
        }
    }
}

/// Drawing a shaded triangle leaves every pixel alone that the triangle
/// does not cover, whatever the shades: its color and its depth stay.
pub proof fn lemma_shaded_triangle_touches_only_covered_pixels(
    v: FramebufferView,
    p0: Vec2i,
    p1: Vec2i,
    p2: Vec2i,
    shades: Seq<Shade>,
)
    requires
        v.wf(),
    ensures
        draw_triangle_spec(v, p0, p1, p2, shades).wf(),
        draw_triangle_spec(v, p0, p1, p2, shades).width == v.width,
        draw_triangle_spec(v, p0, p1, p2, shades).height == v.height,
        forall|x: int, y: int|
            v.in_bounds(x, y) && !covers(barycentric_spec(x, y, p0, p1, p2)) ==> {
                &&& (#[trigger] draw_triangle_spec(v, p0, p1, p2, shades).color_at(x, y))
                    == v.color_at(x, y)
                &&& draw_triangle_spec(v, p0, p1, p2, shades).depth_at(x, y) == v.depth_at(x, y)
            },
{
    let fragments = triangle_fragments_spec(v.width, v.height, p0, p1, p2);
    let writes = fragment_writes(fragments, shades);
    lemma_apply_all_is_local(v, writes);
    lemma_fragments_are_the_covered_pixels(v.width, v.height, p0, p1, p2);
    assert forall|x: int, y: int|
        v.in_bounds(x, y) && !covers(barycentric_spec(x, y, p0, p1, p2)) implies !names_pixel(
        writes,
        x,
        y,
    ) by {
        if names_pixel(writes, x, y) {
            let i = choose|i: int|
                0 <= i < writes.len() && (#[trigger] writes[i]).x == x && writes[i].y == y;
            assert(is_fragment_of(fragments[i], 0, v.width, 0, v.height, p0, p1, p2));
        }
    }
}

} // verus!
