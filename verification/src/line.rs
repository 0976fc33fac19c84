//! Line rasterization: integer error-accumulation stepping over screen
//! coordinates, for every octant.

use vstd::prelude::*;
use vstd::arithmetic::div_mod::{lemma_div_is_ordered, lemma_fundamental_div_mod_converse};
use crate::color::Color;
use crate::depth::Depth;
use crate::framebuffer::{
    lemma_apply_all_is_local, lemma_apply_all_without_depth_test, names_pixel, painted,
    Framebuffer, FramebufferView, PixelWrite,
};
use crate::vector::Vec2i;

verus! {

/// The distance between two integers.
pub open spec fn distance(a: int, b: int) -> int {
    if a <= b {
        b - a
    } else {
        a - b
    }
}

/// A line is steep when it covers more rows than columns.
pub open spec fn is_steep(p0: Vec2i, p1: Vec2i) -> bool {
    distance(p0.x as int, p1.x as int) < distance(p0.y as int, p1.y as int)
}

/// The point with its two coordinates exchanged.
pub open spec fn transposed(p: Vec2i) -> Vec2i {
    Vec2i { x: p.y, y: p.x }
}

/// A line prepared for stepping. The endpoints are held in stepping
/// coordinates: `x` is the major axis, along which every step advances by
/// one, and `y` the minor axis. For a steep line the stepping coordinates
/// are the screen coordinates transposed.
#[derive(Copy, Clone, PartialEq, Eq, Debug, Structural)]
pub struct LineSteps {
    pub steep: bool,
    pub start: Vec2i,
    pub end: Vec2i,
}

/// How the line from `p0` to `p1` is stepped: transposed when steep, then
/// ordered so that the major coordinate grows from `start` to `end`.
pub open spec fn line_steps(p0: Vec2i, p1: Vec2i) -> LineSteps {
    let steep = is_steep(p0, p1);
    let a = if steep {
        transposed(p0)
    } else {
        p0
    };
    let b = if steep {
        transposed(p1)
    } else {
        p1
    };
    if a.x > b.x {
        LineSteps { steep, start: b, end: a }
    } else {
        LineSteps { steep, start: a, end: b }
    }
}

impl LineSteps {
    /// The extent along the major axis.
    pub open spec fn run(self) -> int {
        self.end.x - self.start.x
    }

    /// The extent along the minor axis.
    pub open spec fn rise(self) -> int {
        distance(self.start.y as int, self.end.y as int)
    }

    /// The major axis is the longer one and grows from start to end.
    pub open spec fn wf(self) -> bool {
        0 <= self.rise() <= self.run()
    }

    /// The number of pixels on the line.
    pub open spec fn count(self) -> int {
        self.run() + 1
    }

    /// The direction of a step along the minor axis.
    pub open spec fn minor_direction(self) -> int {
        if self.end.y > self.start.y {
            1
        } else {
            -1
        }
    }

    /// How many minor-axis steps have been taken when pixel `i` is drawn:
    /// `i * rise / run` rounded to the nearest integer, halves rounded down.
    pub open spec fn minor_steps(self, i: int) -> int {
        if self.run() == 0 {
            0
        } else {
            (2 * self.rise() * i + self.run() - 1) / (2 * self.run())
        }
    }

    /// The major coordinate of pixel `i`.
    pub open spec fn major(self, i: int) -> int {
        self.start.x + i
    }

    /// The minor coordinate of pixel `i`.
    pub open spec fn minor(self, i: int) -> int {
        self.start.y + self.minor_direction() * self.minor_steps(i)
    }

    /// Pixel `i` of the line in screen coordinates, as `(x, y)`.
    pub open spec fn pixel(self, i: int) -> (int, int) {
        if self.steep {
            (self.minor(i), self.major(i))
        } else {
            (self.major(i), self.minor(i))
        }
    }

    /// Prepares the line from `p0` to `p1` for stepping.
    pub fn new(p0: Vec2i, p1: Vec2i) -> (steps: LineSteps)
        ensures
            steps == line_steps(p0, p1),
            steps.wf(),
    {
        let dx: i64 = p0.x as i64 - p1.x as i64;
        let dy: i64 = p0.y as i64 - p1.y as i64;
        let span_x: i64 = if dx < 0 {
            -dx
        } else {
            dx
        };
        let span_y: i64 = if dy < 0 {
            -dy
        } else {
            dy
        };
        let steep: bool = span_x < span_y;
        let a: Vec2i = if steep {
            Vec2i { x: p0.y, y: p0.x }
        } else {
            p0
        };
        let b: Vec2i = if steep {
            Vec2i { x: p1.y, y: p1.x }
        } else {
            p1
        };
        if a.x > b.x {
            LineSteps { steep, start: b, end: a }
        } else {
            LineSteps { steep, start: a, end: b }
        }
    }
}

/// A quotient is pinned down by the two multiples of the divisor that
/// enclose the dividend.
proof fn lemma_quotient_between(x: int, d: int, q: int)
    requires
        0 < d,
        q * d <= x < q * d + d,
    ensures
        x / d == q,
{
    lemma_fundamental_div_mod_converse(x, d, q, x - q * d);
}

/// The first and the last pixel of a line are its two endpoints, and the
/// line has one pixel more than the longer of its two extents.
pub proof fn lemma_line_ends_at_endpoints(p0: Vec2i, p1: Vec2i)
    ensures
        ({
            let s = line_steps(p0, p1);
            let first = s.pixel(0);
            let last = s.pixel(s.count() - 1);
            let a = (p0.x as int, p0.y as int);
            let b = (p1.x as int, p1.y as int);
            let across = distance(p0.x as int, p1.x as int);
            let down = distance(p0.y as int, p1.y as int);
            &&& (first == a && last == b) || (first == b && last == a)
            &&& s.count() == 1 + if across >= down {
                across
            } else {
                down
            }
        }),
{
    let s = line_steps(p0, p1);
    let run = s.run();
    let rise = s.rise();
    if run > 0 {
        lemma_quotient_between(run - 1, 2 * run, 0);
        assert(2 * rise * run + run - 1 == rise * (2 * run) + (run - 1)) by (nonlinear_arith);
        lemma_quotient_between(2 * rise * run + run - 1, 2 * run, rise);
        assert(s.minor_steps(0) == 0);
        assert(s.minor_steps(run) == rise);
        assert(s.minor_direction() * 0 == 0);
        assert(s.minor_direction() * rise == s.end.y - s.start.y) by (nonlinear_arith)
            requires
                s.minor_direction() == 1 && rise == s.end.y - s.start.y || s.minor_direction()
                    == -1 && rise == s.start.y - s.end.y,
        ;
    }
}

/// From one pixel of a line to the next the major coordinate grows by
/// exactly one and the minor coordinate moves by at most one, towards the
/// end point. Consecutive pixels therefore touch, and the line has no gaps.
pub proof fn lemma_line_is_connected(p0: Vec2i, p1: Vec2i, i: int)
    requires
        0 <= i < line_steps(p0, p1).count() - 1,
    ensures
        ({
            let s = line_steps(p0, p1);
            &&& s.major(i + 1) == s.major(i) + 1
            &&& s.minor(i + 1) == s.minor(i) || s.minor(i + 1) == s.minor(i)
                + s.minor_direction()
            &&& distance(s.pixel(i).0, s.pixel(i + 1).0) <= 1
            &&& distance(s.pixel(i).1, s.pixel(i + 1).1) <= 1
        }),
{
    let s = line_steps(p0, p1);
    lemma_minor_steps_advance(s, i);
    let k = s.minor_steps(i);
    let d = s.minor_direction();
    assert(d * (k + 1) == d * k + d) by (nonlinear_arith);
}

/// Between two consecutive pixels the count of minor steps stays or grows
/// by one.
proof fn lemma_minor_steps_advance(s: LineSteps, i: int)
    requires
        s.wf(),
        0 <= i,
    ensures
        s.minor_steps(i) <= s.minor_steps(i + 1) <= s.minor_steps(i) + 1,
{
    let run = s.run();
    let rise = s.rise();
    if run > 0 {
        let a = 2 * rise * i + run - 1;
        let b = 2 * rise * (i + 1) + run - 1;
        assert(b == a + 2 * rise) by (nonlinear_arith)
            requires
                a == 2 * rise * i + run - 1,
                b == 2 * rise * (i + 1) + run - 1,
        ;
        lemma_div_is_ordered(a, b, 2 * run);
        lemma_div_is_ordered(b, a + 2 * run, 2 * run);
        let q = a / (2 * run);
        vstd::arithmetic::div_mod::lemma_fundamental_div_mod(a, 2 * run);
        vstd::arithmetic::div_mod::lemma_mod_bound(a, 2 * run);
        assert(a + 2 * run == (q + 1) * (2 * run) + a % (2 * run)) by (nonlinear_arith)
            requires
                a == (2 * run) * q + a % (2 * run),
        ;
        lemma_fundamental_div_mod_converse(a + 2 * run, 2 * run, q + 1, a % (2 * run));
    }
}

/// Every pixel lies within half a pixel of the ideal line, measured along
/// the minor axis.
pub proof fn lemma_line_stays_close(p0: Vec2i, p1: Vec2i, i: int)
    requires
        0 <= i < line_steps(p0, p1).count(),
    ensures
        ({
            let s = line_steps(p0, p1);
            distance(2 * s.run() * s.minor_steps(i), 2 * s.rise() * i) <= s.run()
        }),
{
    let s = line_steps(p0, p1);
    let run = s.run();
    let rise = s.rise();
    if run > 0 {
        let a = 2 * rise * i + run - 1;
        let q = a / (2 * run);
        vstd::arithmetic::div_mod::lemma_fundamental_div_mod(a, 2 * run);
        vstd::arithmetic::div_mod::lemma_mod_bound(a, 2 * run);
        assert(2 * run * q == (2 * run) * q) by (nonlinear_arith);
    } else {
        assert(2 * rise * i == 0) by (nonlinear_arith)
            requires
                rise == 0,
        ;
    }
}

/// While the line is being stepped the count of minor steps never exceeds
/// the rise.
proof fn lemma_minor_steps_bounded(s: LineSteps, i: int)
    requires
        s.wf(),
        0 <= i <= s.run(),
    ensures
        0 <= s.minor_steps(i) <= s.rise(),
{
    let run = s.run();
    let rise = s.rise();
    if run > 0 {
        let a = 2 * rise * i + run - 1;
        let top = 2 * rise * run + run - 1;
        assert(0 <= 2 * rise * i <= 2 * rise * run) by (nonlinear_arith)
            requires
                0 <= i <= run,
                0 <= rise,
        ;
        lemma_div_is_ordered(a, top, 2 * run);
        lemma_div_is_ordered(0, a, 2 * run);
        assert(top == rise * (2 * run) + (run - 1)) by (nonlinear_arith)
            requires
                top == 2 * rise * run + run - 1,
        ;
        lemma_quotient_between(top, 2 * run, rise);
        lemma_quotient_between(0, 2 * run, 0);
    }
}

/// The writes that drawing a stepped line asks for: one per pixel, from
/// the start of the line to its end, pixel `i` with depth `depths[i]`.
pub open spec fn line_writes(steps: LineSteps, depths: Seq<Depth>, color: Color) -> Seq<
    PixelWrite,
> {
    Seq::new(
        steps.count() as nat,
        |i: int| PixelWrite { x: steps.pixel(i).0, y: steps.pixel(i).1, depth: depths[i], color },
    )
}

/// The framebuffer after the whole line from `p0` to `p1` has been drawn.
pub open spec fn draw_line_spec(
    v: FramebufferView,
    p0: Vec2i,
    p1: Vec2i,
    depths: Seq<Depth>,
    color: Color,
) -> FramebufferView {
    v.apply_all(line_writes(line_steps(p0, p1), depths, color))
}

/// The pixel `(x, y)` is one of the pixels of the line from `p0` to `p1`.
pub open spec fn on_line(p0: Vec2i, p1: Vec2i, x: int, y: int) -> bool {
    exists|i: int|
        0 <= i < line_steps(p0, p1).count() && #[trigger] line_steps(p0, p1).pixel(i) == (x, y)
}

/// Drawing a line touches exactly the pixels of the line. Whatever the
/// depths, a pixel off the line keeps its color and its depth. With depth
/// testing off, every pixel of the line inside the grid takes the color of
/// the line, and the depth grid is left alone.
pub proof fn lemma_line_touches_exactly_its_pixels(
    v: FramebufferView,
    p0: Vec2i,
    p1: Vec2i,
    depths: Seq<Depth>,
    color: Color,
)
    requires
        v.wf(),
    ensures
        draw_line_spec(v, p0, p1, depths, color).wf(),
        draw_line_spec(v, p0, p1, depths, color).width == v.width,
        draw_line_spec(v, p0, p1, depths, color).height == v.height,
        forall|x: int, y: int|
            v.in_bounds(x, y) && !on_line(p0, p1, x, y) ==> {
                &&& (#[trigger] draw_line_spec(v, p0, p1, depths, color).color_at(x, y))
                    == v.color_at(x, y)
                &&& draw_line_spec(v, p0, p1, depths, color).depth_at(x, y) == v.depth_at(x, y)
            },
        !v.depth_test ==> draw_line_spec(v, p0, p1, depths, color).depths == v.depths,
        !v.depth_test ==> forall|x: int, y: int|
            v.in_bounds(x, y) ==> (#[trigger] draw_line_spec(v, p0, p1, depths, color).color_at(
                x,
                y,
            )) == painted(on_line(p0, p1, x, y), color, v.color_at(x, y)),
{
    let steps = line_steps(p0, p1);
    let writes = line_writes(steps, depths, color);
    lemma_apply_all_is_local(v, writes);
    assert forall|x: int, y: int| names_pixel(writes, x, y) == on_line(p0, p1, x, y) by {
        if names_pixel(writes, x, y) {
            let i = choose|i: int|
                0 <= i < writes.len() && (#[trigger] writes[i]).x == x && writes[i].y == y;
            assert(steps.pixel(i) == (x, y));
        }
        if on_line(p0, p1, x, y) {
            let i = choose|i: int| 0 <= i < steps.count() && #[trigger] steps.pixel(i) == (x, y);
            assert(writes[i].x == x && writes[i].y == y);
        }
    }
    if !v.depth_test {
        lemma_apply_all_without_depth_test(v, writes, color);
    }
}

/// Draws the line between two screen positions. Pixels are visited from
/// the start of the stepped line to its end; pixel `i` is handed to the
/// combined color-and-depth write together with `depths[i]`, so `depths`
/// holds one entry per pixel, ordered by growing major coordinate.
pub fn draw_line(
    framebuffer: &mut Framebuffer,
    p0: &Vec2i,
    p1: &Vec2i,
    depths: &Vec<Depth>,
    color: &Color,
)
    requires
        depths@.len() == line_steps(*p0, *p1).count(),
    ensures
        final(framebuffer)@ == draw_line_spec(old(framebuffer)@, *p0, *p1, depths@, *color),
{
    let steps: LineSteps = LineSteps::new(*p0, *p1);
    let dx: i64 = steps.end.x as i64 - steps.start.x as i64;
    let dy: i64 = steps.end.y as i64 - steps.start.y as i64;
    let derror2: i64 = if dy < 0 {
        -dy * 2
    } else {
        dy * 2
    };
    let y_step: i64 = if steps.end.y > steps.start.y {
        1
    } else {
        -1
    };
    let last: i64 = steps.end.x as i64;
    let mut error2: i64 = 0;
    let mut x: i64 = steps.start.x as i64;
    let mut y: i64 = steps.start.y as i64;
    let mut i: usize = 0;
    let ghost writes: Seq<PixelWrite> = line_writes(steps, depths@, *color);
    let ghost mut k: int = 0;
    let ghost mut rise_i: int = 0;
    let ghost mut run_k: int = 0;
    proof {
        lemma_minor_steps_bounded(steps, 0);
        if steps.run() > 0 {
            lemma_quotient_between(steps.run() - 1, 2 * steps.run(), 0);
        }
        assert(writes.take(0) =~= Seq::<PixelWrite>::empty());
    }
    while x <= last
        invariant
            steps == line_steps(*p0, *p1),
            steps.wf(),
            depths.len() == steps.count(),
            dx == steps.run(),
            derror2 == 2 * steps.rise(),
            y_step == steps.minor_direction(),
            last == steps.end.x,
            x == steps.start.x + i,
            0 <= i <= steps.count(),
            rise_i == steps.rise() * i,
            run_k == steps.run() * k,
            error2 == 2 * rise_i - 2 * run_k,
            dx > 0 ==> -dx < error2 <= dx,
            dx == 0 ==> error2 == 0 && k == 0,
            k == steps.minor_steps(i as int),
            y == steps.minor(i as int),
            writes == line_writes(steps, depths@, *color),
            framebuffer@ == old(framebuffer)@.apply_all(writes.take(i as int)),
        decreases last + 1 - x,
    {
        proof {
            lemma_minor_steps_bounded(steps, i as int);
            assert(steps.minor_direction() * steps.minor_steps(i as int) == if steps.end.y
                > steps.start.y {
                steps.minor_steps(i as int)
            } else {
                -steps.minor_steps(i as int)
            }) by (nonlinear_arith);
        }
        let depth: Depth = depths[i];
        proof {
            assert(writes.take(i + 1).drop_last() =~= writes.take(i as int));
            assert(writes.take(i + 1).last() == writes[i as int]);
        }
        if steps.steep {
            framebuffer.set_color_with_depth(y as i32, x as i32, depth, color);
        } else {
            framebuffer.set_color_with_depth(x as i32, y as i32, depth, color);
        }
        error2 += derror2;
        proof {
            rise_i = rise_i + steps.rise();
            assert(rise_i == steps.rise() * (i + 1)) by (nonlinear_arith)
                requires
                    rise_i == steps.rise() * i + steps.rise(),
            ;
        }
        if error2 > dx {
            y += y_step;
            error2 -= dx * 2;
            proof {
                run_k = run_k + steps.run();
                assert(run_k == steps.run() * (k + 1)) by (nonlinear_arith)
                    requires
                        run_k == steps.run() * k + steps.run(),
                ;
                assert(steps.minor_direction() * (k + 1) == steps.minor_direction() * k
                    + steps.minor_direction()) by (nonlinear_arith);
                k = k + 1;
            }
        }
        proof {
            if dx > 0 {
                assert(k * (2 * dx) == 2 * run_k) by (nonlinear_arith)
                    requires
                        run_k == dx * k,
                ;
                assert(2 * steps.rise() * (i + 1) == 2 * rise_i) by (nonlinear_arith)
                    requires
                        rise_i == steps.rise() * (i + 1),
                ;
                lemma_quotient_between(2 * steps.rise() * (i + 1) + dx - 1, 2 * dx, k);
            }
        }
        x += 1;
        i += 1;
    }
    assert(writes.take(i as int) =~= writes);
}

} // verus!
