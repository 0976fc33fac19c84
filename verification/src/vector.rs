//! Small integer vectors used for screen positions and edge products.

use vstd::prelude::*;

verus! {

/// A pixel position in screen space: `x` grows to the right, `y` grows
/// downwards.
#[derive(Copy, Clone, PartialEq, Eq, Debug, Structural)]
pub struct Vec2i {
    pub x: i32,
    pub y: i32,
}

impl Vec2i {
    pub fn new(x: i32, y: i32) -> (v: Vec2i)
        ensures
            v == (Vec2i { x, y }),
    {
        Vec2i { x, y }
    }
}

/// A three-component integer vector, wide enough to hold products of
/// differences of screen coordinates.
#[derive(Copy, Clone, PartialEq, Eq, Debug, Structural)]
pub struct Vec3i {
    pub x: i128,
    pub y: i128,
    pub z: i128,
}

/// Largest component magnitude for which [`Vec3i::cross`] cannot overflow.
pub const CROSS_LIMIT: i128 = 0x4000_0000_0000_0000;

/// The cross product of two integer triples.
pub open spec fn cross_spec(a: (int, int, int), b: (int, int, int)) -> (int, int, int) {
    (a.1 * b.2 - a.2 * b.1, a.2 * b.0 - a.0 * b.2, a.0 * b.1 - a.1 * b.0)
}

impl View for Vec3i {
    type V = (int, int, int);

    open spec fn view(&self) -> (int, int, int) {
        (self.x as int, self.y as int, self.z as int)
    }
}

impl Vec3i {
    pub fn new(x: i128, y: i128, z: i128) -> (v: Vec3i)
        ensures
            v == (Vec3i { x, y, z }),
    {
        Vec3i { x, y, z }
    }

    /// Every component lies within `[-limit, limit]`.
    pub open spec fn bounded(self, limit: int) -> bool {
        &&& -limit <= self.x <= limit
        &&& -limit <= self.y <= limit
        &&& -limit <= self.z <= limit
    }

    /// Calls `nalgebra::Vector3::<i128>::cross`. The result is trusted to
    /// hold the three components `ay*bz - az*by`, `az*bx - ax*bz` and
    /// `ax*by - ay*bx`; the bound on the inputs keeps every product and
    /// every difference inside `i128`.
    #[verifier::external_body]
    pub(crate) fn cross(&self, other: &Vec3i) -> (r: Vec3i)
        requires
            self.bounded(CROSS_LIMIT as int),
            other.bounded(CROSS_LIMIT as int),
        ensures
            r@ == cross_spec(self@, other@),
    {
        let a = nalgebra::Vector3::<i128>::new(self.x, self.y, self.z);
        let b = nalgebra::Vector3::<i128>::new(other.x, other.y, other.z);
        let c = a.cross(&b);
        Vec3i { x: c.x, y: c.y, z: c.z }
    }
}

} // verus!
