//! Fixed-point points, the up axis and the split of an offset into its
//! horizontal and vertical parts.
use vstd::prelude::*;

verus! {

/// Largest coordinate magnitude of a point of the world (2^30 steps,
/// a little over a thousand world units).
pub const WORLD_LIMIT: i64 = 0x4000_0000;

/// Largest coordinate magnitude of a target (2^29 steps), so that an eye
/// within `REACH` of it stays in the world.
pub const TARGET_LIMIT: i64 = 0x2000_0000;

/// Farthest the eye may stand from the target between stages (2^28 steps).
pub const REACH: i64 = 0x1000_0000;

/// Farthest a committed eye may stand from its committed target (2^27 steps).
pub const SNAPSHOT_REACH: i64 = 0x800_0000;

/// A point or offset, each coordinate in fixed-point steps.
#[derive(Clone, Copy, Debug, PartialEq, Eq, Structural)]
pub struct Vec3 {
    pub x: i64,
    pub y: i64,
    pub z: i64,
}

impl View for Vec3 {
    type V = (int, int, int);

    open spec fn view(&self) -> (int, int, int) {
        (self.x as int, self.y as int, self.z as int)
    }
}

/// The world axis that points up.
#[derive(Clone, Copy, Debug, PartialEq, Eq, Structural)]
pub enum Axis {
    X,
    Y,
    Z,
}

pub open spec fn add3(a: (int, int, int), b: (int, int, int)) -> (int, int, int) {
    (a.0 + b.0, a.1 + b.1, a.2 + b.2)
}

pub open spec fn sub3(a: (int, int, int), b: (int, int, int)) -> (int, int, int) {
    (a.0 - b.0, a.1 - b.1, a.2 - b.2)
}

pub open spec fn len2(a: (int, int, int)) -> int {
    a.0 * a.0 + a.1 * a.1 + a.2 * a.2
}

pub open spec fn in_world_coord(c: int) -> bool {
    -WORLD_LIMIT <= c <= WORLD_LIMIT
}

pub open spec fn in_world(p: (int, int, int)) -> bool {
    in_world_coord(p.0) && in_world_coord(p.1) && in_world_coord(p.2)
}

pub open spec fn in_target_box(p: (int, int, int)) -> bool {
    -TARGET_LIMIT <= p.0 <= TARGET_LIMIT && -TARGET_LIMIT <= p.1 <= TARGET_LIMIT && -TARGET_LIMIT
        <= p.2 <= TARGET_LIMIT
}

/// An offset in the frame of `up`: two horizontal coordinates, ordered so
/// that the first crossed with the second points up, then the vertical one.
pub open spec fn split(v: (int, int, int), up: Axis) -> (int, int, int) {
    match up {
        Axis::X => (v.1, v.2, v.0),
        Axis::Y => (v.2, v.0, v.1),
        Axis::Z => (v.0, v.1, v.2),
    }
}

/// The inverse of `split`.
pub open spec fn join(s: (int, int, int), up: Axis) -> (int, int, int) {
    match up {
        Axis::X => (s.2, s.0, s.1),
        Axis::Y => (s.1, s.2, s.0),
        Axis::Z => (s.0, s.1, s.2),
    }
}

/// Joining a split offset gives the offset back.
pub proof fn lemma_join_split(v: (int, int, int), up: Axis)
    ensures
        join(split(v, up), up) == v,
{
}

impl Vec3 {
    pub fn new(x: i64, y: i64, z: i64) -> (r: Vec3)
        ensures
            r@ == (x as int, y as int, z as int),
    {
        Vec3 { x, y, z }
    }

    pub fn zero() -> (r: Vec3)
        ensures
            r@ == (0int, 0int, 0int),
    {
        Vec3 { x: 0, y: 0, z: 0 }
    }

    /// The offset from `other` to `self`.
    pub fn minus(&self, other: &Vec3) -> (r: Vec3)
        requires
            in_world(self@),
            in_world(other@),
        ensures
            r@ == sub3(self@, other@),
    {
        Vec3 { x: self.x - other.x, y: self.y - other.y, z: self.z - other.z }
    }
}

/// The horizontal and vertical coordinates of an offset, as `split` orders them.
pub fn split_offset(v: &Vec3, up: Axis) -> (r: (i64, i64, i64))
    ensures
        (r.0 as int, r.1 as int, r.2 as int) == split(v@, up),
{
    match up {
        Axis::X => (v.y, v.z, v.x),
        Axis::Y => (v.z, v.x, v.y),
        Axis::Z => (v.x, v.y, v.z),
    }
}

/// The point `origin` plus the offset given in the frame of `up`.
pub fn offset_point(origin: &Vec3, up: Axis, h1: i128, h2: i128, v: i128) -> (r: Vec3)
    requires
        in_target_box(origin@),
        -REACH <= h1 <= REACH,
        -REACH <= h2 <= REACH,
        -REACH <= v <= REACH,
    ensures
        r@ == add3(origin@, join((h1 as int, h2 as int, v as int), up)),
        in_world(r@),
{
    let (dx, dy, dz): (i128, i128, i128) = match up {
        Axis::X => (v, h1, h2),
        Axis::Y => (h2, v, h1),
        Axis::Z => (h1, h2, v),
    };
    Vec3 {
        x: (origin.x as i128 + dx) as i64,
        y: (origin.y as i128 + dy) as i64,
        z: (origin.z as i128 + dz) as i64,
    }
}

/// The squared length of an offset does not depend on the frame it is given in.
pub proof fn lemma_len2_join(s: (int, int, int), up: Axis)
    ensures
        len2(join(s, up)) == s.0 * s.0 + s.1 * s.1 + s.2 * s.2,
{
}

} // verus!
