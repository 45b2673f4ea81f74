//! Geometry payloads for mesh entities.
//!
//! The core treats geometry as plain data with a few capability functions:
//! a position that can be averaged (for edge splitting) and combined with a
//! scaled offset (for extrusion). Positions are integer vectors, so every
//! capability has an exact arithmetic contract.

use vstd::prelude::*;

verus! {

/// The largest coordinate magnitude the geometry capabilities accept; keeps
/// all intermediate arithmetic within `i64`.
pub const COORD_LIMIT: i64 = 0x10_0000_0000;

/// The largest extrusion distance magnitude the geometry capabilities
/// accept; keeps a scaled lateral offset added to a position within `i64`.
pub const DIST_LIMIT: i64 = 0x10_0000;

/// A three-component integer vector, the geometry payload of every entity.
#[derive(Clone, Copy, Debug, PartialEq, Eq, Structural)]
pub struct Vector3 {
    pub x: i64,
    pub y: i64,
    pub z: i64,
}

/// Floor of `(a + b) / 2` over the mathematical integers.
pub open spec fn mid_int(a: int, b: int) -> int {
    (a + b) / 2
}

/// The midpoint of two positions over the mathematical integers.
pub open spec fn spec_midpoint(a: Vector3, b: Vector3) -> Vector3 {
    Vector3 {
        x: mid_int(a.x as int, b.x as int) as i64,
        y: mid_int(a.y as int, b.y as int) as i64,
        z: mid_int(a.z as int, b.z as int) as i64,
    }
}

/// The componentwise sum of two vectors over the mathematical integers.
pub open spec fn spec_add(a: Vector3, b: Vector3) -> Vector3 {
    Vector3 { x: (a.x + b.x) as i64, y: (a.y + b.y) as i64, z: (a.z + b.z) as i64 }
}

/// A vector scaled by an integer factor over the mathematical integers.
pub open spec fn spec_scale(a: Vector3, factor: int) -> Vector3 {
    Vector3 { x: (a.x * factor) as i64, y: (a.y * factor) as i64, z: (a.z * factor) as i64 }
}

/// The lateral direction of the directed edge from `a` to `b` for geometry
/// laid out in the `xy`-plane: the edge direction rotated a quarter turn,
/// unnormalized.
pub open spec fn spec_lateral(a: Vector3, b: Vector3) -> Vector3 {
    Vector3 { x: (b.y - a.y) as i64, y: (a.x - b.x) as i64, z: 0 }
}

/// Whether every coordinate of `v` is within the capability bound.
pub open spec fn in_bounds(v: Vector3) -> bool {
    &&& -COORD_LIMIT <= v.x <= COORD_LIMIT
    &&& -COORD_LIMIT <= v.y <= COORD_LIMIT
    &&& -COORD_LIMIT <= v.z <= COORD_LIMIT
}

impl Vector3 {
    /// Builds a vector from its three coordinates.
    pub fn new(x: i64, y: i64, z: i64) -> (r: Vector3)
        ensures
            r == (Vector3 { x, y, z }),
    {
        Vector3 { x, y, z }
    }

    /// The zero vector.
    pub fn zero() -> (r: Vector3)
        ensures
            r == (Vector3 { x: 0i64, y: 0i64, z: 0i64 }),
    {
        Vector3 { x: 0, y: 0, z: 0 }
    }

    /// Componentwise sum.
    pub fn add(self, other: Vector3) -> (r: Vector3)
        requires
            i64::MIN <= self.x + other.x <= i64::MAX,
            i64::MIN <= self.y + other.y <= i64::MAX,
            i64::MIN <= self.z + other.z <= i64::MAX,
        ensures
            r.x == self.x + other.x,
            r.y == self.y + other.y,
            r.z == self.z + other.z,
            r == spec_add(self, other),
    {
        Vector3 { x: self.x + other.x, y: self.y + other.y, z: self.z + other.z }
    }

    /// Componentwise scaling by an integer factor.
    pub fn scale(self, factor: i64) -> (r: Vector3)
        requires
            i64::MIN <= self.x * factor <= i64::MAX,
            i64::MIN <= self.y * factor <= i64::MAX,
            i64::MIN <= self.z * factor <= i64::MAX,
        ensures
            r.x == self.x * factor,
            r.y == self.y * factor,
            r.z == self.z * factor,
            r == spec_scale(self, factor as int),
    {
        Vector3 { x: self.x * factor, y: self.y * factor, z: self.z * factor }
    }

    /// The midpoint of two positions, each coordinate rounded toward
    /// negative infinity.
    pub fn midpoint(self, other: Vector3) -> (r: Vector3)
        requires
            in_bounds(self),
            in_bounds(other),
        ensures
            r.x == mid_int(self.x as int, other.x as int),
            r.y == mid_int(self.y as int, other.y as int),
            r.z == mid_int(self.z as int, other.z as int),
            r == spec_midpoint(self, other),
    {
        Vector3 {
            x: mid_coord(self.x, other.x),
            y: mid_coord(self.y, other.y),
            z: mid_coord(self.z, other.z),
        }
    }

    /// The lateral direction of a directed edge from `self` to `other` for
    /// geometry laid out in the `xy`-plane: the edge direction rotated a
    /// quarter turn, unnormalized.
    pub fn lateral_to(self, other: Vector3) -> (r: Vector3)
        requires
            in_bounds(self),
            in_bounds(other),
        ensures
            r.x == other.y - self.y,
            r.y == self.x - other.x,
            r.z == 0,
            r == spec_lateral(self, other),
    {
        Vector3 { x: other.y - self.y, y: self.x - other.x, z: 0 }
    }
}

/// Floor of `(a + b) / 2` for one bounded coordinate.
fn mid_coord(a: i64, b: i64) -> (r: i64)
    requires
        -COORD_LIMIT <= a <= COORD_LIMIT,
        -COORD_LIMIT <= b <= COORD_LIMIT,
    ensures
        r == mid_int(a as int, b as int),
{
    let s: i64 = a + b;
    if s >= 0 {
        let h: u64 = (s as u64) / 2;
        h as i64
    } else {
        let t: u64 = (-s) as u64;
        let h: u64 = (t + 1) / 2;
        assert(-((h as int)) == mid_int(a as int, b as int)) by {
            let sum = a as int + b as int;
            assert(sum < 0);
            assert(t == -sum);
            assert(h == (t + 1) / 2);
        };
        -(h as i64)
    }
}

} // verus!
