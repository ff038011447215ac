//! Points of the integer grid on which positions are sampled, and the two
//! region tests that location triggers use.
//!
//! Every coordinate and every radius counts whole grid steps. The caller
//! picks the step; it must be the same for all values handed to one test.

use vstd::prelude::*;

verus! {

/// A position on the integer grid.
#[derive(Clone, Copy, Debug, PartialEq, Eq, Structural)]
pub struct GridPoint {
    pub x: i32,
    pub y: i32,
    pub z: i32,
}

/// The square of the Euclidean distance between `a` and `b`.
pub open spec fn distance_squared(a: GridPoint, b: GridPoint) -> int {
    (a.x - b.x) * (a.x - b.x) + (a.y - b.y) * (a.y - b.y) + (a.z - b.z) * (a.z - b.z)
}

/// `p` is strictly closer to `center` than `radius`.
///
/// A distance is never negative, so no point is within a radius of zero or
/// less; for a positive radius the comparison of the squares is the
/// comparison of the distances.
pub open spec fn within_radius(center: GridPoint, radius: i32, p: GridPoint) -> bool {
    0 < radius && distance_squared(center, p) < radius * radius
}

/// The smaller of two coordinates.
pub open spec fn lesser(a: i32, b: i32) -> i32 {
    if a <= b {
        a
    } else {
        b
    }
}

/// The larger of two coordinates.
pub open spec fn greater(a: i32, b: i32) -> i32 {
    if a <= b {
        b
    } else {
        a
    }
}

/// The corner of the box spanned by `a` and `b` that is smallest on every axis.
pub open spec fn lower_corner(a: GridPoint, b: GridPoint) -> GridPoint {
    GridPoint { x: lesser(a.x, b.x), y: lesser(a.y, b.y), z: lesser(a.z, b.z) }
}

/// The corner of the box spanned by `a` and `b` that is largest on every axis.
pub open spec fn upper_corner(a: GridPoint, b: GridPoint) -> GridPoint {
    GridPoint { x: greater(a.x, b.x), y: greater(a.y, b.y), z: greater(a.z, b.z) }
}

/// `a` is at least `b` on every axis.
pub open spec fn all_at_least(a: GridPoint, b: GridPoint) -> bool {
    a.x >= b.x && a.y >= b.y && a.z >= b.z
}

/// `a` is at most `b` on every axis.
pub open spec fn all_at_most(a: GridPoint, b: GridPoint) -> bool {
    a.x <= b.x && a.y <= b.y && a.z <= b.z
}

/// `p` lies in the axis-aligned box with opposite corners `a` and `b`, faces
/// and edges included.
pub open spec fn within_box(a: GridPoint, b: GridPoint, p: GridPoint) -> bool {
    all_at_least(p, lower_corner(a, b)) && all_at_most(p, upper_corner(a, b))
}

/// The square of a coordinate difference fits well inside an `i128`.
proof fn lemma_square_bounded(d: int)
    requires
        -0x1_0000_0000 < d < 0x1_0000_0000,
    ensures
        0 <= d * d <= 0x1_0000_0000_0000_0000,
{
    assert(0 <= d * d <= 0x1_0000_0000 * 0x1_0000_0000) by (nonlinear_arith)
        requires
            -0x1_0000_0000 < d < 0x1_0000_0000,
    ;
}

fn square_of_difference(a: i32, b: i32) -> (sq: i128)
    ensures
        sq == (a - b) * (a - b),
        0 <= sq <= 0x1_0000_0000_0000_0000,
{
    let d: i128 = a as i128 - b as i128;
    proof {
        lemma_square_bounded(d as int);
    }
    d * d
}

impl GridPoint {
    pub fn new(x: i32, y: i32, z: i32) -> (p: GridPoint)
        ensures
            p == (GridPoint { x, y, z }),
    {
        GridPoint { x, y, z }
    }

    /// The point whose coordinates are the smaller ones of `self` and `other`.
    pub fn component_min(self, other: GridPoint) -> (lo: GridPoint)
        ensures
            lo == lower_corner(self, other),
    {
        GridPoint {
            x: if self.x <= other.x { self.x } else { other.x },
            y: if self.y <= other.y { self.y } else { other.y },
            z: if self.z <= other.z { self.z } else { other.z },
        }
    }

    /// The point whose coordinates are the larger ones of `self` and `other`.
    pub fn component_max(self, other: GridPoint) -> (hi: GridPoint)
        ensures
            hi == upper_corner(self, other),
    {
        GridPoint {
            x: if self.x <= other.x { other.x } else { self.x },
            y: if self.y <= other.y { other.y } else { self.y },
            z: if self.z <= other.z { other.z } else { self.z },
        }
    }

    /// Whether every coordinate of `self` is at least that of `other`.
    pub fn all_ge(self, other: GridPoint) -> (b: bool)
        ensures
            b == all_at_least(self, other),
    {
        self.x >= other.x && self.y >= other.y && self.z >= other.z
    }

    /// Whether every coordinate of `self` is at most that of `other`.
    pub fn all_le(self, other: GridPoint) -> (b: bool)
        ensures
            b == all_at_most(self, other),
    {
        self.x <= other.x && self.y <= other.y && self.z <= other.z
    }

    /// The square of the distance from `self` to `other`.
    pub fn distance_squared(self, other: GridPoint) -> (d: i128)
        ensures
            d == distance_squared(self, other),
    {
        let dx: i128 = square_of_difference(self.x, other.x);
        let dy: i128 = square_of_difference(self.y, other.y);
        let dz: i128 = square_of_difference(self.z, other.z);
        dx + dy + dz
    }

    /// The sphere test: whether `self` is strictly closer to `center` than
    /// `radius`.
    pub fn is_within_radius(self, center: GridPoint, radius: i32) -> (b: bool)
        ensures
            b == within_radius(center, radius, self),
    {
        if radius <= 0 {
            return false;
        }
        let limit: i128 = square_of_difference(radius, 0);
        center.distance_squared(self) < limit
    }

    /// The box test: whether `self` lies in the box with opposite corners `a`
    /// and `b`, bounds included.
    pub fn is_within_box(self, a: GridPoint, b: GridPoint) -> (inside: bool)
        ensures
            inside == within_box(a, b, self),
    {
        let mins: GridPoint = a.component_min(b);
        let maxs: GridPoint = a.component_max(b);
        self.all_ge(mins) && self.all_le(maxs)
    }
}

} // verus!
