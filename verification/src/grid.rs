//! Positions on a 16-bit grid, vectors between them, and the exact normals
//! of triangles on the grid.

use vstd::prelude::*;
use crate::mesh::Normal;

verus! {

/// A position: each coordinate a step count on a grid of 65536 steps.
#[derive(Clone, Copy, Debug, PartialEq, Eq, Structural)]
pub struct GridPoint {
    pub x: u16,
    pub y: u16,
    pub z: u16,
}

/// A vector with integer components, as mathematics.
pub struct Vector {
    pub x: int,
    pub y: int,
    pub z: int,
}

impl Vector {
    /// The dot product.
    pub open spec fn dot(self, o: Vector) -> int {
        self.x * o.x + self.y * o.y + self.z * o.z
    }

    /// The sum.
    pub open spec fn plus(self, o: Vector) -> Vector {
        Vector { x: self.x + o.x, y: self.y + o.y, z: self.z + o.z }
    }

    /// The cross product.
    pub open spec fn cross(self, o: Vector) -> Vector {
        Vector {
            x: self.y * o.z - self.z * o.y,
            y: self.z * o.x - self.x * o.z,
            z: self.x * o.y - self.y * o.x,
        }
    }

    /// The squared length.
    pub open spec fn norm2(self) -> int {
        self.dot(self)
    }

    /// Whether every component is zero.
    pub open spec fn is_zero(self) -> bool {
        self.x == 0 && self.y == 0 && self.z == 0
    }
}

impl GridPoint {
    /// The vector from `from` to this point.
    pub open spec fn minus(self, from: GridPoint) -> Vector {
        Vector { x: self.x - from.x, y: self.y - from.y, z: self.z - from.z }
    }

    /// The squared distance to `o`.
    pub open spec fn dist2(self, o: GridPoint) -> int {
        self.minus(o).norm2()
    }
}

impl Normal {
    /// The normal as a vector.
    pub open spec fn vector(self) -> Vector {
        Vector { x: self.x as int, y: self.y as int, z: self.z as int }
    }

    /// Whether every component is zero.
    pub open spec fn is_zero(self) -> bool {
        self.x == 0 && self.y == 0 && self.z == 0
    }
}

impl GridPoint {
    /// Coordinate 0, 1 or 2 of the point.
    pub open spec fn coord(self, axis: int) -> int {
        if axis == 0 {
            self.x as int
        } else if axis == 1 {
            self.y as int
        } else {
            self.z as int
        }
    }
}

impl Vector {
    /// Component 0, 1 or 2 of the vector.
    pub open spec fn coord(self, axis: int) -> int {
        if axis == 0 {
            self.x
        } else if axis == 1 {
            self.y
        } else {
            self.z
        }
    }

    /// The vector `k` times as long.
    pub open spec fn times(self, k: int) -> Vector {
        Vector { x: k * self.x, y: k * self.y, z: k * self.z }
    }

    /// The difference.
    pub open spec fn minus(self, o: Vector) -> Vector {
        Vector { x: self.x - o.x, y: self.y - o.y, z: self.z - o.z }
    }
}

impl GridPoint {
    /// The point as a vector from the grid's origin.
    pub open spec fn vector(self) -> Vector {
        Vector { x: self.x as int, y: self.y as int, z: self.z as int }
    }
}

/// The normal of triangle `a b c`, as long as twice its area: the cross
/// product of two edges. Zero for a triangle without area.
pub open spec fn face(a: GridPoint, b: GridPoint, c: GridPoint) -> Vector {
    b.minus(a).cross(c.minus(a))
}

/// A vector with machine-integer components.
#[derive(Clone, Copy, Debug, PartialEq, Eq, Structural)]
pub struct Span {
    pub x: i64,
    pub y: i64,
    pub z: i64,
}

impl View for Span {
    type V = Vector;

    open spec fn view(&self) -> Vector {
        Vector { x: self.x as int, y: self.y as int, z: self.z as int }
    }
}

/// The largest component that the normal of a triangle on the grid can
/// have.
pub const FACE_LIMIT: i64 = 0x2_0000_0000;

impl Span {
    /// Whether no component exceeds `limit` in size.
    pub open spec fn within(self, limit: int) -> bool {
        &&& -limit <= self.x <= limit
        &&& -limit <= self.y <= limit
        &&& -limit <= self.z <= limit
    }
}

/// A product is no larger than the product of the bounds of its factors.
pub proof fn lemma_product_bound(a: int, b: int, m: int, n: int)
    requires
        -m <= a <= m,
        -n <= b <= n,
    ensures
        -(m * n) <= a * b <= m * n,
{
    assert(-(m * n) <= a * b <= m * n) by (nonlinear_arith)
        requires
            -m <= a <= m,
            -n <= b <= n,
    ;
}

/// The dot product of two vectors no longer than 127 lies between -16129
/// and 16129.
pub proof fn lemma_dot_bound(a: Vector, b: Vector)
    requires
        a.norm2() <= 16129,
        b.norm2() <= 16129,
    ensures
        -16129 <= a.dot(b) <= 16129,
{
    assert(2 * (a.x * b.x) <= a.x * a.x + b.x * b.x && -2 * (a.x * b.x) <= a.x * a.x + b.x * b.x)
        by (nonlinear_arith);
    assert(2 * (a.y * b.y) <= a.y * a.y + b.y * b.y && -2 * (a.y * b.y) <= a.y * a.y + b.y * b.y)
        by (nonlinear_arith);
    assert(2 * (a.z * b.z) <= a.z * a.z + b.z * b.z && -2 * (a.z * b.z) <= a.z * a.z + b.z * b.z)
        by (nonlinear_arith);
}

/// Computes the vector from `from` to `to`.
pub(crate) fn span(from: GridPoint, to: GridPoint) -> (r: Span)
    ensures
        r@ == to.minus(from),
        r.within(65535),
{
    Span { x: to.x as i64 - from.x as i64, y: to.y as i64 - from.y as i64, z: to.z as i64 - from.z as i64 }
}

/// Computes the normal of triangle `a b c`, as long as twice its area.
pub(crate) fn face_normal(a: GridPoint, b: GridPoint, c: GridPoint) -> (r: Span)
    ensures
        r@ == face(a, b, c),
        r.within(FACE_LIMIT as int),
{
    let u = span(a, b);
    let v = span(a, c);
    proof {
        lemma_product_bound(u.y as int, v.z as int, 65535, 65535);
        lemma_product_bound(u.z as int, v.y as int, 65535, 65535);
        lemma_product_bound(u.z as int, v.x as int, 65535, 65535);
        lemma_product_bound(u.x as int, v.z as int, 65535, 65535);
        lemma_product_bound(u.x as int, v.y as int, 65535, 65535);
        lemma_product_bound(u.y as int, v.x as int, 65535, 65535);
    }
    Span { x: u.y * v.z - u.z * v.y, y: u.z * v.x - u.x * v.z, z: u.x * v.y - u.y * v.x }
}

/// Computes the dot product of two vectors whose components are bounded
/// by `m` and `n`, where `p` bounds the product of the two.
pub(crate) fn dot(u: Span, v: Span, Ghost(m): Ghost<int>, Ghost(n): Ghost<int>, Ghost(p): Ghost<int>) -> (r: i64)
    requires
        u.within(m),
        v.within(n),
        m * n <= p,
        3 * p <= i64::MAX,
    ensures
        r == u@.dot(v@),
        -3 * p <= r <= 3 * p,
{
    proof {
        lemma_product_bound(u.x as int, v.x as int, m, n);
        lemma_product_bound(u.y as int, v.y as int, m, n);
        lemma_product_bound(u.z as int, v.z as int, m, n);
    }
    u.x * v.x + u.y * v.y + u.z * v.z
}

}
