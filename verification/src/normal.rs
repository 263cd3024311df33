//! Unit normals in signed bytes: the direction of a vector as a vector of
//! length 127, each component rounded toward zero.

use vstd::prelude::*;
use crate::grid::{face, face_normal, lemma_product_bound, GridPoint, Span, Vector, FACE_LIMIT};
use crate::mesh::{all_below, InvalidArgument, Normal};
use crate::validate::indices_in_range;

verus! {

/// Whether `r` is the square root of `n`, rounded up.
pub open spec fn is_ceil_sqrt(n: int, r: int) -> bool {
    0 <= r && r * r >= n && (r == 0 || (r - 1) * (r - 1) < n)
}

/// The square root of `n`, rounded up.
pub open spec fn ceil_sqrt(n: int) -> int {
    choose|r: int| is_ceil_sqrt(n, r)
}

/// The quotient of `a` by a positive `b`, rounded toward zero.
pub open spec fn quot(a: int, b: int) -> int {
    if a >= 0 {
        a / b
    } else {
        -((-a) / b)
    }
}

/// The direction of `v` as a vector of length 127, each component rounded
/// toward zero. Zero for the zero vector.
pub open spec fn unit(v: Vector) -> Normal {
    if v.is_zero() {
        Normal { x: 0, y: 0, z: 0 }
    } else {
        let len = ceil_sqrt(16129 * v.norm2());
        Normal {
            x: quot(16129 * v.x, len) as i8,
            y: quot(16129 * v.y, len) as i8,
            z: quot(16129 * v.z, len) as i8,
        }
    }
}

/// The unit normals of the triangles that `indices` lists, three corners
/// per triangle, over the vertices at `positions`.
pub open spec fn normals_of(indices: Seq<u32>, positions: Seq<GridPoint>) -> Seq<Normal> {
    Seq::new(
        (indices.len() / 3) as nat,
        |t: int|
            unit(
                face(
                    positions[indices[3 * t] as int],
                    positions[indices[3 * t + 1] as int],
                    positions[indices[3 * t + 2] as int],
                ),
            ),
    )
}

/// The first condition that an index stream breaks for taking normals, if
/// any: whole triangles, every index naming a position.
pub open spec fn stream_defect(indices: Seq<u32>, positions: Seq<GridPoint>) -> Option<InvalidArgument> {
    if indices.len() % 3 != 0 {
        Some(InvalidArgument::IndexCount)
    } else if !all_below(indices, positions.len()) {
        Some(InvalidArgument::IndexRange)
    } else {
        None
    }
}

/// Computes the unit normal of every triangle of an index stream, scaled
/// to signed bytes; zero for a triangle without area.
pub fn face_normals(indices: &[u32], positions: &[GridPoint]) -> (result: Result<Vec<Normal>, InvalidArgument>)
    ensures
        match stream_defect(indices@, positions@) {
            Some(e) => result == Err::<Vec<Normal>, InvalidArgument>(e),
            None => result matches Ok(normals) && normals@ == normals_of(indices@, positions@),
        },
{
    if indices.len() % 3 != 0 {
        return Err(InvalidArgument::IndexCount);
    }
    if !indices_in_range(indices, positions.len()) {
        return Err(InvalidArgument::IndexRange);
    }
    Ok(triangle_normals(indices, positions))
}

/// Computes the unit normal of every triangle of an index stream.
pub(crate) fn triangle_normals(indices: &[u32], positions: &[GridPoint]) -> (normals: Vec<Normal>)
    requires
        indices@.len() % 3 == 0,
        all_below(indices@, positions@.len()),
    ensures
        normals@ == normals_of(indices@, positions@),
{
    let count: usize = indices.len() / 3;
    let mut normals: Vec<Normal> = Vec::new();
    let mut t: usize = 0;
    while t < count
        invariant
            t <= count,
            count == indices@.len() / 3,
            indices@.len() <= usize::MAX,
            indices@.len() % 3 == 0,
            all_below(indices@, positions@.len()),
            normals@.len() == t,
            forall|u: int| 0 <= u < t ==> #[trigger] normals@[u] == normals_of(indices@, positions@)[u],
        decreases count - t,
    {
        proof {
            assert((indices@[3 * t] as nat) < positions@.len());
            assert((indices@[3 * t + 1] as nat) < positions@.len());
            assert((indices@[3 * t + 2] as nat) < positions@.len());
        }
        let a = positions[indices[3 * t] as usize];
        let b = positions[indices[3 * t + 1] as usize];
        let c = positions[indices[3 * t + 2] as usize];
        normals.push(unit_normal(face_normal(a, b, c)));
        t += 1;
    }
    assert(normals@ =~= normals_of(indices@, positions@));
    normals
}

/// Computes the direction of `v` as a vector of length 127.
pub(crate) fn unit_normal(v: Span) -> (r: Normal)
    requires
        v.within(FACE_LIMIT as int),
    ensures
        r == unit(v@),
        -127 <= r.x <= 127,
        -127 <= r.y <= 127,
        -127 <= r.z <= 127,
{
    if v.x == 0 && v.y == 0 && v.z == 0 {
        return Normal { x: 0, y: 0, z: 0 };
    }
    let (sx, sy, sz) = (size(v.x), size(v.y), size(v.z));
    proof {
        lemma_product_bound(v.x as int, v.x as int, FACE_LIMIT as int, FACE_LIMIT as int);
        lemma_product_bound(v.y as int, v.y as int, FACE_LIMIT as int, FACE_LIMIT as int);
        lemma_product_bound(v.z as int, v.z as int, FACE_LIMIT as int, FACE_LIMIT as int);
        lemma_product_bound(sx as int, sx as int, FACE_LIMIT as int, FACE_LIMIT as int);
        lemma_product_bound(sy as int, sy as int, FACE_LIMIT as int, FACE_LIMIT as int);
        lemma_product_bound(sz as int, sz as int, FACE_LIMIT as int, FACE_LIMIT as int);
        assert(sx * sx == v.x * v.x) by (nonlinear_arith)
            requires
                sx == v.x || sx == -v.x,
        ;
        assert(sy * sy == v.y * v.y) by (nonlinear_arith)
            requires
                sy == v.y || sy == -v.y,
        ;
        assert(sz * sz == v.z * v.z) by (nonlinear_arith)
            requires
                sz == v.z || sz == -v.z,
        ;
        assert(FACE_LIMIT * FACE_LIMIT == 0x4_0000_0000_0000_0000);
    }
    let norm2: u128 = sx * sx + sy * sy + sz * sz;
    let len: u64 = rounded_up_root(16129 * norm2);
    proof {
        assert(norm2 == v@.norm2());
        assert(v.x * v.x >= 0 && v.y * v.y >= 0 && v.z * v.z >= 0) by (nonlinear_arith);
        assert(v.x != 0 ==> v.x * v.x >= 1) by (nonlinear_arith);
        assert(v.y != 0 ==> v.y * v.y >= 1) by (nonlinear_arith);
        assert(v.z != 0 ==> v.z * v.z >= 1) by (nonlinear_arith);
    }
    let x: i8 = unit_component(v.x, len, Ghost(v.y * v.y + v.z * v.z));
    let y: i8 = unit_component(v.y, len, Ghost(v.x * v.x + v.z * v.z));
    let z: i8 = unit_component(v.z, len, Ghost(v.x * v.x + v.y * v.y));
    Normal { x, y, z }
}

/// Scales one component of a vector to a signed byte.
fn unit_component(a: i64, len: u64, Ghost(rest): Ghost<int>) -> (r: i8)
    requires
        -FACE_LIMIT <= a <= FACE_LIMIT,
        0 <= rest,
        is_ceil_sqrt(16129 * (a * a + rest), len as int),
        a != 0 || rest != 0,
    ensures
        r == quot(16129 * a, len as int),
        r == quot(16129 * a, len as int) as i8,
        -127 <= r <= 127,
{
    proof {
        lemma_unit_component(a as int, rest, len as int);
    }
    let q: u128 = (16129 * size(a)) / (len as u128);
    if a >= 0 {
        q as i8
    } else {
        -(q as i8)
    }
}

/// The size of `a`.
fn size(a: i64) -> (r: u128)
    requires
        a > i64::MIN,
    ensures
        r == (if a >= 0 { a as int } else { -(a as int) }),
{
    if a >= 0 {
        a as u128
    } else {
        (-a) as u128
    }
}

/// Computes the square root of `n`, rounded up.
pub(crate) fn rounded_up_root(n: u128) -> (r: u64)
    requires
        n <= 0x1_0000_0000_0000_0000_0000_0000,
    ensures
        r == ceil_sqrt(n as int),
        is_ceil_sqrt(n as int, r as int),
        r <= 0x1_0000_0000_0000,
{
    let mut lo: u64 = 0;
    let mut hi: u64 = 0x1_0000_0000_0000;
    assert(0x1_0000_0000_0000int * 0x1_0000_0000_0000int == 0x1_0000_0000_0000_0000_0000_0000int);
    while lo < hi
        invariant
            lo <= hi <= 0x1_0000_0000_0000,
            hi as int * hi as int >= n,
            lo == 0 || (lo as int - 1) * (lo as int - 1) < n,
        decreases hi - lo,
    {
        let mid: u64 = lo + (hi - lo) / 2;
        proof {
            lemma_square_grows(mid as int, 0x1_0000_0000_0000);
        }
        let square: u128 = (mid as u128) * (mid as u128);
        if square >= n {
            hi = mid;
        } else {
            lo = mid + 1;
        }
    }
    proof {
        lemma_ceil_sqrt_unique(n as int, lo as int);
    }
    lo
}

/// Squares grow with their roots.
pub proof fn lemma_square_grows(a: int, b: int)
    requires
        0 <= a <= b,
    ensures
        a * a <= b * b,
{
    assert(a * a <= b * b) by (nonlinear_arith)
        requires
            0 <= a <= b,
    ;
}

/// A number has one rounded-up square root.
pub proof fn lemma_ceil_sqrt_unique(n: int, r: int)
    requires
        is_ceil_sqrt(n, r),
    ensures
        ceil_sqrt(n) == r,
{
    let s = ceil_sqrt(n);
    assert(is_ceil_sqrt(n, s));
    if s < r {
        lemma_square_grows(s, r - 1);
    } else if r < s {
        lemma_square_grows(r, s - 1);
    }
}

/// Every number that is not negative has a rounded-up square root.
pub proof fn lemma_ceil_sqrt_exists(n: int)
    requires
        0 <= n,
    ensures
        is_ceil_sqrt(n, ceil_sqrt(n)),
    decreases n,
{
    if n == 0 {
        assert(is_ceil_sqrt(0, 0));
    } else {
        lemma_ceil_sqrt_exists(n - 1);
        let r = ceil_sqrt(n - 1);
        if r * r >= n {
            assert(r != 0) by (nonlinear_arith)
                requires
                    r * r >= n,
                    n >= 1,
            ;
            assert(is_ceil_sqrt(n, r));
        } else {
            assert((r + 1) * (r + 1) >= n) by (nonlinear_arith)
                requires
                    r * r >= n - 1,
                    r >= 0,
            ;
            assert(is_ceil_sqrt(n, r + 1));
        }
    }
}

/// A quotient rounded toward zero, times the divisor, misses the dividend
/// by less than the divisor.
pub proof fn lemma_quot_remainder(a: int, b: int)
    requires
        b >= 1,
    ensures
        -(b - 1) <= a - quot(a, b) * b <= b - 1,
{
    if a >= 0 {
        assert(0 <= a - (a / b) * b <= b - 1) by (nonlinear_arith)
            requires
                b >= 1,
                a >= 0,
        ;
    } else {
        let c = -a;
        assert(0 <= c - (c / b) * b <= b - 1) by (nonlinear_arith)
            requires
                b >= 1,
                c >= 0,
        ;
        assert((-(c / b)) * b == -((c / b) * b)) by (nonlinear_arith);
    }
}

/// What `unit` does to one component: the component `a` of a vector whose
/// squared length times 16129 has the rounded-up root `len` becomes a
/// number between -127 and 127.
pub proof fn lemma_unit_component(a: int, rest: int, len: int)
    requires
        0 <= rest,
        is_ceil_sqrt(16129 * (a * a + rest), len),
        a != 0 || rest != 0,
    ensures
        len >= 1,
        -127 <= quot(16129 * a, len) <= 127,
{
    let n = 16129 * (a * a + rest);
    assert(a * a >= 0) by (nonlinear_arith);
    assert(a != 0 ==> a * a >= 1) by (nonlinear_arith);
    assert(n >= 1);
    assert(len >= 1) by {
        if len == 0 {
            assert(len * len == 0);
        }
    }
    let s = if a >= 0 { a } else { -a };
    assert(s * s == a * a) by (nonlinear_arith)
        requires
            s == a || s == -a,
    ;
    assert((127 * s) * (127 * s) == 16129 * (s * s)) by (nonlinear_arith);
    if len < 127 * s {
        lemma_square_grows(len + 1, 127 * s);
        assert((len + 1) * (len + 1) > len * len) by (nonlinear_arith)
            requires
                len >= 0,
        ;
    }
    assert(16129 * s <= 127 * len);
    assert((16129 * s) / len <= 127) by (nonlinear_arith)
        requires
            16129 * s <= 127 * len,
            len >= 1,
            s >= 0,
    ;
    assert((16129 * s) / len >= 0) by (nonlinear_arith)
        requires
            len >= 1,
            s >= 0,
    ;
}

/// The components of a unit normal before they are cut to bytes.
pub proof fn lemma_unit_components(v: Vector)
    requires
        !v.is_zero(),
    ensures
        ({
            let len = ceil_sqrt(16129 * v.norm2());
            &&& len >= 1
            &&& unit(v).x == quot(16129 * v.x, len)
            &&& unit(v).y == quot(16129 * v.y, len)
            &&& unit(v).z == quot(16129 * v.z, len)
            &&& -127 <= unit(v).x <= 127
            &&& -127 <= unit(v).y <= 127
            &&& -127 <= unit(v).z <= 127
        }),
{
    let len = ceil_sqrt(16129 * v.norm2());
    assert(v.x * v.x >= 0 && v.y * v.y >= 0 && v.z * v.z >= 0) by (nonlinear_arith);
    assert(v.x != 0 ==> v.x * v.x >= 1) by (nonlinear_arith);
    assert(v.y != 0 ==> v.y * v.y >= 1) by (nonlinear_arith);
    assert(v.z != 0 ==> v.z * v.z >= 1) by (nonlinear_arith);
    lemma_ceil_sqrt_exists(16129 * v.norm2());
    lemma_unit_component(v.x, v.y * v.y + v.z * v.z, len);
    lemma_unit_component(v.y, v.x * v.x + v.z * v.z, len);
    lemma_unit_component(v.z, v.x * v.x + v.y * v.y, len);
}

/// The unit normal of a vector that is not zero is not zero.
pub proof fn lemma_unit_nonzero(v: Vector)
    requires
        !v.is_zero(),
    ensures
        !unit(v).is_zero(),
{
    let len = ceil_sqrt(16129 * v.norm2());
    lemma_unit_components(v);
    assert(v.norm2() >= 1) by (nonlinear_arith)
        requires
            v.x != 0 || v.y != 0 || v.z != 0,
            v.norm2() == v.x * v.x + v.y * v.y + v.z * v.z,
    ;
    lemma_ceil_sqrt_exists(16129 * v.norm2());
    if unit(v).is_zero() {
        lemma_quot_remainder(16129 * v.x, len);
        lemma_quot_remainder(16129 * v.y, len);
        lemma_quot_remainder(16129 * v.z, len);
        let (x, y, z) = (16129 * v.x, 16129 * v.y, 16129 * v.z);
        lemma_product_bound(x, x, len - 1, len - 1);
        lemma_product_bound(y, y, len - 1, len - 1);
        lemma_product_bound(z, z, len - 1, len - 1);
        assert(x * x + y * y + z * z == 16129 * (16129 * v.norm2())) by (nonlinear_arith)
            requires
                x == 16129 * v.x,
                y == 16129 * v.y,
                z == 16129 * v.z,
                v.norm2() == v.x * v.x + v.y * v.y + v.z * v.z,
        ;
        assert((len - 1) * (len - 1) < 16129 * v.norm2());
        assert(16129 * (16129 * v.norm2()) <= 3 * ((len - 1) * (len - 1)));
        assert(false);
    }
}

/// One term of the bound on the length of a unit normal.
proof fn lemma_unit_length_term(a: int, n: int, len: int)
    requires
        len >= 1,
        n == quot(16129 * a, len),
    ensures
        (n * n) * (len * len) <= (16129 * 16129) * (a * a),
{
    let s = if a >= 0 { a } else { -a };
    let q = (16129 * s) / len;
    assert(0 <= q * len <= 16129 * s) by (nonlinear_arith)
        requires
            q == (16129 * s) / len,
            len >= 1,
            s >= 0,
    ;
    lemma_square_grows(q * len, 16129 * s);
    assert((q * len) * (q * len) == (n * n) * (len * len)) by (nonlinear_arith)
        requires
            n == q || n == -q,
    ;
    assert((16129 * s) * (16129 * s) == (16129 * 16129) * (a * a)) by (nonlinear_arith)
        requires
            s == a || s == -a,
    ;
}

/// A unit normal is no longer than 127.
pub proof fn lemma_unit_length(v: Vector)
    ensures
        unit(v).vector().norm2() <= 16129,
{
    if !v.is_zero() {
        let len = ceil_sqrt(16129 * v.norm2());
        let n = unit(v);
        lemma_unit_components(v);
        assert(v.norm2() >= 1) by (nonlinear_arith)
            requires
                v.x != 0 || v.y != 0 || v.z != 0,
                v.norm2() == v.x * v.x + v.y * v.y + v.z * v.z,
        ;
        lemma_ceil_sqrt_exists(16129 * v.norm2());
        lemma_unit_length_term(v.x, n.x as int, len);
        lemma_unit_length_term(v.y, n.y as int, len);
        lemma_unit_length_term(v.z, n.z as int, len);
        let total = n.vector().norm2();
        let square = len * len;
        assert(total * square == (n.x * n.x) * square + (n.y * n.y) * square + (n.z * n.z) * square)
            by (nonlinear_arith)
            requires
                total == n.x * n.x + n.y * n.y + n.z * n.z,
        ;
        assert((16129 * 16129) * v.norm2() == (16129 * 16129) * (v.x * v.x) + (16129 * 16129) * (v.y
            * v.y) + (16129 * 16129) * (v.z * v.z)) by (nonlinear_arith)
            requires
                v.norm2() == v.x * v.x + v.y * v.y + v.z * v.z,
        ;
        assert(total * square <= 16129 * square) by (nonlinear_arith)
            requires
                total * square <= (16129 * 16129) * v.norm2(),
                16129 * v.norm2() <= square,
        ;
        assert(total <= 16129) by (nonlinear_arith)
            requires
                total * square <= 16129 * square,
                square >= 1,
        ;
    }
}

/// One term of the comparison between the dot product with a vector and
/// the dot product with its unit normal.
proof fn lemma_slope_term(a: int, v: int, n: int, len: int)
    requires
        -128 <= a <= 127,
        len >= 1,
        -(len - 1) <= 16129 * v - n * len <= len - 1,
    ensures
        16129 * (a * v) >= len * (a * n) - 128 * (len - 1),
{
    let r = 16129 * v - n * len;
    lemma_product_bound(a, r, 128, len - 1);
    assert(16129 * (a * v) == len * (a * n) + a * r) by (nonlinear_arith)
        requires
            r == 16129 * v - n * len,
    ;
}

/// An axis that is well aligned with the unit normal of a vector points
/// to the same side as the vector.
pub proof fn lemma_slope_positive(v: Vector, axis: Normal)
    requires
        !v.is_zero(),
        unit(v).vector().dot(axis.vector()) > 384,
    ensures
        axis.vector().dot(v) > 0,
{
    let len = ceil_sqrt(16129 * v.norm2());
    let n = unit(v);
    lemma_unit_components(v);
    lemma_quot_remainder(16129 * v.x, len);
    lemma_quot_remainder(16129 * v.y, len);
    lemma_quot_remainder(16129 * v.z, len);
    lemma_slope_term(axis.x as int, v.x, n.x as int, len);
    lemma_slope_term(axis.y as int, v.y, n.y as int, len);
    lemma_slope_term(axis.z as int, v.z, n.z as int, len);
    let d = n.vector().dot(axis.vector());
    assert(d == axis.x * n.x + axis.y * n.y + axis.z * n.z) by (nonlinear_arith)
        requires
            d == n.x * axis.x + n.y * axis.y + n.z * axis.z,
    ;
    assert(len * d >= 385 * len) by (nonlinear_arith)
        requires
            len >= 1,
            d >= 385,
    ;
    assert(len * d == len * (axis.x * n.x) + len * (axis.y * n.y) + len * (axis.z * n.z))
        by (nonlinear_arith)
        requires
            d == axis.x * n.x + axis.y * n.y + axis.z * n.z,
    ;
}

}
