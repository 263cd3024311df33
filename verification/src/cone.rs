//! The cone around the normals of a cluster: its axis, its cutoff, and the
//! apex behind the cluster's triangles.

use vstd::prelude::*;
use crate::bounds::{
    alignments, all_aligned, apex_of, axis_of, behind, covers, cutoff_of, has_apex, has_normals, lean, narrowness,
    normal_coords, setback, setbacks, top_corner, well_formed, Bounds, APEX_ALIGNMENT, APEX_CUTOFF, SETBACK_LIMIT,
};
use crate::extremes::{greatest, highest, is_greatest, is_least, least, lifted, lowest, occupied};
use crate::grid::{dot, face, face_normal, lemma_dot_bound, lemma_product_bound, span, GridPoint, Span, FACE_LIMIT};
use crate::normal::{lemma_slope_positive, lemma_unit_length, lemma_unit_nonzero, normals_of, triangle_normals, unit, unit_normal};
use crate::mesh::Normal;

verus! {

/// Lists one component of every normal that is not zero.
pub(crate) fn normal_coordinate_list(normals: &Vec<Normal>, axis: usize) -> (vals: Vec<Option<i64>>)
    requires
        axis < 3,
    ensures
        lifted(vals@) == normal_coords(normals@, axis as int),
{
    let mut vals: Vec<Option<i64>> = Vec::new();
    let mut i: usize = 0;
    while i < normals.len()
        invariant
            i <= normals.len(),
            axis < 3,
            vals@.len() == i,
            forall|j: int|
                0 <= j < i ==> #[trigger] lifted(vals@)[j] == normal_coords(normals@, axis as int)[j],
        decreases normals.len() - i,
    {
        let n = normals[i];
        let ghost before = vals@;
        if n.x == 0 && n.y == 0 && n.z == 0 {
            vals.push(None);
        } else {
            let v: i64 = if axis == 0 {
                n.x as i64
            } else if axis == 1 {
                n.y as i64
            } else {
                n.z as i64
            };
            vals.push(Some(v));
        }
        proof {
            assert forall|j: int| 0 <= j < i + 1 implies #[trigger] lifted(vals@)[j] == normal_coords(
                normals@,
                axis as int,
            )[j] by {
                if j < i {
                    assert(vals@[j] == before[j]);
                    assert(lifted(before)[j] == normal_coords(normals@, axis as int)[j]);
                }
            }
        }
        i += 1;
    }
    assert(lifted(vals@) =~= normal_coords(normals@, axis as int));
    vals
}

/// The two ends of the normals' box along one axis, if any normal is not
/// zero.
pub(crate) fn normal_extent(normals: &Vec<Normal>, axis: usize) -> (r: Option<(i64, i64)>)
    requires
        axis < 3,
    ensures
        match r {
            Some((lo, hi)) => occupied(normal_coords(normals@, axis as int)) && lo == least(
                normal_coords(normals@, axis as int),
            ) && hi == greatest(normal_coords(normals@, axis as int)) && -128 <= lo <= 127 && -128 <= hi
                <= 127,
            None => !occupied(normal_coords(normals@, axis as int)),
        },
{
    let vals = normal_coordinate_list(normals, axis);
    let ghost all = normal_coords(normals@, axis as int);
    match lowest(&vals) {
        Some(lo) => {
            let hi: i64 = match highest(&vals) {
                Some(v) => v,
                None => 0,
            };
            proof {
                let i = choose|i: int| 0 <= i < all.len() && all[i] == Some(lo as int);
                let j = choose|j: int| 0 <= j < all.len() && all[j] == Some(hi as int);
                assert(all[i].is_some() && all[j].is_some());
            }
            Some((lo, hi))
        },
        None => None,
    }
}

/// Whether a normal is not zero does not depend on the axis along which it
/// is looked at.
pub proof fn lemma_occupied_any_axis(normals: Seq<Normal>, axis: int, other: int)
    requires
        occupied(normal_coords(normals, axis)),
    ensures
        occupied(normal_coords(normals, other)),
{
    let t = choose|t: int| 0 <= t < normal_coords(normals, axis).len() && (#[trigger] normal_coords(
        normals,
        axis,
    )[t]).is_some();
    assert(normal_coords(normals, other)[t].is_some());
}

/// Finds the axis of the cone, if any normal is not zero.
pub(crate) fn cone_axis(normals: &Vec<Normal>) -> (r: Option<Normal>)
    ensures
        match r {
            Some(a) => has_normals(normals@) && a == axis_of(normals@),
            None => !has_normals(normals@),
        },
{
    let x = normal_extent(normals, 0);
    let y = normal_extent(normals, 1);
    let z = normal_extent(normals, 2);
    proof {
        if occupied(normal_coords(normals@, 0)) {
            lemma_occupied_any_axis(normals@, 0, 1);
            lemma_occupied_any_axis(normals@, 0, 2);
        }
        if occupied(normal_coords(normals@, 1)) {
            lemma_occupied_any_axis(normals@, 1, 0);
        }
        if occupied(normal_coords(normals@, 2)) {
            lemma_occupied_any_axis(normals@, 2, 0);
        }
    }
    match (x, y, z) {
        (Some((lo_x, hi_x)), Some((lo_y, hi_y)), Some((lo_z, hi_z))) => {
            let lean = Span { x: lo_x + hi_x, y: lo_y + hi_y, z: lo_z + hi_z };
            if lean.x == 0 && lean.y == 0 && lean.z == 0 {
                Some(unit_normal(Span { x: hi_x, y: hi_y, z: hi_z }))
            } else {
                Some(unit_normal(lean))
            }
        },
        _ => None,
    }
}

/// A normal as a machine vector.
pub(crate) fn normal_span(n: Normal) -> (r: Span)
    ensures
        r@ == n.vector(),
        r.within(128),
{
    Span { x: n.x as i64, y: n.y as i64, z: n.z as i64 }
}

/// Lists the dot product of `axis` with every normal that is not zero.
pub(crate) fn alignment_list(normals: &Vec<Normal>, axis: Normal) -> (vals: Vec<Option<i64>>)
    ensures
        lifted(vals@) == alignments(normals@, axis),
{
    let mut vals: Vec<Option<i64>> = Vec::new();
    let mut i: usize = 0;
    while i < normals.len()
        invariant
            i <= normals.len(),
            vals@.len() == i,
            forall|j: int| 0 <= j < i ==> #[trigger] lifted(vals@)[j] == alignments(normals@, axis)[j],
        decreases normals.len() - i,
    {
        let n = normals[i];
        let ghost before = vals@;
        if n.x == 0 && n.y == 0 && n.z == 0 {
            vals.push(None);
        } else {
            let d: i64 = dot(normal_span(n), normal_span(axis), Ghost(128), Ghost(128), Ghost(16384));
            vals.push(Some(d));
        }
        proof {
            assert forall|j: int| 0 <= j < i + 1 implies #[trigger] lifted(vals@)[j] == alignments(
                normals@,
                axis,
            )[j] by {
                if j < i {
                    assert(vals@[j] == before[j]);
                    assert(lifted(before)[j] == alignments(normals@, axis)[j]);
                }
            }
        }
        i += 1;
    }
    assert(lifted(vals@) =~= alignments(normals@, axis));
    vals
}

/// Computes the setback of one triangle whose unit normal is aligned with
/// the axis.
pub(crate) fn setback_of(center: GridPoint, axis: Normal, a: GridPoint, b: GridPoint, c: GridPoint) -> (r: i64)
    requires
        !face(a, b, c).is_zero(),
        unit(face(a, b, c)).vector().dot(axis.vector()) >= APEX_ALIGNMENT,
    ensures
        r == setback(center, axis, a, face(a, b, c)),
        0 <= r <= SETBACK_LIMIT,
        center.minus(a).dot(face(a, b, c)) <= r * axis.vector().dot(face(a, b, c)),
        axis.vector().dot(face(a, b, c)) > 0,
{
    let n = face_normal(a, b, c);
    proof {
        lemma_slope_positive(n@, axis);
        assert(65535 * FACE_LIMIT == 562941363486720);
        assert(128 * FACE_LIMIT == 1099511627776);
    }
    let ahead: i64 = dot(span(a, center), n, Ghost(65535), Ghost(FACE_LIMIT as int), Ghost(562941363486720));
    let slope: i64 = dot(normal_span(axis), n, Ghost(128), Ghost(FACE_LIMIT as int), Ghost(1099511627776));
    if ahead <= 0 {
        proof {
            assert(0 * slope == 0);
        }
        0
    } else {
        let q: u64 = ((ahead + slope - 1) as u64) / (slope as u64);
        proof {
            let top = ahead + slope - 1;
            assert(q == top / (slope as int));
            assert(q * slope >= ahead && q <= ahead) by (nonlinear_arith)
                requires
                    q == top / (slope as int),
                    top == ahead + slope - 1,
                    slope >= 1,
                    ahead >= 1,
            ;
        }
        q as i64
    }
}

/// Lists the setback of every triangle whose normal is not zero.
pub(crate) fn setback_list(
    indices: &[u32],
    positions: &[GridPoint],
    normals: &Vec<Normal>,
    center: GridPoint,
    axis: Normal,
) -> (vals: Vec<Option<i64>>)
    requires
        well_formed(indices@, positions@),
        normals@ == normals_of(indices@, positions@),
        all_aligned(normals@, axis),
    ensures
        lifted(vals@) == setbacks(indices@, positions@, center, axis),
        forall|t: int|
            0 <= t < vals@.len() ==> ((#[trigger] vals@[t]) matches Some(v) ==> 0 <= v <= SETBACK_LIMIT),
{
    let count: usize = indices.len() / 3;
    let mut vals: Vec<Option<i64>> = Vec::new();
    let mut t: usize = 0;
    while t < count
        invariant
            t <= count,
            count == indices@.len() / 3,
            indices@.len() <= usize::MAX,
            well_formed(indices@, positions@),
            normals@ == normals_of(indices@, positions@),
            all_aligned(normals@, axis),
            vals@.len() == t,
            forall|u: int|
                0 <= u < t ==> #[trigger] lifted(vals@)[u] == setbacks(indices@, positions@, center, axis)[u],
            forall|u: int|
                0 <= u < t ==> ((#[trigger] vals@[u]) matches Some(v) ==> 0 <= v <= SETBACK_LIMIT),
        decreases count - t,
    {
        let ghost before = vals@;
        proof {
            assert((indices@[3 * t] as nat) < positions@.len());
            assert((indices@[3 * t + 1] as nat) < positions@.len());
            assert((indices@[3 * t + 2] as nat) < positions@.len());
        }
        let n = normals[t];
        if n.x == 0 && n.y == 0 && n.z == 0 {
            vals.push(None);
        } else {
            let a = positions[indices[3 * t] as usize];
            let b = positions[indices[3 * t + 1] as usize];
            let c = positions[indices[3 * t + 2] as usize];
            proof {
                assert(!normals@[t as int].is_zero());
                assert(normals@[t as int] == unit(face(a, b, c)));
            }
            vals.push(Some(setback_of(center, axis, a, b, c)));
        }
        proof {
            assert forall|u: int| 0 <= u < t + 1 implies #[trigger] lifted(vals@)[u] == setbacks(
                indices@,
                positions@,
                center,
                axis,
            )[u] by {
                if u < t {
                    assert(vals@[u] == before[u]);
                    assert(lifted(before)[u] == setbacks(indices@, positions@, center, axis)[u]);
                }
            }
            assert forall|u: int| 0 <= u < t + 1 implies ((#[trigger] vals@[u]) matches Some(v) ==> 0 <= v
                <= SETBACK_LIMIT) by {
                if u < t {
                    assert(vals@[u] == before[u]);
                }
            }
        }
        t += 1;
    }
    assert(lifted(vals@) =~= setbacks(indices@, positions@, center, axis));
    vals
}

/// The same places hold a number in the list of alignments and in the
/// lists of components.
pub proof fn lemma_occupied_alignments(normals: Seq<Normal>, axis: Normal)
    ensures
        occupied(alignments(normals, axis)) == occupied(normal_coords(normals, 0)),
{
    if occupied(alignments(normals, axis)) {
        let t = choose|t: int| 0 <= t < alignments(normals, axis).len() && (#[trigger] alignments(
            normals,
            axis,
        )[t]).is_some();
        assert(normal_coords(normals, 0)[t].is_some());
    }
    if occupied(normal_coords(normals, 0)) {
        let t = choose|t: int| 0 <= t < normal_coords(normals, 0).len() && (#[trigger] normal_coords(
            normals,
            0,
        )[t]).is_some();
        assert(alignments(normals, axis)[t].is_some());
    }
}

/// A point that has gone back along the axis by the largest setback lies
/// behind the plane of every triangle.
pub proof fn lemma_apex_behind(
    indices: Seq<u32>,
    positions: Seq<GridPoint>,
    center: GridPoint,
    axis: Normal,
    k: int,
    t: int,
)
    requires
        0 <= t < indices.len() / 3,
        all_aligned(normals_of(indices, positions), axis),
        is_greatest(setbacks(indices, positions, center, axis), k),
    ensures
        behind(center.vector().minus(axis.vector().times(k)), indices, positions, t),
{
    let a = positions[indices[3 * t] as int];
    let n = face(a, positions[indices[3 * t + 1] as int], positions[indices[3 * t + 2] as int]);
    let apex = center.vector().minus(axis.vector().times(k));
    let ahead = center.minus(a).dot(n);
    let slope = axis.vector().dot(n);
    let x = axis.vector();
    assert((apex.x - a.x) * n.x == (center.x - a.x) * n.x - k * (x.x * n.x)) by (nonlinear_arith)
        requires
            apex.x == center.x - k * x.x,
    ;
    assert((apex.y - a.y) * n.y == (center.y - a.y) * n.y - k * (x.y * n.y)) by (nonlinear_arith)
        requires
            apex.y == center.y - k * x.y,
    ;
    assert((apex.z - a.z) * n.z == (center.z - a.z) * n.z - k * (x.z * n.z)) by (nonlinear_arith)
        requires
            apex.z == center.z - k * x.z,
    ;
    assert(k * slope == k * (x.x * n.x) + k * (x.y * n.y) + k * (x.z * n.z)) by (nonlinear_arith)
        requires
            slope == x.x * n.x + x.y * n.y + x.z * n.z,
    ;
    assert(apex.minus(a.vector()).dot(n) == ahead - k * slope);
    let all = setbacks(indices, positions, center, axis);
    let normals = normals_of(indices, positions);
    if normals[t].is_zero() {
        if !n.is_zero() {
            lemma_unit_nonzero(n);
        }
        assert(ahead == 0 && slope == 0) by (nonlinear_arith)
            requires
                n.x == 0 && n.y == 0 && n.z == 0,
                ahead == (center.x - a.x) * n.x + (center.y - a.y) * n.y + (center.z - a.z) * n.z,
                slope == x.x * n.x + x.y * n.y + x.z * n.z,
        ;
        assert(k * slope == 0) by (nonlinear_arith)
            requires
                slope == 0,
        ;
    } else {
        assert(all[t] == Some(setback(center, axis, a, n)));
        let s = setback(center, axis, a, n);
        assert(all[t].is_some());
        assert(k >= s);
        assert(!normals[t].is_zero());
        assert(normals[t] == unit(n));
        lemma_slope_positive(n, axis);
        if ahead <= 0 {
            assert(k * slope >= 0) by (nonlinear_arith)
                requires
                    k >= 0,
                    slope > 0,
            ;
        } else {
            assert(k * slope >= ahead) by (nonlinear_arith)
                requires
                    k >= s,
                    s == (ahead + slope - 1) / slope,
                    slope >= 1,
                    ahead >= 1,
            ;
        }
    }
}

/// The narrowness of a cone of unit normals around a unit axis lies
/// between -16129 and 16129.
pub proof fn lemma_narrowness_bound(indices: Seq<u32>, positions: Seq<GridPoint>, t: int)
    requires
        0 <= t < normals_of(indices, positions).len(),
    ensures
        -16129 <= normals_of(indices, positions)[t].vector().dot(
            axis_of(normals_of(indices, positions)).vector(),
        ) <= 16129,
{
    let normals = normals_of(indices, positions);
    lemma_unit_length(
        face(
            positions[indices[3 * t] as int],
            positions[indices[3 * t + 1] as int],
            positions[indices[3 * t + 2] as int],
        ),
    );
    lemma_unit_length(lean(normals));
    lemma_unit_length(top_corner(normals));
    lemma_dot_bound(normals[t].vector(), axis_of(normals).vector());
}

/// Rounds a narrowness down to a cutoff.
pub(crate) fn cutoff_for(narrow: i64) -> (r: i8)
    requires
        -16129 <= narrow <= 16129,
    ensures
        r == (if narrow as int / 127 > 127 { 127 } else { narrow as int / 127 }),
        -127 <= r <= 127,
        127 * r <= narrow,
        r >= APEX_CUTOFF ==> narrow >= APEX_ALIGNMENT,
{
    if narrow >= 0 {
        let steps: u64 = (narrow as u64) / 127;
        steps as i8
    } else {
        let steps: u64 = (((-narrow) as u64) + 126) / 127;
        proof {
            let n = narrow as int;
            assert(n / 127 == -((-n + 126) / 127)) by (nonlinear_arith)
                requires
                    n < 0,
            ;
        }
        -(steps as i8)
    }
}

/// Computes the cone of the cluster around `center`: axis, cutoff and
/// apex.
pub(crate) fn cone(indices: &[u32], positions: &[GridPoint], center: GridPoint) -> (r: (Normal, i8, Span))
    requires
        well_formed(indices@, positions@),
    ensures
        r.0 == (if has_normals(normals_of(indices@, positions@)) {
            axis_of(normals_of(indices@, positions@))
        } else {
            Normal { x: 0, y: 0, z: 0 }
        }),
        r.1 == (if has_normals(normals_of(indices@, positions@)) {
            cutoff_of(normals_of(indices@, positions@))
        } else {
            -127
        }),
        r.2@ == (if has_apex(normals_of(indices@, positions@)) {
            apex_of(indices@, positions@, center, r.0)
        } else {
            center.vector()
        }),
        forall|t: int|
            0 <= t < normals_of(indices@, positions@).len() && !(#[trigger] normals_of(
                indices@,
                positions@,
            )[t]).is_zero() ==> normals_of(indices@, positions@)[t].vector().dot(r.0.vector()) >= 127
                * r.1,
        has_apex(normals_of(indices@, positions@)) ==> {
            &&& all_aligned(normals_of(indices@, positions@), r.0)
            &&& is_greatest(
                setbacks(indices@, positions@, center, r.0),
                greatest(setbacks(indices@, positions@, center, r.0)),
            )
        },
{
    let middle = Span { x: center.x as i64, y: center.y as i64, z: center.z as i64 };
    let normals = triangle_normals(indices, positions);
    let axis = match cone_axis(&normals) {
        Some(axis) => axis,
        None => {
            proof {
                assert forall|t: int| 0 <= t < normals@.len() implies (#[trigger] normals@[t]).is_zero() by {
                    if !normals@[t].is_zero() {
                        assert(normal_coords(normals@, 0)[t].is_some());
                    }
                }
            }
            return (Normal { x: 0, y: 0, z: 0 }, -127i8, middle);
        },
    };
    let aligned = alignment_list(&normals, axis);
    let ghost all = alignments(normals@, axis);
    proof {
        lemma_occupied_alignments(normals@, axis);
    }
    let narrow: i64 = match lowest(&aligned) {
        Some(v) => v,
        None => 0,
    };
    proof {
        let i = choose|i: int| 0 <= i < all.len() && all[i] == Some(narrow as int);
        lemma_narrowness_bound(indices@, positions@, i);
        assert forall|t: int| 0 <= t < normals@.len() && !(#[trigger] normals@[t]).is_zero() implies normals@[t].vector().dot(
            axis.vector(),
        ) >= narrow by {
            assert(all[t].is_some());
        }
    }
    let cutoff: i8 = cutoff_for(narrow);
    if cutoff < APEX_CUTOFF {
        return (axis, cutoff, middle);
    }
    let backs = setback_list(indices, positions, &normals, center, axis);
    let ghost all_backs = setbacks(indices@, positions@, center, axis);
    proof {
        let i = choose|i: int| 0 <= i < all.len() && all[i] == Some(narrow as int);
        assert(all_backs[i].is_some());
    }
    let k: i64 = match highest(&backs) {
        Some(v) => v,
        None => 0,
    };
    proof {
        let j = choose|j: int| 0 <= j < all_backs.len() && all_backs[j] == Some(k as int);
        assert(lifted(backs@)[j] == Some(k as int));
        assert((backs@[j] matches Some(v) ==> 0 <= v <= SETBACK_LIMIT));
        lemma_product_bound(k as int, axis.x as int, SETBACK_LIMIT as int, 128);
        lemma_product_bound(k as int, axis.y as int, SETBACK_LIMIT as int, 128);
        lemma_product_bound(k as int, axis.z as int, SETBACK_LIMIT as int, 128);
        assert(SETBACK_LIMIT * 128 == 216169483578900480);
    }
    let apex = Span {
        x: center.x as i64 - k * (axis.x as i64),
        y: center.y as i64 - k * (axis.y as i64),
        z: center.z as i64 - k * (axis.z as i64),
    };
    (axis, cutoff, apex)
}

}
