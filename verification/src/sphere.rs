//! The sphere around a cluster: centered in the middle of the box of its
//! corners, reaching the farthest of them.

use vstd::prelude::*;
use crate::bounds::{center_of, coords, corners, middle, radius_of, reaches};
use crate::extremes::{highest, lifted, lowest};
use crate::grid::{dot, span, GridPoint};
use crate::normal::{lemma_square_grows, rounded_up_root};
use crate::mesh::all_below;

verus! {

/// Collects the corners of the triangles that `indices` lists.
pub(crate) fn gather(indices: &[u32], positions: &[GridPoint]) -> (points: Vec<GridPoint>)
    requires
        all_below(indices@, positions@.len()),
    ensures
        points@ == corners(indices@, positions@),
{
    let mut points: Vec<GridPoint> = Vec::new();
    let mut i: usize = 0;
    while i < indices.len()
        invariant
            i <= indices.len(),
            all_below(indices@, positions@.len()),
            points@.len() == i,
            forall|j: int| 0 <= j < i ==> #[trigger] points@[j] == positions@[indices@[j] as int],
        decreases indices.len() - i,
    {
        assert((indices@[i as int] as nat) < positions@.len());
        points.push(positions[indices[i] as usize]);
        i += 1;
    }
    assert(points@ =~= corners(indices@, positions@));
    points
}

/// Lists one coordinate of every point.
pub(crate) fn coordinate_list(points: &Vec<GridPoint>, axis: usize) -> (vals: Vec<Option<i64>>)
    requires
        axis < 3,
    ensures
        lifted(vals@) == coords(points@, axis as int),
{
    let mut vals: Vec<Option<i64>> = Vec::new();
    let mut i: usize = 0;
    while i < points.len()
        invariant
            i <= points.len(),
            axis < 3,
            vals@.len() == i,
            forall|j: int| 0 <= j < i ==> #[trigger] vals@[j] == Some(points@[j].coord(axis as int) as i64),
        decreases points.len() - i,
    {
        let p = points[i];
        let v: i64 = if axis == 0 {
            p.x as i64
        } else if axis == 1 {
            p.y as i64
        } else {
            p.z as i64
        };
        vals.push(Some(v));
        i += 1;
    }
    assert(lifted(vals@) =~= coords(points@, axis as int));
    vals
}

/// Finds the middle of the points' box along one axis.
pub(crate) fn middle_along(points: &Vec<GridPoint>, axis: usize) -> (m: u16)
    requires
        axis < 3,
        points@.len() > 0,
    ensures
        m == middle(points@, axis as int),
{
    let vals = coordinate_list(points, axis);
    let ghost all = coords(points@, axis as int);
    assert(all[0].is_some());
    let lo: i64 = match lowest(&vals) {
        Some(v) => v,
        None => 0,
    };
    let hi: i64 = match highest(&vals) {
        Some(v) => v,
        None => 0,
    };
    proof {
        let i = choose|i: int| 0 <= i < all.len() && all[i] == Some(lo as int);
        let j = choose|j: int| 0 <= j < all.len() && all[j] == Some(hi as int);
        assert(all[i] == Some(points@[i].coord(axis as int)));
        assert(all[j] == Some(points@[j].coord(axis as int)));
    }
    (((lo + hi) as u64) / 2) as u16
}

/// Lists the squared distance of every point from `c`.
pub(crate) fn reach_list(points: &Vec<GridPoint>, c: GridPoint) -> (vals: Vec<Option<i64>>)
    ensures
        lifted(vals@) == reaches(points@, c),
        forall|j: int|
            0 <= j < vals@.len() ==> ((#[trigger] vals@[j]) matches Some(v) && 0 <= v <= 12884508675),
{
    let mut vals: Vec<Option<i64>> = Vec::new();
    let mut i: usize = 0;
    while i < points.len()
        invariant
            i <= points.len(),
            vals@.len() == i,
            forall|j: int| 0 <= j < i ==> #[trigger] vals@[j] == Some(points@[j].dist2(c) as i64),
            forall|j: int| 0 <= j < i ==> 0 <= #[trigger] points@[j].dist2(c) <= 12884508675,
        decreases points.len() - i,
    {
        let s = span(c, points[i]);
        let d: i64 = dot(s, s, Ghost(65535), Ghost(65535), Ghost(4294836225));
        proof {
            assert(s.x * s.x >= 0 && s.y * s.y >= 0 && s.z * s.z >= 0) by (nonlinear_arith);
        }
        vals.push(Some(d));
        i += 1;
    }
    assert(lifted(vals@) =~= reaches(points@, c));
    vals
}

/// Computes the sphere around the points: centered in the middle of their
/// box, reaching the farthest of them.
pub(crate) fn sphere(points: &Vec<GridPoint>) -> (r: (GridPoint, u32))
    requires
        points@.len() > 0,
    ensures
        r.0 == center_of(points@),
        r.1 == radius_of(points@, r.0),
        forall|i: int| 0 <= i < points@.len() ==> (#[trigger] points@[i]).dist2(r.0) <= r.1 * r.1,
{
    let center = GridPoint {
        x: middle_along(points, 0),
        y: middle_along(points, 1),
        z: middle_along(points, 2),
    };
    let vals = reach_list(points, center);
    let ghost all = reaches(points@, center);
    assert(all[0].is_some());
    let far: i64 = match highest(&vals) {
        Some(v) => v,
        None => 0,
    };
    proof {
        let j = choose|j: int| 0 <= j < all.len() && all[j] == Some(far as int);
        assert(lifted(vals@)[j] == Some(far as int));
        assert((vals@[j] matches Some(v) && 0 <= v <= 12884508675));
    }
    let radius: u64 = rounded_up_root(far as u128);
    proof {
        if radius > 113511 {
            lemma_square_grows(113511, radius as int - 1);
        }
        assert forall|i: int| 0 <= i < points@.len() implies (#[trigger] points@[i]).dist2(center) <= radius
            * radius by {
            assert(all[i].is_some());
        }
    }
    (center, radius as u32)
}

}
