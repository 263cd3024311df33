//! Bounding volumes of a cluster of triangles: a sphere around its
//! vertices, and a cone around the normals of its triangles.
//!
//! The sphere is centered in the middle of the cluster's box and reaches
//! its farthest vertex. The cone's axis points to the middle of the box of
//! the unit normals, or, where that box is centered on zero, to its
//! greatest corner. The cutoff is the least cosine between the axis and a
//! normal, in units of 1/127 and rounded down; it is zero or negative
//! where the normals spread over a half-space or more. The apex is the
//! point on the axis from which every triangle is seen from behind; a
//! cluster whose cone is too wide for that has its apex in the center.
//! Triangles without area have no normal and do not count. A cluster
//! without normals has the zero axis and the cutoff -127.

use vstd::prelude::*;
use crate::addressing::{cluster_defect, meshlet_in_range, meshlet_indices, resolved, validate_cluster};
use crate::cone::{cone, lemma_apex_behind};
use crate::extremes::{greatest, least, occupied};
use crate::grid::{face, GridPoint, Span, Vector};
use crate::normal::{ceil_sqrt, normals_of, unit};
use crate::mesh::{all_below, InvalidArgument, Mesh, Meshlet, Normal};
use crate::sphere::{gather, sphere};

verus! {

/// Summary of a cluster's extent in space and of the directions that its
/// triangles face.
#[derive(Clone, Copy, Debug, PartialEq, Eq, Structural)]
pub struct Bounds {
    /// Center of a sphere that holds every vertex of the cluster.
    pub center: GridPoint,
    /// Radius of that sphere, in grid steps.
    pub radius: u32,
    /// A point on the cone's axis that lies behind every triangle of the
    /// cluster, where the cutoff is `APEX_CUTOFF` or more; else the
    /// center.
    pub cone_apex: Span,
    /// Axis of the cone of normals, of length 127; zero where the cluster
    /// has no normals.
    pub cone_axis: Normal,
    /// Cosine of the cone's half-angle in units of 1/127, rounded down;
    /// -127 where the cluster has no normals.
    pub cone_cutoff: i8,
}

/// The least cutoff of a cone that has an apex: below it the normals
/// spread over almost a half-space, and no point is behind every triangle
/// for certain.
pub const APEX_CUTOFF: i8 = 13;

/// The least dot product of axis and normal, in units of 1/16129, under a
/// cutoff of `APEX_CUTOFF`.
pub const APEX_ALIGNMENT: i64 = 1651;

/// The corners of the triangles that `indices` lists, in that order.
pub open spec fn corners(indices: Seq<u32>, positions: Seq<GridPoint>) -> Seq<GridPoint> {
    Seq::new(indices.len(), |i: int| positions[indices[i] as int])
}

/// One coordinate of every point.
pub open spec fn coords(points: Seq<GridPoint>, axis: int) -> Seq<Option<int>> {
    Seq::new(points.len(), |i: int| Some(points[i].coord(axis)))
}

/// The middle of the points' box along one axis.
pub open spec fn middle(points: Seq<GridPoint>, axis: int) -> int {
    (least(coords(points, axis)) + greatest(coords(points, axis))) / 2
}

/// The middle of the points' box.
pub open spec fn center_of(points: Seq<GridPoint>) -> GridPoint {
    GridPoint {
        x: middle(points, 0) as u16,
        y: middle(points, 1) as u16,
        z: middle(points, 2) as u16,
    }
}

/// The squared distance of every point from `c`.
pub open spec fn reaches(points: Seq<GridPoint>, c: GridPoint) -> Seq<Option<int>> {
    Seq::new(points.len(), |i: int| Some(points[i].dist2(c)))
}

/// The distance from `c` to the farthest point, rounded up.
pub open spec fn radius_of(points: Seq<GridPoint>, c: GridPoint) -> int {
    ceil_sqrt(greatest(reaches(points, c)))
}

/// One component of every normal that is not zero.
pub open spec fn normal_coords(normals: Seq<Normal>, axis: int) -> Seq<Option<int>> {
    Seq::new(
        normals.len(),
        |t: int|
            if normals[t].is_zero() {
                None
            } else {
                Some(normals[t].vector().coord(axis))
            },
    )
}

/// Twice the middle of the box of the normals that are not zero.
pub open spec fn lean(normals: Seq<Normal>) -> Vector {
    Vector {
        x: least(normal_coords(normals, 0)) + greatest(normal_coords(normals, 0)),
        y: least(normal_coords(normals, 1)) + greatest(normal_coords(normals, 1)),
        z: least(normal_coords(normals, 2)) + greatest(normal_coords(normals, 2)),
    }
}

/// The greatest corner of the box of the normals that are not zero.
pub open spec fn top_corner(normals: Seq<Normal>) -> Vector {
    Vector {
        x: greatest(normal_coords(normals, 0)),
        y: greatest(normal_coords(normals, 1)),
        z: greatest(normal_coords(normals, 2)),
    }
}

/// The axis of the cone: the direction that the normals lean to, or, where
/// they lean to none, the direction of the greatest corner of their box.
pub open spec fn axis_of(normals: Seq<Normal>) -> Normal {
    if lean(normals).is_zero() {
        unit(top_corner(normals))
    } else {
        unit(lean(normals))
    }
}

/// The dot product of `axis` with every normal that is not zero.
pub open spec fn alignments(normals: Seq<Normal>, axis: Normal) -> Seq<Option<int>> {
    Seq::new(
        normals.len(),
        |t: int|
            if normals[t].is_zero() {
                None
            } else {
                Some(normals[t].vector().dot(axis.vector()))
            },
    )
}

/// The least dot product of the axis with a normal: 16129 times the cosine
/// of the cone's half-angle.
pub open spec fn narrowness(normals: Seq<Normal>) -> int {
    least(alignments(normals, axis_of(normals)))
}

/// Whether any of the normals is not zero.
pub open spec fn has_normals(normals: Seq<Normal>) -> bool {
    occupied(normal_coords(normals, 0))
}

/// The cutoff of the cone: the narrowness in units of 1/127, rounded down.
pub open spec fn cutoff_of(normals: Seq<Normal>) -> int {
    if narrowness(normals) / 127 > 127 {
        127
    } else {
        narrowness(normals) / 127
    }
}

/// Whether the cone is narrow enough for an apex.
pub open spec fn has_apex(normals: Seq<Normal>) -> bool {
    has_normals(normals) && cutoff_of(normals) >= APEX_CUTOFF
}

/// How far, in lengths of the axis, the point `c` has to go back along the
/// axis to get behind the plane of triangle `a b c`: nothing for a triangle
/// that it is behind already.
pub open spec fn setback(center: GridPoint, axis: Normal, a: GridPoint, n: Vector) -> int {
    let ahead = center.minus(a).dot(n);
    let slope = axis.vector().dot(n);
    if ahead <= 0 {
        0
    } else {
        (ahead + slope - 1) / slope
    }
}

/// The setback of every triangle whose normal is not zero.
pub open spec fn setbacks(
    indices: Seq<u32>,
    positions: Seq<GridPoint>,
    center: GridPoint,
    axis: Normal,
) -> Seq<Option<int>> {
    Seq::new(
        (indices.len() / 3) as nat,
        |t: int|
            if normals_of(indices, positions)[t].is_zero() {
                None
            } else {
                Some(
                    setback(
                        center,
                        axis,
                        positions[indices[3 * t] as int],
                        face(
                            positions[indices[3 * t] as int],
                            positions[indices[3 * t + 1] as int],
                            positions[indices[3 * t + 2] as int],
                        ),
                    ),
                )
            },
    )
}

/// The point on the axis through `center` that lies behind every triangle:
/// as many axis lengths back as the largest setback asks.
pub open spec fn apex_of(indices: Seq<u32>, positions: Seq<GridPoint>, center: GridPoint, axis: Normal) -> Vector {
    center.vector().minus(axis.vector().times(greatest(setbacks(indices, positions, center, axis))))
}

/// The bounds of a cluster without triangles.
pub open spec fn empty_bounds() -> Bounds {
    Bounds {
        center: GridPoint { x: 0, y: 0, z: 0 },
        radius: 0,
        cone_apex: Span { x: 0, y: 0, z: 0 },
        cone_axis: Normal { x: 0, y: 0, z: 0 },
        cone_cutoff: -127i8,
    }
}

/// Whether `b` is the bounds of the cluster that `indices` lists over the
/// vertices at `positions`.
pub open spec fn is_bounds_of(indices: Seq<u32>, positions: Seq<GridPoint>, b: Bounds) -> bool {
    let points = corners(indices, positions);
    let normals = normals_of(indices, positions);
    if indices.len() == 0 {
        b == empty_bounds()
    } else {
        &&& b.center == center_of(points)
        &&& b.radius == radius_of(points, b.center)
        &&& b.cone_axis == (if has_normals(normals) {
            axis_of(normals)
        } else {
            Normal { x: 0, y: 0, z: 0 }
        })
        &&& b.cone_cutoff == (if has_normals(normals) {
            cutoff_of(normals)
        } else {
            -127
        })
        &&& b.cone_apex@ == (if has_apex(normals) {
            apex_of(indices, positions, b.center, b.cone_axis)
        } else {
            b.center.vector()
        })
    }
}

/// Whether all triangles of the index stream name vertices, in whole
/// triangles.
pub open spec fn well_formed(indices: Seq<u32>, positions: Seq<GridPoint>) -> bool {
    indices.len() % 3 == 0 && all_below(indices, positions.len())
}

/// Whether every normal that is not zero is aligned with `axis` as a cone
/// with an apex asks.
pub open spec fn all_aligned(normals: Seq<Normal>, axis: Normal) -> bool {
    forall|t: int|
        0 <= t < normals.len() && !(#[trigger] normals[t]).is_zero() ==> normals[t].vector().dot(axis.vector())
            >= APEX_ALIGNMENT
}

/// The largest setback that a cluster on the grid can ask for.
pub const SETBACK_LIMIT: i64 = 1688824090460160;

/// Whether the sphere of `b` holds every one of `points`.
pub open spec fn encloses(b: Bounds, points: Seq<GridPoint>) -> bool {
    forall|i: int| 0 <= i < points.len() ==> (#[trigger] points[i]).dist2(b.center) <= b.radius * b.radius
}

/// Whether the cone of `b` holds every one of `normals` that is not zero:
/// its dot product with the axis, in units of 1/16129, is no less than the
/// cutoff, in units of 1/127.
pub open spec fn covers(b: Bounds, normals: Seq<Normal>) -> bool {
    forall|t: int|
        0 <= t < normals.len() && !(#[trigger] normals[t]).is_zero() ==> normals[t].vector().dot(
            b.cone_axis.vector(),
        ) >= 127 * b.cone_cutoff
}

/// Whether `apex` lies in the plane of triangle `t` or behind it.
pub open spec fn behind(apex: Vector, indices: Seq<u32>, positions: Seq<GridPoint>, t: int) -> bool {
    apex.minus(positions[indices[3 * t] as int].vector()).dot(
        face(
            positions[indices[3 * t] as int],
            positions[indices[3 * t + 1] as int],
            positions[indices[3 * t + 2] as int],
        ),
    ) <= 0
}

/// Whether the apex of `b`, where the cone of `b` is narrow enough for
/// one, lies behind every triangle of the cluster.
pub open spec fn apex_behind(b: Bounds, indices: Seq<u32>, positions: Seq<GridPoint>) -> bool {
    b.cone_cutoff >= APEX_CUTOFF ==> forall|t: int|
        0 <= t < indices.len() / 3 ==> #[trigger] behind(b.cone_apex@, indices, positions, t)
}

/// Computes the bounding sphere and the cone of normals of a small cluster
/// of triangles.
///
/// `indices` holds three vertex indices per triangle, each naming one of
/// `positions`, for no more than 256 triangles.
pub fn compute_cluster_bounds(indices: &[u32], positions: &[GridPoint]) -> (result: Result<
    Bounds,
    InvalidArgument,
>)
    ensures
        match cluster_defect(indices@, positions@.len()) {
            Some(e) => result == Err::<Bounds, InvalidArgument>(e),
            None => result matches Ok(b) && is_bounds_of(indices@, positions@, b),
        },
        result matches Ok(b) ==> {
            &&& encloses(b, corners(indices@, positions@))
            &&& covers(b, normals_of(indices@, positions@))
            &&& apex_behind(b, indices@, positions@)
        },
{
    match validate_cluster(indices, positions.len()) {
        Err(e) => {
            return Err(e);
        },
        Ok(_) => {},
    }
    if indices.len() == 0 {
        let b = Bounds {
            center: GridPoint { x: 0, y: 0, z: 0 },
            radius: 0,
            cone_apex: Span { x: 0, y: 0, z: 0 },
            cone_axis: Normal { x: 0, y: 0, z: 0 },
            cone_cutoff: -127,
        };
        return Ok(b);
    }
    let points = gather(indices, positions);
    let (center, radius) = sphere(&points);
    let (cone_axis, cone_cutoff, cone_apex) = cone(indices, positions, center);
    let b = Bounds { center, radius, cone_apex, cone_axis, cone_cutoff };
    proof {
        if has_apex(normals_of(indices@, positions@)) {
            assert forall|t: int| 0 <= t < indices@.len() / 3 implies #[trigger] behind(
                cone_apex@,
                indices@,
                positions@,
                t,
            ) by {
                lemma_apex_behind(
                    indices@,
                    positions@,
                    center,
                    cone_axis,
                    greatest(setbacks(indices@, positions@, center, cone_axis)),
                    t,
                );
            }
        }
    }
    Ok(b)
}

/// The first condition that a meshlet breaks for a bounds query, if any:
/// its ranges within the buffers, its local indices within its vertex
/// range, and the triangles that it resolves to a valid small cluster.
pub open spec fn meshlet_defect(
    meshlet: Meshlet,
    vertices: Seq<u32>,
    micro: Seq<u8>,
    vertex_count: nat,
) -> Option<InvalidArgument> {
    if !meshlet_in_range(meshlet, vertices, micro) {
        Some(InvalidArgument::MeshletRange)
    } else {
        cluster_defect(resolved(meshlet, vertices, micro), vertex_count)
    }
}

/// Computes the bounding sphere and the cone of normals of one meshlet:
/// the bounds of the triangles that the meshlet resolves to.
pub fn compute_meshlet_bounds(
    meshlet: &Meshlet,
    meshlet_vertices: &[u32],
    meshlet_triangles: &[u8],
    positions: &[GridPoint],
) -> (result: Result<Bounds, InvalidArgument>)
    ensures
        match meshlet_defect(*meshlet, meshlet_vertices@, meshlet_triangles@, positions@.len()) {
            Some(e) => result == Err::<Bounds, InvalidArgument>(e),
            None => result matches Ok(b) && is_bounds_of(
                resolved(*meshlet, meshlet_vertices@, meshlet_triangles@),
                positions@,
                b,
            ),
        },
        result matches Ok(b) ==> {
            &&& encloses(b, corners(resolved(*meshlet, meshlet_vertices@, meshlet_triangles@), positions@))
            &&& covers(b, normals_of(resolved(*meshlet, meshlet_vertices@, meshlet_triangles@), positions@))
            &&& apex_behind(b, resolved(*meshlet, meshlet_vertices@, meshlet_triangles@), positions@)
        },
{
    match meshlet_indices(meshlet, meshlet_vertices, meshlet_triangles) {
        Err(e) => Err(e),
        Ok(indices) => compute_cluster_bounds(indices.as_slice(), positions),
    }
}

/// A vertex that holds a position. Contracts speak of `position`; the
/// code calls `decode_position`, which has to give the same point.
pub trait DecodePosition {
    /// The position that the vertex holds.
    spec fn position(&self) -> GridPoint;

    /// Reads the position that the vertex holds.
    fn decode_position(&self) -> (p: GridPoint)
        ensures
            p == self.position(),
    ;
}

impl DecodePosition for GridPoint {
    /// A grid point holds itself.
    open spec fn position(&self) -> GridPoint {
        *self
    }

    /// Hands the point back.
    fn decode_position(&self) -> (p: GridPoint) {
        *self
    }
}

/// The positions that the vertices hold.
pub open spec fn decoded<T: DecodePosition>(vertices: Seq<T>) -> Seq<GridPoint> {
    Seq::new(vertices.len(), |i: int| vertices[i].position())
}

/// Computes the bounds of a small cluster of triangles over vertices that
/// hold their positions: the bounds that `compute_cluster_bounds` gives
/// over those positions.
pub fn compute_cluster_bounds_decoder<T: DecodePosition>(indices: &[u32], vertices: &[T]) -> (result: Result<
    Bounds,
    InvalidArgument,
>)
    ensures
        match cluster_defect(indices@, vertices@.len()) {
            Some(e) => result == Err::<Bounds, InvalidArgument>(e),
            None => result matches Ok(b) && is_bounds_of(indices@, decoded(vertices@), b),
        },
        result matches Ok(b) ==> {
            &&& encloses(b, corners(indices@, decoded(vertices@)))
            &&& covers(b, normals_of(indices@, decoded(vertices@)))
            &&& apex_behind(b, indices@, decoded(vertices@))
        },
{
    let mut positions: Vec<GridPoint> = Vec::new();
    let mut i: usize = 0;
    while i < vertices.len()
        invariant
            i <= vertices.len(),
            positions@.len() == i,
            forall|j: int| 0 <= j < i ==> #[trigger] positions@[j] == vertices@[j].position(),
        decreases vertices.len() - i,
    {
        positions.push(vertices[i].decode_position());
        i += 1;
    }
    assert(positions@ =~= decoded(vertices@));
    compute_cluster_bounds(indices, positions.as_slice())
}

/// A cluster has one bounds: two queries on the same triangles over the
/// same positions agree in every field.
pub proof fn lemma_bounds_unique(indices: Seq<u32>, positions: Seq<GridPoint>, a: Bounds, b: Bounds)
    requires
        is_bounds_of(indices, positions, a),
        is_bounds_of(indices, positions, b),
    ensures
        a == b,
{
    assert(a.cone_apex@ == b.cone_apex@);
    assert(a.cone_apex.x == b.cone_apex.x);
}

impl Mesh {
    /// The bounds of a meshlet of a build are the bounds of the triangles
    /// of its cluster as the index stream lists them: the two queries
    /// differ in how the triangles are addressed, and in nothing else.
    pub proof fn lemma_meshlet_bounds_agree(self, i: int, positions: Seq<GridPoint>, b: Bounds)
        requires
            self.valid(),
            0 <= i < self.clusters().len(),
        ensures
            is_bounds_of(
                resolved(
                    self.descriptors(self.clusters())[i],
                    self.vertex_table(self.clusters()),
                    self.micro_table(self.clusters()),
                ),
                positions,
                b,
            ) == is_bounds_of(self.cluster_indices(self.clusters()[i]), positions, b),
    {
        self.lemma_meshlet_resolves(i);
    }
}

}
