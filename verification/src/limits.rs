//! Limits on meshlet size and the worst-case sizes of the builder's outputs.

use vstd::prelude::*;

verus! {

/// Largest number of vertices that a meshlet may be allowed to hold, so
/// that a local index fits a byte with room to spare.
pub const MAX_MESHLET_VERTICES: usize = 64;

/// Largest number of triangles that a meshlet may be allowed to hold.
pub const MAX_MESHLET_TRIANGLES: usize = 126;

/// Largest number of triangles that a bounds query accepts.
pub const MAX_CLUSTER_TRIANGLES: usize = 256;

/// Whether `max_vertices` is an admissible cap: a meshlet must be able to
/// hold one triangle with three distinct corners.
pub open spec fn vertex_cap_ok(max_vertices: nat) -> bool {
    3 <= max_vertices <= MAX_MESHLET_VERTICES
}

/// Whether `max_triangles` is an admissible cap.
pub open spec fn triangle_cap_ok(max_triangles: nat) -> bool {
    1 <= max_triangles <= MAX_MESHLET_TRIANGLES
}

/// Whether `(max_vertices, max_triangles)` is an admissible pair of caps.
pub open spec fn caps_ok(max_vertices: nat, max_triangles: nat) -> bool {
    vertex_cap_ok(max_vertices) && triangle_cap_ok(max_triangles)
}

/// Worst-case number of meshlets for `triangle_count` triangles.
///
/// Every meshlet holds at least one triangle, and a mesh whose triangles
/// share no vertex yields one meshlet per triangle whatever the caps are, so
/// the worst case is the triangle count itself.
pub open spec fn meshlet_bound(triangle_count: nat, max_vertices: nat, max_triangles: nat) -> nat {
    triangle_count
}

/// Worst-case length of the vertex remap table: three entries per triangle.
pub open spec fn vertex_table_bound(triangle_count: nat, max_vertices: nat, max_triangles: nat) -> nat {
    3 * triangle_count
}

/// Length of the micro-index buffer: exactly three bytes per triangle.
pub open spec fn micro_index_bound(triangle_count: nat, max_vertices: nat, max_triangles: nat) -> nat {
    3 * triangle_count
}

/// Worst-case number of meshlets that a build over `triangle_count`
/// triangles can produce.
pub fn build_meshlets_bound(triangle_count: usize, max_vertices: usize, max_triangles: usize) -> (bound: usize)
    ensures
        bound == meshlet_bound(triangle_count as nat, max_vertices as nat, max_triangles as nat),
{
    triangle_count
}

/// Worst-case length of the vertex remap table that a build over
/// `triangle_count` triangles can produce, or `None` where that length
/// exceeds the machine's range.
pub fn build_meshlets_vertices_bound(triangle_count: usize, max_vertices: usize, max_triangles: usize) -> (bound:
    Option<usize>)
    ensures
        match bound {
            Some(b) => b == vertex_table_bound(
                triangle_count as nat,
                max_vertices as nat,
                max_triangles as nat,
            ),
            None => vertex_table_bound(
                triangle_count as nat,
                max_vertices as nat,
                max_triangles as nat,
            ) > usize::MAX,
        },
{
    if triangle_count <= usize::MAX / 3 {
        Some(3 * triangle_count)
    } else {
        None
    }
}

/// Length of the micro-index buffer that a build over `triangle_count`
/// triangles produces, or `None` where that length exceeds the machine's
/// range.
pub fn build_meshlets_indices_bound(triangle_count: usize, max_vertices: usize, max_triangles: usize) -> (bound:
    Option<usize>)
    ensures
        match bound {
            Some(b) => b == micro_index_bound(
                triangle_count as nat,
                max_vertices as nat,
                max_triangles as nat,
            ),
            None => micro_index_bound(
                triangle_count as nat,
                max_vertices as nat,
                max_triangles as nat,
            ) > usize::MAX,
        },
{
    if triangle_count <= usize::MAX / 3 {
        Some(3 * triangle_count)
    } else {
        None
    }
}

}
