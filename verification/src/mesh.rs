//! The data that the builder reads and writes, and the conditions that an
//! input has to meet.

use vstd::prelude::*;
use crate::limits::{caps_ok, triangle_cap_ok, vertex_cap_ok};

verus! {

/// The unit normal of a triangle, each component in units of 1/127. A
/// triangle without area has the zero normal.
#[derive(Clone, Copy, Debug, PartialEq, Eq, Structural)]
pub struct Normal {
    pub x: i8,
    pub y: i8,
    pub z: i8,
}

/// Descriptor of one cluster: a range of the shared vertex remap table and
/// a range of the shared buffer of local indices, in which every triangle
/// takes three consecutive bytes, each an index into the meshlet's vertex
/// range.
#[derive(Clone, Copy, Debug, PartialEq, Eq, Structural)]
pub struct Meshlet {
    pub vertex_offset: u32,
    pub vertex_count: u32,
    pub triangle_offset: u32,
    pub triangle_count: u32,
}

/// Why an input was turned away at the boundary.
#[derive(Clone, Copy, Debug, PartialEq, Eq, Structural)]
pub enum InvalidArgument {
    /// `max_vertices` is below 3 or above 64.
    VertexLimit,
    /// `max_triangles` is below 1 or above 126.
    TriangleLimit,
    /// The index stream's length is not a multiple of three.
    IndexCount,
    /// The index stream is too long for 32-bit offsets.
    IndexOverflow,
    /// An index does not name a vertex.
    IndexRange,
    /// The number of normals differs from the number of triangles.
    NormalCount,
    /// A bounds query holds more triangles than a small cluster may.
    ClusterSize,
    /// A meshlet's ranges do not lie within the buffers, or one of its
    /// local indices does not lie within its vertex range.
    MeshletRange,
}

/// Whether every entry of `indices` is below `vertex_count`.
pub open spec fn all_below(indices: Seq<u32>, vertex_count: nat) -> bool {
    forall|i: int| 0 <= i < indices.len() ==> (#[trigger] indices[i] as nat) < vertex_count
}

/// The first condition that caps and index stream break, if any: the caps
/// within their limits, the stream made of whole triangles, short enough
/// for 32-bit offsets, and naming vertices only.
pub open spec fn index_defect(
    indices: Seq<u32>,
    vertex_count: nat,
    max_vertices: nat,
    max_triangles: nat,
) -> Option<InvalidArgument> {
    if !vertex_cap_ok(max_vertices) {
        Some(InvalidArgument::VertexLimit)
    } else if !triangle_cap_ok(max_triangles) {
        Some(InvalidArgument::TriangleLimit)
    } else if indices.len() % 3 != 0 {
        Some(InvalidArgument::IndexCount)
    } else if indices.len() > u32::MAX {
        Some(InvalidArgument::IndexOverflow)
    } else if !all_below(indices, vertex_count) {
        Some(InvalidArgument::IndexRange)
    } else {
        None
    }
}

/// The builder's input as a mathematical value.
pub struct Mesh {
    pub indices: Seq<u32>,
    pub normals: Seq<Normal>,
    pub vertex_count: nat,
    pub max_vertices: nat,
    pub max_triangles: nat,
    pub cone_weight: nat,
}

impl Mesh {
    /// Number of triangles in the index stream.
    pub open spec fn triangle_count(self) -> int {
        self.indices.len() as int / 3
    }

    /// Corner `k` (0, 1 or 2) of triangle `t`.
    pub open spec fn corner(self, t: int, k: int) -> u32 {
        self.indices[3 * t + k]
    }

    /// Whether `t` names a triangle of the mesh.
    pub open spec fn has_triangle(self, t: int) -> bool {
        0 <= t < self.triangle_count()
    }

    /// Whether every index names a vertex.
    pub open spec fn indices_in_range(self) -> bool {
        all_below(self.indices, self.vertex_count)
    }

    /// The first structural condition that the input breaks, if any.
    pub open spec fn defect(self) -> Option<InvalidArgument> {
        match index_defect(self.indices, self.vertex_count, self.max_vertices, self.max_triangles) {
            Some(e) => Some(e),
            None => if self.normals.len() != self.triangle_count() {
                Some(InvalidArgument::NormalCount)
            } else {
                None
            },
        }
    }

    /// Whether the caps are admissible.
    pub open spec fn caps_hold(self) -> bool {
        caps_ok(self.max_vertices, self.max_triangles)
    }

    /// Whether the builder accepts the input.
    pub open spec fn valid(self) -> bool {
        &&& caps_ok(self.max_vertices, self.max_triangles)
        &&& self.indices.len() % 3 == 0
        &&& self.indices.len() <= u32::MAX
        &&& self.normals.len() == self.triangle_count()
        &&& self.indices_in_range()
        &&& self.cone_weight <= 255
    }
}

}
