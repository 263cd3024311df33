//! How a meshlet's triangles are addressed: through its local indices and
//! the vertex remap table back to the vertices of the mesh. A bounds query
//! on a meshlet reads the same positions as one on the triangles it holds.

use vstd::prelude::*;
use crate::limits::MAX_CLUSTER_TRIANGLES;
use crate::mesh::{all_below, InvalidArgument, Mesh, Meshlet};
use crate::validate::indices_in_range;

verus! {

/// The first condition that a cluster of triangles, given as an index
/// stream, has to meet for a bounds query and does not.
pub open spec fn cluster_defect(indices: Seq<u32>, vertex_count: nat) -> Option<InvalidArgument> {
    if indices.len() % 3 != 0 {
        Some(InvalidArgument::IndexCount)
    } else if indices.len() / 3 > MAX_CLUSTER_TRIANGLES {
        Some(InvalidArgument::ClusterSize)
    } else if !all_below(indices, vertex_count) {
        Some(InvalidArgument::IndexRange)
    } else {
        None
    }
}

/// Checks the index stream of a bounds query: whole triangles, no more of
/// them than a small cluster holds, every index naming a vertex.
pub fn validate_cluster(indices: &[u32], vertex_count: usize) -> (result: Result<(), InvalidArgument>)
    ensures
        match cluster_defect(indices@, vertex_count as nat) {
            Some(e) => result == Err::<(), InvalidArgument>(e),
            None => result.is_ok(),
        },
{
    if indices.len() % 3 != 0 {
        return Err(InvalidArgument::IndexCount);
    }
    if indices.len() / 3 > MAX_CLUSTER_TRIANGLES {
        return Err(InvalidArgument::ClusterSize);
    }
    if !indices_in_range(indices, vertex_count) {
        return Err(InvalidArgument::IndexRange);
    }
    Ok(())
}

/// Whether the meshlet's two ranges lie within the buffers and each of its
/// local indices lies within its vertex range.
pub open spec fn meshlet_in_range(meshlet: Meshlet, vertices: Seq<u32>, micro: Seq<u8>) -> bool {
    &&& meshlet.vertex_offset + meshlet.vertex_count <= vertices.len()
    &&& meshlet.triangle_offset + 3 * meshlet.triangle_count <= micro.len()
    &&& forall|x: int|
        0 <= x < 3 * meshlet.triangle_count ==> (#[trigger] micro[meshlet.triangle_offset + x])
            < meshlet.vertex_count
}

/// The meshlet's triangles as indices into the mesh's vertices: three per
/// triangle, each found through the local index and the remap table.
pub open spec fn resolved(meshlet: Meshlet, vertices: Seq<u32>, micro: Seq<u8>) -> Seq<u32> {
    Seq::new(
        (3 * meshlet.triangle_count) as nat,
        |x: int| vertices[meshlet.vertex_offset + micro[meshlet.triangle_offset + x]],
    )
}

/// Resolves a meshlet's triangles to indices into the mesh's vertices, or
/// refuses a meshlet that does not fit the buffers.
pub fn meshlet_indices(meshlet: &Meshlet, meshlet_vertices: &[u32], meshlet_triangles: &[u8]) -> (result:
    Result<Vec<u32>, InvalidArgument>)
    ensures
        match result {
            Ok(indices) => meshlet_in_range(*meshlet, meshlet_vertices@, meshlet_triangles@)
                && indices@ == resolved(*meshlet, meshlet_vertices@, meshlet_triangles@),
            Err(e) => e == InvalidArgument::MeshletRange && !meshlet_in_range(
                *meshlet,
                meshlet_vertices@,
                meshlet_triangles@,
            ),
        },
{
    let vertex_offset: usize = meshlet.vertex_offset as usize;
    let vertex_count: usize = meshlet.vertex_count as usize;
    let triangle_offset: usize = meshlet.triangle_offset as usize;
    let triangle_count: usize = meshlet.triangle_count as usize;
    if vertex_offset > meshlet_vertices.len() || vertex_count > meshlet_vertices.len() - vertex_offset {
        return Err(InvalidArgument::MeshletRange);
    }
    if triangle_offset > meshlet_triangles.len() || triangle_count > (meshlet_triangles.len()
        - triangle_offset) / 3 {
        return Err(InvalidArgument::MeshletRange);
    }
    let count: usize = 3 * triangle_count;
    let vertex_len: usize = meshlet_vertices.len();
    let micro_len: usize = meshlet_triangles.len();
    let mut indices: Vec<u32> = Vec::new();
    let mut x: usize = 0;
    while x < count
        invariant
            x <= count,
            count == 3 * meshlet.triangle_count,
            vertex_offset == meshlet.vertex_offset,
            vertex_count == meshlet.vertex_count,
            triangle_offset == meshlet.triangle_offset,
            vertex_len == meshlet_vertices@.len(),
            micro_len == meshlet_triangles@.len(),
            vertex_offset + vertex_count <= vertex_len,
            triangle_offset + count <= micro_len,
            indices@.len() == x,
            forall|y: int|
                0 <= y < x ==> (#[trigger] meshlet_triangles@[triangle_offset + y]) < vertex_count,
            forall|y: int|
                0 <= y < x ==> #[trigger] indices@[y] == meshlet_vertices@[vertex_offset
                    + meshlet_triangles@[triangle_offset + y]],
        decreases count - x,
    {
        let local: usize = meshlet_triangles[triangle_offset + x] as usize;
        if local >= vertex_count {
            return Err(InvalidArgument::MeshletRange);
        }
        indices.push(meshlet_vertices[vertex_offset + local]);
        x += 1;
    }
    assert(indices@ =~= resolved(*meshlet, meshlet_vertices@, meshlet_triangles@));
    Ok(indices)
}

impl Mesh {
    /// The corners of the triangles of cluster `c`, three per triangle, as
    /// the index stream lists them.
    pub open spec fn cluster_indices(self, c: Seq<int>) -> Seq<u32> {
        Seq::new(3 * c.len(), |x: int| self.corner(c[x / 3], x % 3))
    }

    /// Every meshlet of a build fits the buffers of that build, and
    /// resolving it gives the corners of its cluster's triangles: a query on
    /// the meshlet and one on those triangles read the same vertices in the
    /// same order.
    pub proof fn lemma_meshlet_resolves(self, i: int)
        requires
            self.valid(),
            0 <= i < self.clusters().len(),
        ensures
            meshlet_in_range(
                self.descriptors(self.clusters())[i],
                self.vertex_table(self.clusters()),
                self.micro_table(self.clusters()),
            ),
            resolved(
                self.descriptors(self.clusters())[i],
                self.vertex_table(self.clusters()),
                self.micro_table(self.clusters()),
            ) == self.cluster_indices(self.clusters()[i]),
    {
        let cs = self.clusters();
        let g = self.grow(self.triangle_count() as nat);
        let d = self.descriptors(cs)[i];
        let vt = self.vertex_table(cs);
        let mt = self.micro_table(cs);
        self.lemma_grow_sound(self.triangle_count() as nat);
        self.lemma_close_sound(g);
        self.lemma_table_lengths(cs);
        self.lemma_descriptor(cs, i);
        assert(self.capped(cs[i]));
        self.lemma_cluster_vertices(cs[i]);
        if self.cluster_vertices(cs[i]).len() > 0 {
            self.lemma_vertex_slice(cs, i, 0);
        } else {
            self.lemma_corner_held(cs[i], 0, 0);
        }
        self.lemma_micro_slice(cs, i, 0);
        let left = resolved(d, vt, mt);
        let right = self.cluster_indices(cs[i]);
        assert forall|x: int| 0 <= x < 3 * d.triangle_count implies (#[trigger] mt[d.triangle_offset
            + x]) < d.vertex_count && left[x] == right[x] by {
            let j = x / 3;
            let k = x % 3;
            self.lemma_read_back(cs, i, j, k);
        }
        assert(left =~= right);
    }
}

}
