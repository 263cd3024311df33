//! Facts about the layout of clusters in the output buffers.

use vstd::prelude::*;
use crate::mesh::{Mesh, Meshlet};

verus! {

impl Mesh {
    /// The local-index buffer holds three bytes per triangle, and the vertex
    /// table at most three entries per triangle.
    pub proof fn lemma_table_lengths(self, cs: Seq<Seq<int>>)
        ensures
            self.micro_table(cs).len() == 3 * self.triangles_in(cs),
            self.vertex_table(cs).len() <= 3 * self.triangles_in(cs),
            0 <= self.triangles_in(cs),
        decreases cs.len(),
    {
        if cs.len() > 0 {
            self.lemma_table_lengths(cs.drop_last());
            self.lemma_cluster_vertices(cs.last());
        }
    }

    /// What one more cluster adds to the three outputs.
    pub proof fn lemma_tables_push(self, cs: Seq<Seq<int>>, c: Seq<int>)
        ensures
            self.vertex_table(cs.push(c)) == self.vertex_table(cs) + self.cluster_vertices(c),
            self.micro_table(cs.push(c)) == self.micro_table(cs) + self.cluster_micro(c),
            self.triangles_in(cs.push(c)) == self.triangles_in(cs) + c.len(),
            self.descriptors(cs.push(c)) == self.descriptors(cs).push(
                Meshlet {
                    vertex_offset: self.vertex_table(cs).len() as u32,
                    vertex_count: self.cluster_vertices(c).len() as u32,
                    triangle_offset: (3 * self.triangles_in(cs)) as u32,
                    triangle_count: c.len() as u32,
                },
            ),
    {
        let ds = cs.push(c);
        assert(ds.drop_last() == cs);
        assert(ds.last() == c);
        assert(ds.take(cs.len() as int) == cs);
        let left = self.descriptors(ds);
        let right = self.descriptors(cs).push(self.descriptor(ds, cs.len() as int));
        assert forall|i: int| 0 <= i < left.len() implies left[i] == right[i] by {
            if i < cs.len() {
                assert(ds.take(i) == cs.take(i));
                assert(ds[i] == cs[i]);
            }
        }
        assert(left =~= right);
    }
}

}
