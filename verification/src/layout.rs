//! What the three outputs of a build say to a reader who knows nothing of
//! how they were made: the meshlets' ranges tile the two buffers, every
//! meshlet is within the caps, and reading the buffers back gives the
//! triangles of the mesh, each once.

use vstd::prelude::*;
use crate::mesh::{Mesh, Meshlet};
use crate::model::position;
use crate::vertices::lemma_position_prefix;

verus! {

/// Whether the meshlets' ranges follow one another without gap or overlap,
/// from the start of each buffer to its end.
pub open spec fn tiles(meshlets: Seq<Meshlet>, vertices: nat, bytes: nat) -> bool {
    &&& meshlets.len() == 0 ==> vertices == 0 && bytes == 0
    &&& meshlets.len() > 0 ==> {
        &&& meshlets[0].vertex_offset == 0
        &&& meshlets[0].triangle_offset == 0
        &&& meshlets.last().vertex_offset + meshlets.last().vertex_count == vertices
        &&& meshlets.last().triangle_offset + 3 * meshlets.last().triangle_count == bytes
    }
    &&& forall|i: int|
        0 <= i < meshlets.len() - 1 ==> {
            &&& (#[trigger] meshlets[i + 1]).vertex_offset == meshlets[i].vertex_offset
                + meshlets[i].vertex_count
            &&& meshlets[i + 1].triangle_offset == meshlets[i].triangle_offset + 3
                * meshlets[i].triangle_count
        }
}

/// Whether every meshlet holds at least one triangle and no more vertices
/// or triangles than the caps allow.
pub open spec fn within_caps(meshlets: Seq<Meshlet>, max_vertices: nat, max_triangles: nat) -> bool {
    forall|i: int|
        0 <= i < meshlets.len() ==> {
            &&& 1 <= (#[trigger] meshlets[i]).triangle_count <= max_triangles
            &&& 1 <= meshlets[i].vertex_count <= max_vertices
        }
}

/// Whether `order` lists each of the numbers `0 .. n` exactly once.
pub open spec fn is_permutation(order: Seq<int>, n: int) -> bool {
    &&& order.len() == n
    &&& order.no_duplicates()
    &&& forall|p: int| 0 <= p < order.len() ==> 0 <= #[trigger] order[p] < n
    &&& forall|t: int| 0 <= t < n ==> order.contains(t)
}

/// Where corner `k` of triangle `j` of meshlet `i` stands in the buffer of
/// local indices.
pub open spec fn micro_at(meshlets: Seq<Meshlet>, i: int, j: int, k: int) -> int {
    meshlets[i].triangle_offset + 3 * j + k
}

/// Whether reading the buffers back gives the mesh: triangle `j` of a
/// meshlet whose triangle range starts at byte `3 * s` is triangle
/// `order[s + j]` of the index stream, corner for corner, and each of its
/// local indices lies within the meshlet's vertex range.
pub open spec fn reproduces(
    indices: Seq<u32>,
    order: Seq<int>,
    meshlets: Seq<Meshlet>,
    vertices: Seq<u32>,
    micro: Seq<u8>,
) -> bool {
    forall|i: int, j: int, k: int|
        0 <= i < meshlets.len() && 0 <= j < meshlets[i].triangle_count && 0 <= k < 3 ==> {
            let at = #[trigger] micro_at(meshlets, i, j, k);
            &&& 0 <= at < micro.len()
            &&& micro[at] < meshlets[i].vertex_count
            &&& meshlets[i].vertex_offset + micro[at] < vertices.len()
            &&& 0 <= meshlets[i].triangle_offset / 3 + j < order.len()
            &&& vertices[meshlets[i].vertex_offset + micro[at]] == indices[3 * order[meshlets[i].triangle_offset
                / 3 + j] + k]
        }
}

impl Mesh {
    /// Cluster `i` of `cs` stands in the vertex table where the clusters
    /// before it end.
    pub proof fn lemma_vertex_slice(self, cs: Seq<Seq<int>>, i: int, x: int)
        requires
            0 <= i < cs.len(),
            0 <= x < self.cluster_vertices(cs[i]).len(),
        ensures
            self.vertex_table(cs.take(i)).len() + self.cluster_vertices(cs[i]).len()
                <= self.vertex_table(cs).len(),
            self.vertex_table(cs)[self.vertex_table(cs.take(i)).len() + x] == self.cluster_vertices(
                cs[i],
            )[x],
        decreases cs.len(),
    {
        let d = cs.drop_last();
        if i == cs.len() - 1 {
            assert(cs.take(i) == d);
        } else {
            self.lemma_vertex_slice(d, i, x);
            assert(d.take(i) == cs.take(i));
        }
    }

    /// Cluster `i` of `cs` stands in the buffer of local indices where the
    /// clusters before it end.
    pub proof fn lemma_micro_slice(self, cs: Seq<Seq<int>>, i: int, x: int)
        requires
            0 <= i < cs.len(),
            0 <= x < 3 * cs[i].len(),
        ensures
            0 <= 3 * self.triangles_in(cs.take(i)),
            3 * self.triangles_in(cs.take(i)) + 3 * cs[i].len() <= self.micro_table(cs).len(),
            self.micro_table(cs)[3 * self.triangles_in(cs.take(i)) + x] == self.cluster_micro(
                cs[i],
            )[x],
        decreases cs.len(),
    {
        let d = cs.drop_last();
        self.lemma_table_lengths(d);
        self.lemma_table_lengths(cs.take(i));
        if i == cs.len() - 1 {
            assert(cs.take(i) == d);
        } else {
            self.lemma_micro_slice(d, i, x);
            assert(d.take(i) == cs.take(i));
        }
    }

    /// There are no more clusters than triangles in them, where none is
    /// empty.
    pub proof fn lemma_cluster_count(self, cs: Seq<Seq<int>>)
        requires
            forall|i: int| 0 <= i < cs.len() ==> (#[trigger] cs[i]).len() >= 1,
        ensures
            cs.len() <= self.triangles_in(cs),
        decreases cs.len(),
    {
        if cs.len() > 0 {
            let d = cs.drop_last();
            assert forall|i: int| 0 <= i < d.len() implies (#[trigger] d[i]).len() >= 1 by {
                assert(d[i] == cs[i]);
            }
            self.lemma_cluster_count(d);
        }
    }

    /// The descriptor of a cluster, where the offsets fit 32 bits.
    pub proof fn lemma_descriptor(self, cs: Seq<Seq<int>>, i: int)
        requires
            0 <= i < cs.len(),
            3 * self.triangles_in(cs) <= u32::MAX,
        ensures
            self.descriptor(cs, i).vertex_offset == self.vertex_table(cs.take(i)).len(),
            self.descriptor(cs, i).vertex_count == self.cluster_vertices(cs[i]).len(),
            self.descriptor(cs, i).triangle_offset == 3 * self.triangles_in(cs.take(i)),
            self.descriptor(cs, i).triangle_count == cs[i].len(),
            self.triangles_in(cs.take(i + 1)) == self.triangles_in(cs.take(i)) + cs[i].len(),
            self.vertex_table(cs.take(i + 1)).len() == self.vertex_table(cs.take(i)).len()
                + self.cluster_vertices(cs[i]).len(),
            self.triangles_in(cs.take(i + 1)) <= self.triangles_in(cs),
            0 <= self.triangles_in(cs.take(i)),
    {
        self.lemma_triangles_in_take(cs, i);
        self.lemma_table_lengths(cs.take(i));
        self.lemma_table_lengths(cs.take(i + 1));
        self.lemma_cluster_vertices(cs[i]);
        assert(cs.take(i + 1) == cs.take(i).push(cs[i]));
        self.lemma_tables_push(cs.take(i), cs[i]);
    }

    /// The descriptors of clusters that keep the caps keep them too.
    pub proof fn lemma_layout_caps(self, cs: Seq<Seq<int>>)
        requires
            forall|i: int| 0 <= i < cs.len() ==> self.capped(#[trigger] cs[i]),
            3 * self.triangles_in(cs) <= u32::MAX,
        ensures
            within_caps(self.descriptors(cs), self.max_vertices, self.max_triangles),
            self.descriptors(cs).len() <= self.triangles_in(cs),
    {
        let ds = self.descriptors(cs);
        assert forall|i: int| 0 <= i < cs.len() implies (#[trigger] cs[i]).len() >= 1 by {
            assert(self.capped(cs[i]));
        }
        self.lemma_cluster_count(cs);
        assert forall|i: int| 0 <= i < ds.len() implies {
            &&& 1 <= (#[trigger] ds[i]).triangle_count <= self.max_triangles
            &&& 1 <= ds[i].vertex_count <= self.max_vertices
        } by {
            self.lemma_descriptor(cs, i);
            assert(self.capped(cs[i]));
            self.lemma_corner_held(cs[i], 0, 0);
        }
    }

    /// The descriptors' ranges tile the two buffers.
    pub proof fn lemma_layout_tiles(self, cs: Seq<Seq<int>>)
        requires
            3 * self.triangles_in(cs) <= u32::MAX,
        ensures
            tiles(
                self.descriptors(cs),
                self.vertex_table(cs).len(),
                self.micro_table(cs).len(),
            ),
    {
        let ds = self.descriptors(cs);
        self.lemma_table_lengths(cs);
        assert forall|i: int| 0 <= i < ds.len() - 1 implies {
            &&& (#[trigger] ds[i + 1]).vertex_offset == ds[i].vertex_offset + ds[i].vertex_count
            &&& ds[i + 1].triangle_offset == ds[i].triangle_offset + 3 * ds[i].triangle_count
        } by {
            self.lemma_descriptor(cs, i);
            self.lemma_descriptor(cs, i + 1);
        }
        if ds.len() > 0 {
            let n = cs.len() - 1;
            self.lemma_descriptor(cs, 0);
            self.lemma_descriptor(cs, n);
            assert(cs.take(0) =~= Seq::<Seq<int>>::empty());
            assert(cs.take(n + 1) == cs);
        }
    }

    /// Corner `k` of triangle `j` of cluster `i`, read back from the
    /// buffers.
    pub proof fn lemma_read_back(self, cs: Seq<Seq<int>>, i: int, j: int, k: int)
        requires
            self.capped(cs[i]),
            self.max_vertices <= 64,
            3 * self.triangles_in(cs) <= u32::MAX,
            0 <= i < cs.len(),
            0 <= j < cs[i].len(),
            0 <= k < 3,
        ensures
            ({
                let ds = self.descriptors(cs);
                let at = ds[i].triangle_offset + 3 * j + k;
                let b = self.micro_table(cs)[at];
                &&& 0 <= at < self.micro_table(cs).len()
                &&& b < ds[i].vertex_count
                &&& ds[i].vertex_offset + b < self.vertex_table(cs).len()
                &&& ds[i].triangle_offset / 3 == self.triangles_in(cs.take(i))
                &&& 0 <= self.triangles_in(cs.take(i)) + j < self.triangles_in(cs)
                &&& self.vertex_table(cs)[ds[i].vertex_offset + b] == self.corner(cs[i][j], k)
            }),
    {
        self.lemma_descriptor(cs, i);
        self.lemma_triangles_in_take(cs, i);
        let c = cs[i];
        let x = 3 * j + k;
        self.lemma_micro_slice(cs, i, x);
        assert(x / 3 == j && x % 3 == k);
        self.lemma_corner_held(c, j, k);
        let at = position(self.cluster_vertices(c), self.corner(c[j], k));
        self.lemma_vertex_slice(cs, i, at);
    }

    /// The outputs that stand for the clusters `cs` give back the triangles
    /// in the order `order` in which the clusters hold them.
    pub proof fn lemma_layout_reproduces(self, cs: Seq<Seq<int>>, order: Seq<int>)
        requires
            self.max_vertices <= 64,
            forall|i: int| 0 <= i < cs.len() ==> self.capped(#[trigger] cs[i]),
            3 * self.triangles_in(cs) <= u32::MAX,
            order.len() == self.triangles_in(cs),
            forall|i: int, j: int|
                0 <= i < cs.len() && 0 <= j < cs[i].len() ==> #[trigger] cs[i][j] == order[self.triangles_in(
                    cs.take(i),
                ) + j],
        ensures
            reproduces(
                self.indices,
                order,
                self.descriptors(cs),
                self.vertex_table(cs),
                self.micro_table(cs),
            ),
    {
        let ds = self.descriptors(cs);
        let vt = self.vertex_table(cs);
        let mt = self.micro_table(cs);
        assert forall|i: int, j: int, k: int|
            0 <= i < ds.len() && 0 <= j < ds[i].triangle_count && 0 <= k < 3 implies {
            let at = #[trigger] micro_at(ds, i, j, k);
            &&& 0 <= at < mt.len()
            &&& mt[at] < ds[i].vertex_count
            &&& ds[i].vertex_offset + mt[at] < vt.len()
            &&& 0 <= ds[i].triangle_offset / 3 + j < order.len()
            &&& vt[ds[i].vertex_offset + mt[at]] == self.indices[3 * order[ds[i].triangle_offset / 3
                + j] + k]
        } by {
            self.lemma_descriptor(cs, i);
            assert(self.capped(cs[i]));
            self.lemma_read_back(cs, i, j, k);
            assert(cs[i][j] == order[self.triangles_in(cs.take(i)) + j]);
        }
    }

    /// A cluster's vertex list holds each corner of each of its triangles,
    /// at the place that `position` names.
    pub proof fn lemma_corner_held(self, c: Seq<int>, j: int, k: int)
        requires
            0 <= j < c.len(),
            0 <= k < 3,
        ensures
            0 <= position(self.cluster_vertices(c), self.corner(c[j], k)) < self.cluster_vertices(
                c,
            ).len(),
            self.cluster_vertices(c)[position(self.cluster_vertices(c), self.corner(c[j], k))]
                == self.corner(c[j], k),
    {
        let vs = self.cluster_vertices(c);
        self.lemma_cluster_vertices(c);
        assert(self.has_corner(c[j], self.corner(c[j], k)));
        lemma_position_prefix(vs, vs, self.corner(c[j], k));
    }
}

}
