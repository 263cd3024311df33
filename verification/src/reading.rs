//! Reading a build back: the triangles that the buffers hold are, as a
//! multiset, the triangles of the mesh.

use vstd::prelude::*;
use vstd::seq_lib::{to_multiset_build, to_multiset_remove};
use crate::addressing::resolved;
use crate::mesh::{Mesh, Meshlet};

verus! {

/// The triangles of an index stream, each as its three corners.
pub open spec fn triangles_of(indices: Seq<u32>) -> Seq<(u32, u32, u32)> {
    Seq::new(
        (indices.len() / 3) as nat,
        |t: int| (indices[3 * t], indices[3 * t + 1], indices[3 * t + 2]),
    )
}

/// The triangles that the buffers hold: meshlet after meshlet, each
/// triangle read through its local indices and the remap table.
pub open spec fn read_back(meshlets: Seq<Meshlet>, vertices: Seq<u32>, micro: Seq<u8>) -> Seq<
    (u32, u32, u32),
>
    decreases meshlets.len(),
{
    if meshlets.len() == 0 {
        Seq::empty()
    } else {
        read_back(meshlets.drop_last(), vertices, micro) + triangles_of(
            resolved(meshlets.last(), vertices, micro),
        )
    }
}

/// A sequence read in a permuted order holds the same elements, each as
/// often.
pub proof fn lemma_permuted<A>(a: Seq<A>, s: Seq<A>, order: Seq<int>)
    requires
        a.len() == s.len(),
        order.len() == s.len(),
        order.no_duplicates(),
        forall|p: int| 0 <= p < order.len() ==> 0 <= #[trigger] order[p] < s.len(),
        forall|p: int| 0 <= p < a.len() ==> #[trigger] a[p] == s[order[p]],
    ensures
        a.to_multiset() == s.to_multiset(),
    decreases s.len(),
{
    let n = s.len() as int;
    if n == 0 {
        assert(a =~= s);
    } else {
        let q = order[n - 1];
        let a1 = a.drop_last();
        let s1 = s.remove(q);
        let order1 = Seq::new(
            (n - 1) as nat,
            |p: int|
                if order[p] > q {
                    order[p] - 1
                } else {
                    order[p]
                },
        );
        assert forall|p: int| 0 <= p < order1.len() implies 0 <= #[trigger] order1[p] < s1.len() by {
            assert(order[p] != order[n - 1]);
        }
        assert forall|p: int, r: int|
            0 <= p < order1.len() && 0 <= r < order1.len() && p != r implies order1[p]
            != order1[r] by {
            assert(order[p] != order[r]);
            assert(order[p] != order[n - 1]);
            assert(order[r] != order[n - 1]);
        }
        assert forall|p: int| 0 <= p < a1.len() implies #[trigger] a1[p] == s1[order1[p]] by {
            assert(order[p] != order[n - 1]);
            assert(a1[p] == a[p]);
        }
        lemma_permuted(a1, s1, order1);
        to_multiset_remove(s, q);
        to_multiset_build(a1, a[n - 1]);
        assert(a1.push(a[n - 1]) =~= a);
        s.to_multiset_ensures();
        assert(s.contains(s[q]));
        assert(s.to_multiset().remove(s[q]).insert(s[q]) =~= s.to_multiset());
    }
}

impl Mesh {
    /// Triangle `t` of the mesh as its three corners.
    pub open spec fn triangle(self, t: int) -> (u32, u32, u32) {
        (self.corner(t, 0), self.corner(t, 1), self.corner(t, 2))
    }

    /// The triangles of the mesh in the order of their placement.
    pub open spec fn placed_triangles(self, n: int) -> Seq<(u32, u32, u32)> {
        Seq::new(n as nat, |p: int| self.triangle(self.placement()[p]))
    }

    /// The first `n` meshlets of a build hold the triangles of the first
    /// `n` clusters, in the order of placement.
    pub proof fn lemma_read_back_prefix(self, n: int)
        requires
            self.valid(),
            0 <= n <= self.clusters().len(),
        ensures
            read_back(
                self.descriptors(self.clusters()).take(n),
                self.vertex_table(self.clusters()),
                self.micro_table(self.clusters()),
            ) == self.placed_triangles(self.triangles_in(self.clusters().take(n))),
            0 <= self.triangles_in(self.clusters().take(n)) <= self.triangle_count(),
        decreases n,
    {
        let cs = self.clusters();
        let ds = self.descriptors(cs);
        let vt = self.vertex_table(cs);
        let mt = self.micro_table(cs);
        let g = self.grow(self.triangle_count() as nat);
        self.lemma_grow_sound(self.triangle_count() as nat);
        self.lemma_close_sound(g);
        self.lemma_table_lengths(cs);
        self.lemma_table_lengths(cs.take(n));
        if n == 0 {
            assert(ds.take(0) =~= Seq::<Meshlet>::empty());
            assert(cs.take(0) =~= Seq::<Seq<int>>::empty());
            assert(read_back(ds.take(n), vt, mt) =~= self.placed_triangles(0));
        } else {
            let i = n - 1;
            self.lemma_read_back_prefix(i);
            self.lemma_meshlet_resolves(i);
            self.lemma_descriptor(cs, i);
            assert(ds.take(n).drop_last() =~= ds.take(i));
            assert(ds.take(n).last() == ds[i]);
            let c = cs[i];
            let start = self.triangles_in(cs.take(i));
            let left = read_back(ds.take(n), vt, mt);
            let right = self.placed_triangles(start + c.len());
            let tail = triangles_of(self.cluster_indices(c));
            assert(tail.len() == c.len());
            assert(left == self.placed_triangles(start) + tail);
            assert forall|p: int| 0 <= p < right.len() implies left[p] == right[p] by {
                if p >= start {
                    let j = p - start;
                    assert(c[j] == g.placed[start + j]);
                    assert(tail[j] == self.triangle(c[j])) by {
                        assert((3 * j) / 3 == j && (3 * j) % 3 == 0);
                        assert((3 * j + 1) / 3 == j && (3 * j + 1) % 3 == 1);
                        assert((3 * j + 2) / 3 == j && (3 * j + 2) % 3 == 2);
                    }
                }
            }
            assert(left =~= right);
        }
    }

    /// Reading the outputs of a build back gives the triangles of the mesh,
    /// each as often as the index stream lists it: no triangle is lost,
    /// none is added, none is changed.
    pub proof fn lemma_same_triangles(self)
        requires
            self.valid(),
        ensures
            read_back(
                self.descriptors(self.clusters()),
                self.vertex_table(self.clusters()),
                self.micro_table(self.clusters()),
            ).to_multiset() == triangles_of(self.indices).to_multiset(),
    {
        let cs = self.clusters();
        let ds = self.descriptors(cs);
        let g = self.grow(self.triangle_count() as nat);
        let n = self.triangle_count();
        self.lemma_grow_sound(n as nat);
        self.lemma_close_sound(g);
        self.lemma_all_placed(g);
        self.lemma_read_back_prefix(cs.len() as int);
        assert(cs.take(cs.len() as int) =~= cs);
        assert(ds.take(cs.len() as int) =~= ds);
        let a = self.placed_triangles(n);
        let s = triangles_of(self.indices);
        assert forall|p: int| 0 <= p < a.len() implies #[trigger] a[p] == s[g.placed[p]] by {
            assert(0 <= g.placed[p] < n);
        }
        lemma_permuted(a, s, g.placed);
    }
}

}
