//! What holds of the clustering of every valid mesh.

use vstd::prelude::*;
use crate::layout::{is_permutation, reproduces, tiles, within_caps};
use crate::limits::{caps_ok, meshlet_bound, micro_index_bound, vertex_table_bound};
use crate::mesh::{Mesh, Meshlet, Normal};
use crate::model::{push_unique, Growth};
use crate::vertices::lemma_position;

verus! {

impl Mesh {
    /// Below an unplaced triangle stands a lowest one.
    pub proof fn lemma_least_unused(self, g: Growth, t: int) -> (r: int)
        requires
            self.unused(g, t),
        ensures
            self.is_first_unused(g, r),
        decreases t,
    {
        if exists|u: int| self.unused(g, u) && u < t {
            let u = choose|u: int| self.unused(g, u) && u < t;
            self.lemma_least_unused(g, u)
        } else {
            t
        }
    }

    /// Below a neighbor stands a lowest one.
    pub proof fn lemma_least_neighbor(self, g: Growth, t: int) -> (r: int)
        requires
            self.neighbor(g, t),
        ensures
            self.is_first_neighbor(g, r),
        decreases t,
    {
        if exists|u: int| self.neighbor(g, u) && u < t {
            let u = choose|u: int| self.neighbor(g, u) && u < t;
            self.lemma_least_neighbor(g, u)
        } else {
            t
        }
    }

    /// Among the candidates below `n`, if there is any, one precedes all.
    pub proof fn lemma_best_below(self, g: Growth, n: int) -> (r: Option<int>)
        requires
            0 <= n,
        ensures
            match r {
                Some(b) => self.candidate(g, b) && b < n && forall|u: int|
                    #[trigger] self.candidate(g, u) && u < n ==> self.precedes(g, b, u),
                None => forall|u: int| #[trigger] self.candidate(g, u) ==> u >= n,
            },
        decreases n,
    {
        if n == 0 {
            None
        } else {
            let r = self.lemma_best_below(g, n - 1);
            if self.candidate(g, n - 1) {
                match r {
                    Some(b) => if self.precedes(g, b, n - 1) {
                        Some(b)
                    } else {
                        Some(n - 1)
                    },
                    None => Some(n - 1),
                }
            } else {
                r
            }
        }
    }

    /// A step from a sound state in which a triangle is left places one
    /// more triangle and leads to a sound state.
    pub proof fn lemma_step_sound(self, g: Growth)
        requires
            self.valid(),
            self.sound(g),
            g.placed.len() < self.triangle_count(),
        ensures
            self.sound(self.step(g)),
            self.step(g).placed.len() == g.placed.len() + 1,
            self.step(g).live.len() > 0,
    {
        if self.has_candidate(g) {
            let r = self.lemma_best_below(g, self.triangle_count());
            let c = choose|c: int| self.candidate(g, c);
            assert(self.candidate(g, c));
            let b = r.unwrap();
            assert(self.is_best(g, b));
            self.lemma_step_extend(g, b);
            self.lemma_extend_sound(g, b);
        } else {
            let t = if self.has_neighbor(g) {
                let n = choose|n: int| self.neighbor(g, n);
                let t = self.lemma_least_neighbor(g, n);
                self.lemma_step_neighbor(g, t);
                t
            } else {
                self.lemma_some_unused(g);
                let n = choose|n: int| self.unused(g, n);
                let t = self.lemma_least_unused(g, n);
                self.lemma_step_fresh(g, t);
                t
            };
            self.lemma_close_sound(g);
            let h = g.shut();
            assert(self.unused(h, t));
            self.lemma_cluster_vertices(seq![t]);
            assert(seq![t].drop_last() =~= Seq::<int>::empty());
            self.lemma_with_triangle(Seq::<u32>::empty(), t);
            self.lemma_extend_sound(h, t);
        }
    }

    /// The growth is sound at every stage, and at stage `k` it has placed
    /// `k` triangles.
    pub proof fn lemma_grow_sound(self, k: nat)
        requires
            self.valid(),
            k <= self.triangle_count(),
        ensures
            self.sound(self.grow(k)),
            self.grow(k).placed.len() == k,
            k > 0 ==> self.grow(k).live.len() > 0,
        decreases k,
    {
        if k > 0 {
            self.lemma_grow_sound((k - 1) as nat);
            self.lemma_step_sound(self.grow((k - 1) as nat));
        }
    }

    /// Every triangle of a valid mesh lies in exactly one cluster, and the
    /// outputs that stand for the clusters give each triangle back corner
    /// for corner: the placement order is a permutation of the triangles,
    /// the meshlets' ranges tile the two buffers, and triangle `j` of the
    /// meshlet whose range starts at byte `3 * s` is triangle
    /// `placement[s + j]` of the index stream.
    pub proof fn lemma_every_triangle_once(self)
        requires
            self.valid(),
        ensures
            is_permutation(self.placement(), self.triangle_count()),
            tiles(
                self.descriptors(self.clusters()),
                self.vertex_table(self.clusters()).len(),
                self.micro_table(self.clusters()).len(),
            ),
            reproduces(
                self.indices,
                self.placement(),
                self.descriptors(self.clusters()),
                self.vertex_table(self.clusters()),
                self.micro_table(self.clusters()),
            ),
    {
        let g = self.grow(self.triangle_count() as nat);
        let cs = self.clusters();
        self.lemma_grow_sound(self.triangle_count() as nat);
        self.lemma_close_sound(g);
        self.lemma_all_placed(g);
        self.lemma_table_lengths(cs);
        self.lemma_layout_tiles(cs);
        self.lemma_layout_reproduces(cs, g.placed);
    }

    /// No meshlet of a valid mesh is empty, and none exceeds a cap.
    pub proof fn lemma_caps_kept(self)
        requires
            self.valid(),
        ensures
            within_caps(self.descriptors(self.clusters()), self.max_vertices, self.max_triangles),
    {
        let g = self.grow(self.triangle_count() as nat);
        self.lemma_grow_sound(self.triangle_count() as nat);
        self.lemma_close_sound(g);
        self.lemma_layout_caps(self.clusters());
    }

    /// The outputs of a valid mesh never exceed the sizes computed from the
    /// triangle count and the caps.
    pub proof fn lemma_bounds_kept(self)
        requires
            self.valid(),
        ensures
            self.descriptors(self.clusters()).len() <= meshlet_bound(
                self.triangle_count() as nat,
                self.max_vertices,
                self.max_triangles,
            ),
            self.vertex_table(self.clusters()).len() <= vertex_table_bound(
                self.triangle_count() as nat,
                self.max_vertices,
                self.max_triangles,
            ),
            self.micro_table(self.clusters()).len() == micro_index_bound(
                self.triangle_count() as nat,
                self.max_vertices,
                self.max_triangles,
            ),
    {
        let g = self.grow(self.triangle_count() as nat);
        self.lemma_grow_sound(self.triangle_count() as nat);
        self.lemma_close_sound(g);
        self.lemma_table_lengths(self.clusters());
        self.lemma_layout_caps(self.clusters());
    }

    /// Whether triangles `t` and `u` have a vertex in common.
    pub open spec fn share_vertex(self, t: int, u: int) -> bool {
        self.has_corner(u, self.corner(t, 0)) || self.has_corner(u, self.corner(t, 1))
            || self.has_corner(u, self.corner(t, 2))
    }

    /// Whether no two triangles of the mesh have a vertex in common.
    pub open spec fn scattered(self) -> bool {
        forall|t: int, u: int|
            self.has_triangle(t) && self.has_triangle(u) && t != u ==> !#[trigger] self.share_vertex(
                t,
                u,
            )
    }

    /// In a mesh whose triangles share no vertex, every stage of the growth
    /// has one cluster per triangle placed.
    pub proof fn lemma_scattered_growth(self, k: nat)
        requires
            self.valid(),
            self.scattered(),
            k <= self.triangle_count(),
        ensures
            self.grow(k).live.len() <= 1,
            self.grow(k).clusters().len() == k,
        decreases k,
    {
        if k > 0 {
            let g = self.grow((k - 1) as nat);
            self.lemma_scattered_growth((k - 1) as nat);
            self.lemma_grow_sound((k - 1) as nat);
            self.lemma_step_sound(g);
            if self.has_candidate(g) {
                let c = choose|c: int| self.candidate(g, c);
                let vs = self.cluster_vertices(g.live);
                assert(self.touches(vs, c));
                if g.live.len() == 0 {
                    assert(false);
                } else {
                    let s = g.live[0];
                    assert(g.live.drop_last() =~= Seq::<int>::empty());
                    assert(self.cluster_vertices(Seq::<int>::empty()) =~= Seq::<u32>::empty());
                    assert(vs == self.with_triangle(Seq::<u32>::empty(), s));
                    self.lemma_with_triangle(Seq::<u32>::empty(), s);
                    assert(s == g.placed[self.triangles_in(g.closed) + 0]);
                    self.lemma_triangles_in_nonneg(g.closed);
                    assert(self.has_triangle(s));
                    assert(g.placed.contains(s));
                    assert(self.share_vertex(c, s));
                    assert(false);
                }
            }
        }
    }

    /// A mesh whose triangles share no vertex gets one meshlet per
    /// triangle: the worst-case meshlet count is attained for every
    /// triangle count and every pair of caps.
    pub proof fn lemma_scattered_worst_case(self)
        requires
            self.valid(),
            self.scattered(),
        ensures
            self.descriptors(self.clusters()).len() == meshlet_bound(
                self.triangle_count() as nat,
                self.max_vertices,
                self.max_triangles,
            ),
    {
        self.lemma_scattered_growth(self.triangle_count() as nat);
    }

    /// A mesh without triangles has no meshlets, and both buffers are
    /// empty.
    pub proof fn lemma_no_triangles(self)
        requires
            self.valid(),
            self.triangle_count() == 0,
        ensures
            self.descriptors(self.clusters()).len() == 0,
            self.vertex_table(self.clusters()).len() == 0,
            self.micro_table(self.clusters()).len() == 0,
    {
        self.lemma_bounds_kept();
    }

    /// A mesh of one triangle with three different corners has one
    /// meshlet, which holds the three corners in their order and the
    /// triangle.
    pub proof fn lemma_single_triangle(self)
        requires
            self.valid(),
            self.triangle_count() == 1,
            self.corner(0, 0) != self.corner(0, 1),
            self.corner(0, 0) != self.corner(0, 2),
            self.corner(0, 1) != self.corner(0, 2),
        ensures
            self.descriptors(self.clusters()) == seq![
                Meshlet { vertex_offset: 0, vertex_count: 3, triangle_offset: 0, triangle_count: 1 },
            ],
            self.vertex_table(self.clusters()) == seq![
                self.corner(0, 0),
                self.corner(0, 1),
                self.corner(0, 2),
            ],
            self.micro_table(self.clusters()) == seq![0u8, 1u8, 2u8],
    {
        let g = Growth::start();
        assert(self.grow(1) == self.step(self.grow(0)));
        assert(self.grow(0) == g);
        assert(self.is_first_unused(g, 0));
        assert(self.cluster_vertices(g.live) =~= Seq::<u32>::empty());
        assert(!self.has_neighbor(g));
        self.lemma_step_fresh(g, 0);
        let h = g.restart(0);
        assert(h.live =~= seq![0int]);
        assert(h.closed =~= Seq::<Seq<int>>::empty());
        let cs = self.clusters();
        assert(cs =~= seq![seq![0int]]);
        let c = seq![0int];
        let vs = seq![self.corner(0, 0), self.corner(0, 1), self.corner(0, 2)];
        assert(c.drop_last() =~= Seq::<int>::empty());
        assert(self.cluster_vertices(Seq::<int>::empty()) =~= Seq::<u32>::empty());
        let v0 = push_unique(Seq::<u32>::empty(), self.corner(0, 0));
        assert(v0 =~= seq![self.corner(0, 0)]);
        let v1 = push_unique(v0, self.corner(0, 1));
        assert(!v0.contains(self.corner(0, 1)));
        assert(v1 =~= seq![self.corner(0, 0), self.corner(0, 1)]);
        assert(!v1.contains(self.corner(0, 2)));
        assert(self.cluster_vertices(c) =~= vs);
        lemma_position(vs, self.corner(0, 0), 0);
        lemma_position(vs, self.corner(0, 1), 1);
        lemma_position(vs, self.corner(0, 2), 2);
        assert(self.cluster_micro(c) =~= seq![0u8, 1u8, 2u8]);
        assert(cs.drop_last() =~= Seq::<Seq<int>>::empty());
        assert(self.vertex_table(Seq::<Seq<int>>::empty()) =~= Seq::<u32>::empty());
        assert(self.micro_table(Seq::<Seq<int>>::empty()) =~= Seq::<u8>::empty());
        assert(self.vertex_table(cs) =~= vs);
        assert(self.micro_table(cs) =~= seq![0u8, 1u8, 2u8]);
        assert(cs.take(0) =~= Seq::<Seq<int>>::empty());
        assert(self.triangles_in(Seq::<Seq<int>>::empty()) == 0);
        assert(self.descriptors(cs) =~= seq![
            Meshlet { vertex_offset: 0, vertex_count: 3, triangle_offset: 0, triangle_count: 1 },
        ]);
    }
}

/// A mesh of `triangle_count` triangles of which no two share a vertex:
/// vertex `i` is the corner at place `i` of the index stream.
pub open spec fn scattered_mesh(triangle_count: nat, max_vertices: nat, max_triangles: nat) -> Mesh {
    Mesh {
        indices: Seq::new(3 * triangle_count, |i: int| i as u32),
        normals: Seq::new(triangle_count, |t: int| Normal { x: 0, y: 0, z: 0 }),
        vertex_count: 3 * triangle_count,
        max_vertices,
        max_triangles,
        cone_weight: 0,
    }
}

/// The worst-case meshlet count is attained: for every triangle count that
/// the index stream can hold and every admissible pair of caps there is a
/// valid mesh with as many meshlets as the bound allows.
pub proof fn lemma_worst_case_attained(triangle_count: nat, max_vertices: nat, max_triangles: nat)
    requires
        caps_ok(max_vertices, max_triangles),
        3 * triangle_count <= u32::MAX,
    ensures
        scattered_mesh(triangle_count, max_vertices, max_triangles).valid(),
        scattered_mesh(triangle_count, max_vertices, max_triangles).triangle_count() == triangle_count,
        scattered_mesh(triangle_count, max_vertices, max_triangles).descriptors(
            scattered_mesh(triangle_count, max_vertices, max_triangles).clusters(),
        ).len() == meshlet_bound(triangle_count, max_vertices, max_triangles),
{
    let m = scattered_mesh(triangle_count, max_vertices, max_triangles);
    assert(m.indices.len() == 3 * triangle_count);
    assert(m.triangle_count() == triangle_count);
    assert forall|t: int, u: int| m.has_triangle(t) && m.has_triangle(u) && t != u implies !#[trigger] m.share_vertex(
        t,
        u,
    ) by {
        assert(m.corner(t, 0) == (3 * t) as u32);
        assert(m.corner(t, 1) == (3 * t + 1) as u32);
        assert(m.corner(t, 2) == (3 * t + 2) as u32);
        assert(m.corner(u, 0) == (3 * u) as u32);
        assert(m.corner(u, 1) == (3 * u + 1) as u32);
        assert(m.corner(u, 2) == (3 * u + 2) as u32);
    }
    m.lemma_scattered_worst_case();
}

}
