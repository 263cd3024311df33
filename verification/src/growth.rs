//! What holds of every state that the greedy growth passes through.

use vstd::prelude::*;
use crate::mesh::Mesh;
use crate::model::{Growth, Phase};
use vstd::seq_lib::seq_to_set_is_finite;
use vstd::set_lib::{lemma_int_range, lemma_len_subset, lemma_subset_equality, set_int_range};
use crate::layout::is_permutation;

verus! {

impl Mesh {
    /// Whether cluster `c` is non-empty and within both caps.
    pub open spec fn capped(self, c: Seq<int>) -> bool {
        &&& 1 <= c.len() <= self.max_triangles
        &&& self.cluster_vertices(c).len() <= self.max_vertices
    }

    /// Whether `g` is a state that the growth can be in: the triangles placed
    /// are distinct triangles of the mesh, the clusters hold them in the
    /// order of placement, and every cluster is within the caps.
    pub open spec fn sound(self, g: Growth) -> bool {
        &&& g.placed.no_duplicates()
        &&& forall|p: int| 0 <= p < g.placed.len() ==> self.has_triangle(#[trigger] g.placed[p])
        &&& self.triangles_in(g.closed) + g.live.len() == g.placed.len()
        &&& forall|j: int|
            0 <= j < g.live.len() ==> #[trigger] g.live[j] == g.placed[self.triangles_in(g.closed)
                + j]
        &&& forall|i: int, j: int|
            0 <= i < g.closed.len() && 0 <= j < g.closed[i].len() ==> #[trigger] g.closed[i][j]
                == g.placed[self.triangles_in(g.closed.take(i)) + j]
        &&& forall|i: int| 0 <= i < g.closed.len() ==> self.capped(#[trigger] g.closed[i])
        &&& g.live.len() <= self.max_triangles
        &&& self.cluster_vertices(g.live).len() <= self.max_vertices
    }

    /// The summed normal of a cluster is bounded by the cluster's size.
    pub proof fn lemma_normal_sum_bound(self, c: Seq<int>)
        ensures
            -128 * c.len() <= self.normal_sum(c).x <= 127 * c.len(),
            -128 * c.len() <= self.normal_sum(c).y <= 127 * c.len(),
            -128 * c.len() <= self.normal_sum(c).z <= 127 * c.len(),
        decreases c.len(),
    {
        if c.len() > 0 {
            self.lemma_normal_sum_bound(c.drop_last());
        }
    }

    /// The summed normal of a cluster after one more triangle.
    pub proof fn lemma_normal_sum_push(self, c: Seq<int>, t: int)
        ensures
            self.normal_sum(c.push(t)) == self.normal_sum(c).plus(self.normals[t].vector()),
    {
        assert(c.push(t).drop_last() == c);
    }

    /// Clusters counted after one more cluster.
    pub proof fn lemma_triangles_in_push(self, cs: Seq<Seq<int>>, c: Seq<int>)
        ensures
            self.triangles_in(cs.push(c)) == self.triangles_in(cs) + c.len(),
    {
        assert(cs.push(c).drop_last() == cs);
    }

    /// A sound growth stays sound when the live cluster takes an unplaced
    /// triangle that fits.
    pub proof fn lemma_extend_sound(self, g: Growth, t: int)
        requires
            self.sound(g),
            self.unused(g, t),
            self.fits(g.live, t),
        ensures
            self.sound(g.extend(t)),
    {
        let h = g.extend(t);
        self.lemma_vertices_push(g.live, t);
        self.lemma_triangles_in_nonneg(g.closed);
        assert forall|j: int| 0 <= j < h.live.len() implies #[trigger] h.live[j] == h.placed[self.triangles_in(
            h.closed,
        ) + j] by {
            if j < g.live.len() {
                assert(g.live[j] == g.placed[self.triangles_in(g.closed) + j]);
            }
        }
        assert forall|p: int| 0 <= p < h.placed.len() implies self.has_triangle(
            #[trigger] h.placed[p],
        ) by {
            if p < g.placed.len() {
                assert(g.placed[p] == h.placed[p]);
            }
        }
        assert forall|p: int, q: int| 0 <= p < h.placed.len() && 0 <= q < h.placed.len() && p
            != q implies h.placed[p] != h.placed[q] by {
            if p == g.placed.len() {
                assert(g.placed[q] == h.placed[q]);
            } else if q == g.placed.len() {
                assert(g.placed[p] == h.placed[p]);
            }
        }
        assert forall|i: int, j: int|
            0 <= i < h.closed.len() && 0 <= j < h.closed[i].len() implies #[trigger] h.closed[i][j]
            == h.placed[self.triangles_in(h.closed.take(i)) + j] by {
            self.lemma_triangles_in_take(g.closed, i);
            assert(g.closed[i][j] == g.placed[self.triangles_in(g.closed.take(i)) + j]);
        }
    }

    /// The clusters before cluster `i` hold no more triangles than all of
    /// them do, short of cluster `i` itself.
    pub proof fn lemma_triangles_in_take(self, cs: Seq<Seq<int>>, i: int)
        requires
            0 <= i < cs.len(),
        ensures
            0 <= self.triangles_in(cs.take(i)),
            self.triangles_in(cs.take(i)) + cs[i].len() <= self.triangles_in(cs),
        decreases cs.len(),
    {
        self.lemma_triangles_in_nonneg(cs.take(i));
        if i == cs.len() - 1 {
            assert(cs.take(i) == cs.drop_last());
        } else {
            let d = cs.drop_last();
            self.lemma_triangles_in_take(d, i);
            assert(d.take(i) == cs.take(i));
        }
    }

    /// Clusters hold no negative number of triangles.
    pub proof fn lemma_triangles_in_nonneg(self, cs: Seq<Seq<int>>)
        ensures
            0 <= self.triangles_in(cs),
        decreases cs.len(),
    {
        if cs.len() > 0 {
            self.lemma_triangles_in_nonneg(cs.drop_last());
        }
    }

    /// A sound growth with a non-empty live cluster stays sound when that
    /// cluster is closed.
    pub proof fn lemma_close_sound(self, g: Growth)
        requires
            self.sound(g),
            self.caps_hold(),
        ensures
            self.sound(g.shut()),
            g.live.len() > 0 ==> g.shut().closed == g.closed.push(g.live),
    {
        let h = g.shut();
        if g.live.len() > 0 {
            self.lemma_triangles_in_push(g.closed, g.live);
            assert forall|i: int, j: int|
                0 <= i < h.closed.len() && 0 <= j < h.closed[i].len() implies #[trigger] h.closed[i][j]
                == h.placed[self.triangles_in(h.closed.take(i)) + j] by {
                if i < g.closed.len() {
                    assert(h.closed.take(i) == g.closed.take(i));
                    assert(g.closed[i][j] == g.placed[self.triangles_in(g.closed.take(i)) + j]);
                } else {
                    assert(h.closed.take(i) == g.closed);
                    assert(h.closed[i] == g.live);
                }
            }
        }
    }

    /// While fewer triangles are placed than the mesh has, one is unplaced.
    pub proof fn lemma_some_unused(self, g: Growth)
        requires
            g.placed.no_duplicates(),
            g.placed.len() < self.triangle_count(),
        ensures
            exists|t: int| self.unused(g, t),
    {
        if forall|t: int| !self.unused(g, t) {
            let range = set_int_range(0, self.triangle_count());
            let placed = g.placed.to_set();
            lemma_int_range(0, self.triangle_count());
            seq_to_set_is_finite(g.placed);
            g.placed.unique_seq_to_set();
            assert forall|t: int| range.contains(t) implies placed.contains(t) by {
                assert(!self.unused(g, t));
            }
            lemma_len_subset(range, placed);
        }
    }

    /// No more triangles can be placed, each once, than the mesh has.
    pub proof fn lemma_placed_count(self, g: Growth)
        requires
            g.placed.no_duplicates(),
            forall|p: int| 0 <= p < g.placed.len() ==> self.has_triangle(#[trigger] g.placed[p]),
        ensures
            g.placed.len() <= self.triangle_count(),
    {
        let range = set_int_range(0, self.triangle_count());
        let placed = g.placed.to_set();
        lemma_int_range(0, self.triangle_count());
        g.placed.unique_seq_to_set();
        assert forall|t: int| placed.contains(t) implies range.contains(t) by {
            let p = choose|p: int| 0 <= p < g.placed.len() && g.placed[p] == t;
            assert(self.has_triangle(g.placed[p]));
        }
        lemma_len_subset(placed, range);
    }

    /// The step taken where the live cluster has a best candidate.
    pub proof fn lemma_step_extend(self, g: Growth, t: int)
        requires
            self.is_best(g, t),
        ensures
            self.step(g) == g.extend(t),
    {
        let u = choose|u: int| self.is_best(g, u);
        assert(self.candidate(g, t) && self.candidate(g, u));
        assert(self.precedes(g, t, u) && self.precedes(g, u, t));
        assert(self.touches(self.cluster_vertices(g.live), t));
        assert(self.phase(g) == Phase::Growing);
    }

    /// The step taken where the live cluster has no candidate, but a
    /// neighbor.
    pub proof fn lemma_step_neighbor(self, g: Growth, t: int)
        requires
            !self.has_candidate(g),
            self.is_first_neighbor(g, t),
        ensures
            self.step(g) == g.restart(t),
    {
        let u = choose|u: int| self.is_first_neighbor(g, u);
        assert(self.neighbor(g, t) && self.neighbor(g, u));
        assert(self.touches(self.cluster_vertices(g.live), t));
        assert(self.phase(g) == Phase::Closing);
    }

    /// The step taken where the live cluster has no neighbor.
    pub proof fn lemma_step_fresh(self, g: Growth, t: int)
        requires
            !self.has_neighbor(g),
            self.is_first_unused(g, t),
        ensures
            self.step(g) == g.restart(t),
    {
        let u = choose|u: int| self.is_first_unused(g, u);
        assert(self.unused(g, t) && self.unused(g, u));
        if self.has_candidate(g) {
            let c = choose|c: int| self.candidate(g, c);
            assert(self.neighbor(g, c));
        }
    }

    /// Once as many triangles are placed as the mesh has, each is placed
    /// exactly once.
    pub proof fn lemma_all_placed(self, g: Growth)
        requires
            self.sound(g),
            g.placed.len() == self.triangle_count(),
        ensures
            is_permutation(g.placed, self.triangle_count()),
    {
        let range = set_int_range(0, self.triangle_count());
        let placed = g.placed.to_set();
        lemma_int_range(0, self.triangle_count());
        seq_to_set_is_finite(g.placed);
        g.placed.unique_seq_to_set();
        assert forall|t: int| placed.contains(t) implies range.contains(t) by {
            let p = choose|p: int| 0 <= p < g.placed.len() && g.placed[p] == t;
            assert(self.has_triangle(g.placed[p]));
        }
        lemma_subset_equality(placed, range);
        assert forall|t: int| 0 <= t < self.triangle_count() implies g.placed.contains(t) by {
            assert(range.contains(t));
        }
        assert forall|p: int| 0 <= p < g.placed.len() implies 0 <= #[trigger] g.placed[p]
            < self.triangle_count() by {
            assert(self.has_triangle(g.placed[p]));
        }
    }
}

}
