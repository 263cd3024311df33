//! Facts about a cluster's vertex list: it holds no vertex twice, it holds
//! every corner of every triangle of the cluster, and it only ever grows at
//! its end.

use vstd::prelude::*;
use crate::mesh::Mesh;
use crate::model::{position, push_unique};

verus! {

/// `push_unique` keeps what was there, in place, adds at most `v`, and
/// keeps the list free of repetitions.
pub proof fn lemma_push_unique(vs: Seq<u32>, v: u32)
    requires
        vs.no_duplicates(),
    ensures
        push_unique(vs, v).no_duplicates(),
        push_unique(vs, v).contains(v),
        vs.len() <= push_unique(vs, v).len() <= vs.len() + 1,
        push_unique(vs, v).len() == vs.len() + (if vs.contains(v) { 0int } else { 1int }),
        forall|i: int| 0 <= i < vs.len() ==> push_unique(vs, v)[i] == vs[i],
        forall|w: u32| push_unique(vs, v).contains(w) <==> (vs.contains(w) || w == v),
{
    let r = push_unique(vs, v);
    if vs.contains(v) {
    } else {
        assert(r[vs.len() as int] == v);
        assert forall|w: u32| r.contains(w) <==> (vs.contains(w) || w == v) by {
            if vs.contains(w) {
                let i = choose|i: int| 0 <= i < vs.len() && vs[i] == w;
                assert(r[i] == w);
            }
            if r.contains(w) {
                let i = choose|i: int| 0 <= i < r.len() && r[i] == w;
                if i < vs.len() {
                    assert(vs[i] == w);
                }
            }
        }
        assert forall|i: int, j: int| 0 <= i < r.len() && 0 <= j < r.len() && i != j implies r[i]
            != r[j] by {
            if i == vs.len() {
                assert(vs[j] == r[j]);
            } else if j == vs.len() {
                assert(vs[i] == r[i]);
            }
        }
    }
}

/// In a list without repetitions a vertex stands at one place only.
pub proof fn lemma_position(vs: Seq<u32>, v: u32, i: int)
    requires
        vs.no_duplicates(),
        0 <= i < vs.len(),
        vs[i] == v,
    ensures
        position(vs, v) == i,
{
}

/// Where a vertex stands does not change when the list grows at its end.
pub proof fn lemma_position_prefix(vs: Seq<u32>, ws: Seq<u32>, v: u32)
    requires
        ws.no_duplicates(),
        vs.len() <= ws.len(),
        forall|i: int| 0 <= i < vs.len() ==> ws[i] == vs[i],
        vs.contains(v),
    ensures
        position(ws, v) == position(vs, v),
        0 <= position(vs, v) < vs.len(),
        vs[position(vs, v)] == v,
{
    let i = position(vs, v);
    assert(ws[i] == v);
    lemma_position(ws, v, i);
}

impl Mesh {
    /// What adding a triangle does to a vertex list.
    pub proof fn lemma_with_triangle(self, vs: Seq<u32>, t: int)
        requires
            vs.no_duplicates(),
        ensures
            self.with_triangle(vs, t).no_duplicates(),
            vs.len() <= self.with_triangle(vs, t).len() <= vs.len() + 3,
            forall|i: int| 0 <= i < vs.len() ==> self.with_triangle(vs, t)[i] == vs[i],
            forall|w: u32|
                self.with_triangle(vs, t).contains(w) <==> (vs.contains(w) || self.has_corner(
                    t,
                    w,
                )),
    {
        let v0 = push_unique(vs, self.corner(t, 0));
        let v1 = push_unique(v0, self.corner(t, 1));
        lemma_push_unique(vs, self.corner(t, 0));
        lemma_push_unique(v0, self.corner(t, 1));
        lemma_push_unique(v1, self.corner(t, 2));
    }

    /// The number of vertices a triangle adds, corner by corner.
    pub proof fn lemma_extra(self, vs: Seq<u32>, t: int)
        requires
            vs.no_duplicates(),
        ensures
            self.extra(vs, t) == (if vs.contains(self.corner(t, 0)) {
                0int
            } else {
                1int
            }) + (if vs.contains(self.corner(t, 1)) || self.corner(t, 1) == self.corner(t, 0) {
                0int
            } else {
                1int
            }) + (if vs.contains(self.corner(t, 2)) || self.corner(t, 2) == self.corner(t, 0)
                || self.corner(t, 2) == self.corner(t, 1) {
                0int
            } else {
                1int
            }),
            0 <= self.extra(vs, t) <= 3,
    {
        let v0 = push_unique(vs, self.corner(t, 0));
        let v1 = push_unique(v0, self.corner(t, 1));
        lemma_push_unique(vs, self.corner(t, 0));
        lemma_push_unique(v0, self.corner(t, 1));
        lemma_push_unique(v1, self.corner(t, 2));
    }

    /// A cluster's vertex list after one more triangle.
    pub proof fn lemma_vertices_push(self, c: Seq<int>, t: int)
        ensures
            self.cluster_vertices(c.push(t)) == self.with_triangle(self.cluster_vertices(c), t),
    {
        assert(c.push(t).drop_last() == c);
        assert(c.push(t).last() == t);
    }

    /// A cluster's vertex list holds no vertex twice and holds every corner
    /// of every triangle of the cluster.
    pub proof fn lemma_cluster_vertices(self, c: Seq<int>)
        ensures
            self.cluster_vertices(c).no_duplicates(),
            self.cluster_vertices(c).len() <= 3 * c.len(),
            forall|j: int, w: u32|
                0 <= j < c.len() && #[trigger] self.has_corner(c[j], w) ==> self.cluster_vertices(
                    c,
                ).contains(w),
        decreases c.len(),
    {
        if c.len() > 0 {
            let d = c.drop_last();
            self.lemma_cluster_vertices(d);
            self.lemma_with_triangle(self.cluster_vertices(d), c.last());
            assert forall|j: int, w: u32|
                0 <= j < c.len() && #[trigger] self.has_corner(c[j], w) implies self.cluster_vertices(
                c,
            ).contains(w) by {
                if j < d.len() {
                    assert(d[j] == c[j]);
                    assert(self.has_corner(d[j], w));
                    assert(self.cluster_vertices(d).contains(w));
                } else {
                    assert(c[j] == c.last());
                }
            }
        }
    }

    /// A cluster's local indices after one more triangle: those it had, then
    /// the places of the new triangle's corners.
    pub proof fn lemma_micro_push(self, c: Seq<int>, t: int)
        ensures
            self.cluster_micro(c.push(t)) == self.cluster_micro(c) + seq![
                position(self.cluster_vertices(c.push(t)), self.corner(t, 0)) as u8,
                position(self.cluster_vertices(c.push(t)), self.corner(t, 1)) as u8,
                position(self.cluster_vertices(c.push(t)), self.corner(t, 2)) as u8,
            ],
    {
        let d = c.push(t);
        let vs = self.cluster_vertices(c);
        let ws = self.cluster_vertices(d);
        let tail = seq![
            position(ws, self.corner(t, 0)) as u8,
            position(ws, self.corner(t, 1)) as u8,
            position(ws, self.corner(t, 2)) as u8,
        ];
        let left = self.cluster_micro(d);
        let right = self.cluster_micro(c) + tail;
        self.lemma_vertices_push(c, t);
        self.lemma_cluster_vertices(c);
        self.lemma_with_triangle(vs, t);
        assert(left.len() == right.len());
        assert forall|i: int| 0 <= i < left.len() implies left[i] == right[i] by {
            if i < 3 * c.len() {
                let j = i / 3;
                let k = i % 3;
                assert(d[j] == c[j]);
                let w = self.corner(c[j], k);
                assert(self.has_corner(c[j], w));
                lemma_position_prefix(vs, ws, w);
            } else {
                assert(i / 3 == c.len());
                assert(d[i / 3] == t);
                assert(right[i] == tail[i - 3 * c.len()]);
            }
        }
        assert(left =~= right);
    }
}

}
