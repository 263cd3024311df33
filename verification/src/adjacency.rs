//! For each vertex, the triangles that have it as a corner.

use vstd::prelude::*;
use crate::mesh::Mesh;

verus! {

/// Whether `adj` lists, for every vertex of `m`, exactly the triangles
/// incident to it (a triangle once for each corner that is the vertex).
pub open spec fn adjacency_of(m: Mesh, adj: Seq<Vec<u32>>) -> bool {
    &&& adj.len() == m.vertex_count
    &&& forall|v: int, j: int|
        0 <= v < adj.len() && 0 <= j < adj[v]@.len() ==> {
            &&& m.has_triangle(#[trigger] adj[v]@[j] as int)
            &&& m.has_corner(adj[v]@[j] as int, v as u32)
        }
    &&& forall|p: int|
        0 <= p < m.indices.len() ==> (#[trigger] adj[m.indices[p] as int]@).contains((p / 3) as u32)
}

/// The part of `adjacency_of` that holds once the first `n` indices are
/// entered.
pub open spec fn adjacency_upto(m: Mesh, adj: Seq<Vec<u32>>, n: int) -> bool {
    &&& adj.len() == m.vertex_count
    &&& forall|v: int, j: int|
        0 <= v < adj.len() && 0 <= j < adj[v]@.len() ==> {
            &&& m.has_triangle(#[trigger] adj[v]@[j] as int)
            &&& m.has_corner(adj[v]@[j] as int, v as u32)
        }
    &&& forall|p: int|
        0 <= p < n ==> (#[trigger] adj[m.indices[p] as int]@).contains((p / 3) as u32)
}

/// Builds the vertex-to-triangle adjacency of a valid mesh.
pub(crate) fn build_adjacency(indices: &[u32], vertex_count: usize, Ghost(m): Ghost<Mesh>) -> (adj: Vec<
    Vec<u32>,
>)
    requires
        m.valid(),
        m.indices == indices@,
        m.vertex_count == vertex_count,
    ensures
        adjacency_of(m, adj@),
{
    let mut adj: Vec<Vec<u32>> = Vec::new();
    let mut v: usize = 0;
    while v < vertex_count
        invariant
            v <= vertex_count,
            adj.len() == v,
            forall|w: int| 0 <= w < v ==> (#[trigger] adj[w]@).len() == 0,
        decreases vertex_count - v,
    {
        adj.push(Vec::new());
        v += 1;
    }
    let mut p: usize = 0;
    while p < indices.len()
        invariant
            p <= indices.len(),
            m.valid(),
            m.indices == indices@,
            m.vertex_count == vertex_count,
            adjacency_upto(m, adj@, p as int),
        decreases indices.len() - p,
    {
        let v: usize = indices[p] as usize;
        let t: u32 = (p / 3) as u32;
        let ghost before = adj@;
        assert((indices@[p as int] as nat) < m.vertex_count);
        adj[v].push(t);
        proof {
            assert(m.has_triangle(t as int));
            assert(m.has_corner(t as int, v as u32)) by {
                let k: int = p as int % 3;
                assert(3 * (t as int) + k == p);
                assert(m.corner(t as int, k) == indices@[p as int]);
            }
            assert forall|w: int, j: int| 0 <= w < adj@.len() && 0 <= j < adj@[w]@.len() implies {
                &&& m.has_triangle(#[trigger] adj@[w]@[j] as int)
                &&& m.has_corner(adj@[w]@[j] as int, w as u32)
            } by {
                if w == v as int {
                    if j < before[w]@.len() {
                        assert(adj@[w]@[j] == before[w]@[j]);
                    }
                } else {
                    assert(adj@[w] == before[w]);
                }
            }
            assert forall|q: int| 0 <= q < p + 1 implies (#[trigger] adj@[m.indices[q] as int]@).contains(
                (q / 3) as u32,
            ) by {
                let w: int = m.indices[q] as int;
                assert((indices@[q] as nat) < m.vertex_count);
                if q == p as int {
                    assert(adj@[w]@[before[w]@.len() as int] == t);
                } else if w == v as int {
                    assert(before[w]@.contains((q / 3) as u32));
                    let j: int = choose|j: int| 0 <= j < before[w]@.len() && before[w]@[j] == (q / 3) as u32;
                    assert(adj@[w]@[j] == (q / 3) as u32);
                } else {
                    assert(adj@[w] == before[w]);
                    assert(before[w]@.contains((q / 3) as u32));
                }
            }
        }
        p += 1;
    }
    adj
}

}
