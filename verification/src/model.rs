//! The clustering as mathematics: what a cluster's vertex list is, which
//! triangle the greedy growth takes next, and how a sequence of clusters is
//! laid out in the three output buffers.

use vstd::prelude::*;
use crate::grid::Vector;
use crate::mesh::{Mesh, Meshlet};

verus! {

/// Upper bound on the dot product of two normals.
pub const NORMAL_UNIT: i64 = 49152;

/// What one added vertex counts for, per triangle of the cluster: 255
/// times `NORMAL_UNIT`, so that at full cone weight a normal that turns
/// fully away from the cluster counts like two added vertices.
pub const VERTEX_UNIT: i64 = 12533760;

/// `vs` with `v` appended unless it is already there.
pub open spec fn push_unique(vs: Seq<u32>, v: u32) -> Seq<u32> {
    if vs.contains(v) {
        vs
    } else {
        vs.push(v)
    }
}

/// The position of `v` in `vs`.
pub open spec fn position(vs: Seq<u32>, v: u32) -> int {
    choose|i: int| 0 <= i < vs.len() && vs[i] == v
}

impl Mesh {
    /// `vs` extended by the corners of triangle `t` that it does not hold
    /// yet, in corner order.
    pub open spec fn with_triangle(self, vs: Seq<u32>, t: int) -> Seq<u32> {
        push_unique(
            push_unique(push_unique(vs, self.corner(t, 0)), self.corner(t, 1)),
            self.corner(t, 2),
        )
    }

    /// The vertices of cluster `c` in the order in which its triangles first
    /// refer to them.
    pub open spec fn cluster_vertices(self, c: Seq<int>) -> Seq<u32>
        decreases c.len(),
    {
        if c.len() == 0 {
            Seq::empty()
        } else {
            self.with_triangle(self.cluster_vertices(c.drop_last()), c.last())
        }
    }

    /// The local indices of cluster `c`: byte `i` is where corner `i % 3` of
    /// the cluster's triangle `i / 3` stands in the cluster's vertex list.
    pub open spec fn cluster_micro(self, c: Seq<int>) -> Seq<u8> {
        Seq::new(
            3 * c.len(),
            |i: int| position(self.cluster_vertices(c), self.corner(c[i / 3], i % 3)) as u8,
        )
    }

    /// The sum of the normals of the triangles of `c`.
    pub open spec fn normal_sum(self, c: Seq<int>) -> Vector
        decreases c.len(),
    {
        if c.len() == 0 {
            Vector { x: 0, y: 0, z: 0 }
        } else {
            self.normal_sum(c.drop_last()).plus(self.normals[c.last()].vector())
        }
    }

    /// Number of vertices that triangle `t` adds to the vertex list `vs`.
    pub open spec fn extra(self, vs: Seq<u32>, t: int) -> int {
        self.with_triangle(vs, t).len() - vs.len()
    }

    /// Whether `v` is a corner of triangle `t`.
    pub open spec fn has_corner(self, t: int, v: u32) -> bool {
        self.corner(t, 0) == v || self.corner(t, 1) == v || self.corner(t, 2) == v
    }

    /// Whether triangle `t` has a corner in `vs`.
    pub open spec fn touches(self, vs: Seq<u32>, t: int) -> bool {
        vs.contains(self.corner(t, 0)) || vs.contains(self.corner(t, 1)) || vs.contains(
            self.corner(t, 2),
        )
    }

    /// How far the normal of `t` turns away from the summed normal of `c`:
    /// zero where all normals agree, growing as they diverge.
    pub open spec fn spread(self, c: Seq<int>, t: int) -> int {
        c.len() * NORMAL_UNIT - self.normal_sum(c).dot(self.normals[t].vector())
    }

    /// The cost of adding triangle `t` to cluster `c`: the vertices it adds,
    /// plus the spread of its normal weighted by the cone weight. With a cone
    /// weight of zero only the added vertices count.
    pub open spec fn cost(self, c: Seq<int>, t: int) -> int {
        VERTEX_UNIT * c.len() * self.extra(self.cluster_vertices(c), t) + self.cone_weight
            * self.spread(c, t)
    }

    /// Whether cluster `c` can take triangle `t` without exceeding a cap.
    pub open spec fn fits(self, c: Seq<int>, t: int) -> bool {
        c.len() < self.max_triangles && self.with_triangle(self.cluster_vertices(c), t).len()
            <= self.max_vertices
    }
}

/// The state of the greedy growth: the clusters that are finished, the one
/// under construction, and the triangles in the order in which they were
/// placed.
pub struct Growth {
    pub closed: Seq<Seq<int>>,
    pub live: Seq<int>,
    pub placed: Seq<int>,
}

/// The three situations that the growth can be in.
pub enum Phase {
    /// No cluster is open: the lowest unplaced triangle opens one.
    Seeking,
    /// The live cluster has a candidate: it takes the best one.
    Growing,
    /// The live cluster has no candidate: it is closed, and its lowest
    /// neighbor, or else the lowest unplaced triangle, opens the next one.
    Closing,
}

impl Growth {
    /// Nothing placed yet.
    pub open spec fn start() -> Growth {
        Growth { closed: Seq::empty(), live: Seq::empty(), placed: Seq::empty() }
    }

    /// The live cluster takes triangle `t`.
    pub open spec fn extend(self, t: int) -> Growth {
        Growth { closed: self.closed, live: self.live.push(t), placed: self.placed.push(t) }
    }

    /// The live cluster is closed; none is open.
    pub open spec fn shut(self) -> Growth {
        Growth { closed: self.clusters(), live: Seq::empty(), placed: self.placed }
    }

    /// The live cluster is closed and a new one opens with triangle `t`.
    pub open spec fn restart(self, t: int) -> Growth {
        self.shut().extend(t)
    }

    /// All clusters, the live one last.
    pub open spec fn clusters(self) -> Seq<Seq<int>> {
        if self.live.len() == 0 {
            self.closed
        } else {
            self.closed.push(self.live)
        }
    }
}

impl Mesh {
    /// Whether `t` is a triangle that is not placed yet.
    pub open spec fn unused(self, g: Growth, t: int) -> bool {
        self.has_triangle(t) && !g.placed.contains(t)
    }

    /// Whether `t` is an unplaced triangle that shares a vertex with the
    /// live cluster.
    pub open spec fn neighbor(self, g: Growth, t: int) -> bool {
        self.unused(g, t) && self.touches(self.cluster_vertices(g.live), t)
    }

    /// Whether the live cluster can grow by `t`: an unplaced triangle that
    /// shares a vertex with it and fits under the caps.
    pub open spec fn candidate(self, g: Growth, t: int) -> bool {
        self.neighbor(g, t) && self.fits(g.live, t)
    }

    /// Whether `t` is at least as good a choice as `u`: lower cost first,
    /// lower index among equals.
    pub open spec fn precedes(self, g: Growth, t: int, u: int) -> bool {
        self.cost(g.live, t) < self.cost(g.live, u) || (self.cost(g.live, t) == self.cost(
            g.live,
            u,
        ) && t <= u)
    }

    /// Whether `t` is the candidate that precedes all others.
    pub open spec fn is_best(self, g: Growth, t: int) -> bool {
        self.candidate(g, t) && forall|u: int| #[trigger]
            self.candidate(g, u) ==> self.precedes(g, t, u)
    }

    /// Whether `t` is the neighbor of lowest index.
    pub open spec fn is_first_neighbor(self, g: Growth, t: int) -> bool {
        self.neighbor(g, t) && forall|u: int| #[trigger] self.neighbor(g, u) ==> t <= u
    }

    /// Whether `t` is the unplaced triangle of lowest index.
    pub open spec fn is_first_unused(self, g: Growth, t: int) -> bool {
        self.unused(g, t) && forall|u: int| #[trigger] self.unused(g, u) ==> t <= u
    }

    /// Whether the live cluster can grow.
    pub open spec fn has_candidate(self, g: Growth) -> bool {
        exists|t: int| self.candidate(g, t)
    }

    /// Whether an unplaced triangle shares a vertex with the live cluster.
    pub open spec fn has_neighbor(self, g: Growth) -> bool {
        exists|t: int| self.neighbor(g, t)
    }

    /// The triangle that opens the next cluster: the lowest neighbor of the
    /// cluster just finished, or the lowest unplaced triangle where it has
    /// none.
    pub open spec fn seed(self, g: Growth) -> int {
        if self.has_neighbor(g) {
            choose|t: int| self.is_first_neighbor(g, t)
        } else {
            choose|t: int| self.is_first_unused(g, t)
        }
    }

    /// What the growth does next in state `g`.
    pub open spec fn phase(self, g: Growth) -> Phase {
        if g.live.len() == 0 {
            Phase::Seeking
        } else if self.has_candidate(g) {
            Phase::Growing
        } else {
            Phase::Closing
        }
    }

    /// One step of the growth. Each step places one triangle.
    pub open spec fn step(self, g: Growth) -> Growth {
        match self.phase(g) {
            Phase::Seeking => g.restart(choose|t: int| self.is_first_unused(g, t)),
            Phase::Growing => g.extend(choose|t: int| self.is_best(g, t)),
            Phase::Closing => g.restart(self.seed(g)),
        }
    }

    /// The growth after `k` triangles have been placed.
    pub open spec fn grow(self, k: nat) -> Growth
        decreases k,
    {
        if k == 0 {
            Growth::start()
        } else {
            self.step(self.grow((k - 1) as nat))
        }
    }

    /// The clusters of the mesh, in the order in which they were opened,
    /// each holding its triangles in the order in which they were taken.
    pub open spec fn clusters(self) -> Seq<Seq<int>> {
        self.grow(self.triangle_count() as nat).clusters()
    }

    /// The triangles of the mesh in the order in which the growth placed
    /// them: cluster after cluster.
    pub open spec fn placement(self) -> Seq<int> {
        self.grow(self.triangle_count() as nat).placed
    }

    /// The vertex lists of the clusters `cs`, one after the other.
    pub open spec fn vertex_table(self, cs: Seq<Seq<int>>) -> Seq<u32>
        decreases cs.len(),
    {
        if cs.len() == 0 {
            Seq::empty()
        } else {
            self.vertex_table(cs.drop_last()) + self.cluster_vertices(cs.last())
        }
    }

    /// Number of triangles in the clusters `cs`.
    pub open spec fn triangles_in(self, cs: Seq<Seq<int>>) -> int
        decreases cs.len(),
    {
        if cs.len() == 0 {
            0
        } else {
            self.triangles_in(cs.drop_last()) + cs.last().len()
        }
    }

    /// The local indices of the clusters `cs`, one cluster after the other.
    pub open spec fn micro_table(self, cs: Seq<Seq<int>>) -> Seq<u8>
        decreases cs.len(),
    {
        if cs.len() == 0 {
            Seq::empty()
        } else {
            self.micro_table(cs.drop_last()) + self.cluster_micro(cs.last())
        }
    }

    /// The descriptor of cluster `i` of `cs`: its ranges start where those
    /// of the clusters before it end.
    pub open spec fn descriptor(self, cs: Seq<Seq<int>>, i: int) -> Meshlet {
        Meshlet {
            vertex_offset: self.vertex_table(cs.take(i)).len() as u32,
            vertex_count: self.cluster_vertices(cs[i]).len() as u32,
            triangle_offset: (3 * self.triangles_in(cs.take(i))) as u32,
            triangle_count: cs[i].len() as u32,
        }
    }

    /// The descriptors of the clusters `cs`.
    pub open spec fn descriptors(self, cs: Seq<Seq<int>>) -> Seq<Meshlet> {
        Seq::new(cs.len(), |i: int| self.descriptor(cs, i))
    }
}

}
