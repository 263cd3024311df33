//! The meshlet builder: greedy growth of clusters over the vertex-to-triangle
//! adjacency, written out as descriptors, a vertex remap table and a buffer
//! of local indices.

use vstd::prelude::*;
use crate::adjacency::{adjacency_of, build_adjacency};
use crate::layout::{is_permutation, reproduces, tiles, within_caps};
use crate::limits::{meshlet_bound, micro_index_bound, vertex_table_bound};
use crate::mesh::{InvalidArgument, Mesh, Meshlet, Normal};
use crate::reading::{read_back, triangles_of};
use crate::model::{position, push_unique, Growth, NORMAL_UNIT, VERTEX_UNIT};
use crate::grid::{GridPoint, Vector};
use crate::normal::{normals_of, triangle_normals};
use crate::validate::{mesh_of, validate, validate_indices};
use crate::vertices::{lemma_position, lemma_position_prefix, lemma_push_unique};

verus! {

/// The builder's input over grid positions as a mathematical value: the
/// normals are those of the triangles.
pub open spec fn mesh_on(
    indices: Seq<u32>,
    positions: Seq<GridPoint>,
    max_vertices: usize,
    max_triangles: usize,
    cone_weight: u8,
) -> Mesh {
    mesh_of(
        indices,
        positions.len() as usize,
        normals_of(indices, positions),
        max_vertices,
        max_triangles,
        cone_weight,
    )
}

/// Whether `result` is what a build of the valid mesh `m` returns.
pub open spec fn built(m: Mesh, result: Result<(Vec<Meshlet>, Vec<u32>, Vec<u8>), InvalidArgument>) -> bool {
    &&& result matches Ok(out)
    &&& out.0@ == m.descriptors(m.clusters())
    &&& out.1@ == m.vertex_table(m.clusters())
    &&& out.2@ == m.micro_table(m.clusters())
}

/// Whether `result` is what a build of the mesh `m` returns: the first
/// condition that the mesh breaks, or, where it breaks none, the outputs
/// that stand for its clusters.
pub open spec fn outcome(m: Mesh, result: Result<(Vec<Meshlet>, Vec<u32>, Vec<u8>), InvalidArgument>) -> bool {
    match m.defect() {
        Some(e) => result == Err::<(Vec<Meshlet>, Vec<u32>, Vec<u8>), InvalidArgument>(e),
        None => built(m, result),
    }
}

/// Whether the three outputs stand for the mesh faithfully: reading them
/// back gives the triangles of the mesh, each once; the meshlets' ranges
/// tile the buffers; every meshlet is within the caps; and no output is
/// longer than its worst-case size.
pub open spec fn faithful(m: Mesh, meshlets: Seq<Meshlet>, vertices: Seq<u32>, micro: Seq<u8>) -> bool {
    &&& is_permutation(m.placement(), m.triangle_count())
    &&& reproduces(m.indices, m.placement(), meshlets, vertices, micro)
    &&& read_back(meshlets, vertices, micro).to_multiset() == triangles_of(m.indices).to_multiset()
    &&& tiles(meshlets, vertices.len(), micro.len())
    &&& within_caps(meshlets, m.max_vertices, m.max_triangles)
    &&& meshlets.len() <= meshlet_bound(m.triangle_count() as nat, m.max_vertices, m.max_triangles)
    &&& vertices.len() <= vertex_table_bound(
        m.triangle_count() as nat,
        m.max_vertices,
        m.max_triangles,
    )
    &&& micro.len() == micro_index_bound(m.triangle_count() as nat, m.max_vertices, m.max_triangles)
}

/// Whether two results of a build agree: the same refusal, or outputs of
/// the same content.
pub open spec fn same_outcome(
    a: Result<(Vec<Meshlet>, Vec<u32>, Vec<u8>), InvalidArgument>,
    b: Result<(Vec<Meshlet>, Vec<u32>, Vec<u8>), InvalidArgument>,
) -> bool {
    match (a, b) {
        (Ok(x), Ok(y)) => x.0@ == y.0@ && x.1@ == y.1@ && x.2@ == y.2@,
        (Err(e), Err(f)) => e == f,
        _ => false,
    }
}

/// Splits a mesh into meshlets.
///
/// `indices` holds three vertex indices per triangle, each naming one of
/// `positions`. No meshlet gets more than `max_vertices` vertices or
/// `max_triangles` triangles. `cone_weight` says how much the agreement of
/// face normals counts against the reuse of vertices when a cluster picks
/// its next triangle: 0 means not at all.
///
/// Returns the meshlet descriptors, the vertex remap table and the buffer of
/// local indices.
pub fn build_meshlets(
    indices: &[u32],
    positions: &[GridPoint],
    max_vertices: usize,
    max_triangles: usize,
    cone_weight: u8,
) -> (result: Result<(Vec<Meshlet>, Vec<u32>, Vec<u8>), InvalidArgument>)
    ensures
        outcome(mesh_on(indices@, positions@, max_vertices, max_triangles, cone_weight), result),
        result matches Ok(out) ==> faithful(
            mesh_on(indices@, positions@, max_vertices, max_triangles, cone_weight),
            out.0@,
            out.1@,
            out.2@,
        ),
{
    match validate_indices(indices, positions.len(), max_vertices, max_triangles) {
        Err(e) => {
            return Err(e);
        },
        Ok(_) => {},
    }
    let normals = triangle_normals(indices, positions);
    build_meshlets_with_normals(
        indices,
        positions.len(),
        normals.as_slice(),
        max_vertices,
        max_triangles,
        cone_weight,
    )
}

/// Splits a mesh into meshlets, with the triangles' normals given.
///
/// `indices` holds three vertex indices per triangle, each below
/// `vertex_count`; `normals` holds one unit normal per triangle, scaled to
/// signed bytes. The caps and the cone weight are those of
/// `build_meshlets`, and so are the outputs.
pub fn build_meshlets_with_normals(
    indices: &[u32],
    vertex_count: usize,
    normals: &[Normal],
    max_vertices: usize,
    max_triangles: usize,
    cone_weight: u8,
) -> (result: Result<(Vec<Meshlet>, Vec<u32>, Vec<u8>), InvalidArgument>)
    ensures
        outcome(
            mesh_of(indices@, vertex_count, normals@, max_vertices, max_triangles, cone_weight),
            result,
        ),
        result matches Ok(out) ==> faithful(
            mesh_of(indices@, vertex_count, normals@, max_vertices, max_triangles, cone_weight),
            out.0@,
            out.1@,
            out.2@,
        ),
{
    match validate(indices, vertex_count, normals, max_vertices, max_triangles, cone_weight) {
        Err(e) => {
            return Err(e);
        },
        Ok(_) => {},
    }
    let input = Input { indices, normals, vertex_count, max_vertices, max_triangles, cone_weight };
    let ghost m = input.mesh();
    let triangle_count: usize = indices.len() / 3;
    let mut ws = Workspace {
        adj: build_adjacency(indices, vertex_count, Ghost(m)),
        used: filled(false, triangle_count),
        local: filled(ABSENT, vertex_count),
        verts: Vec::new(),
        micro: Vec::new(),
        count: 0,
        sx: 0,
        sy: 0,
        sz: 0,
        cursor: 0,
    };
    let mut out = Output { meshlets: Vec::new(), vertices: Vec::new(), triangles: Vec::new() };
    let ghost mut g = Growth::start();
    proof {
        assert(ws.micro@ =~= m.cluster_micro(g.live));
        assert(out.meshlets@ =~= m.descriptors(g.closed));
    }
    let mut k: usize = 0;
    while k < triangle_count
        invariant
            k <= triangle_count,
            triangle_count == m.triangle_count(),
            m == input.mesh(),
            ws.inv(m, g),
            out.holds(m, g.closed),
            g == m.grow(k as nat),
            g.placed.len() == k,
        decreases triangle_count - k,
    {
        let (best, first) = ws.scan(&input, Ghost(g));
        match best {
            Some(t) => {
                proof {
                    m.lemma_step_extend(g, t as int);
                }
                ws.place(&input, t, Ghost(g));
                proof {
                    g = g.extend(t as int);
                }
            },
            None => {
                let seed: u32 = match first {
                    Some(t) => {
                        proof {
                            m.lemma_step_neighbor(g, t as int);
                        }
                        t
                    },
                    None => {
                        let t: u32 = ws.first_unused(Ghost(m), Ghost(g));
                        proof {
                            m.lemma_step_fresh(g, t as int);
                        }
                        t
                    },
                };
                if ws.count > 0 {
                    ws.close(&mut out, &input, Ghost(g));
                } else {
                    assert(g.shut() == g);
                }
                proof {
                    m.lemma_cluster_vertices(seq![seed as int]);
                    assert(seq![seed as int].drop_last() =~= Seq::<int>::empty());
                }
                ws.place(&input, seed, Ghost(g.shut()));
                proof {
                    g = g.restart(seed as int);
                }
            },
        }
        k += 1;
    }
    if ws.count > 0 {
        ws.close(&mut out, &input, Ghost(g));
    }
    proof {
        let cs = m.clusters();
        let h = g.shut();
        assert(h.closed == cs);
        m.lemma_close_sound(g);
        m.lemma_all_placed(g);
        m.lemma_table_lengths(cs);
        m.lemma_layout_caps(cs);
        m.lemma_layout_tiles(cs);
        m.lemma_layout_reproduces(cs, g.placed);
        m.lemma_same_triangles();
    }
    Ok((out.meshlets, out.vertices, out.triangles))
}

/// A build is determined by its input: whatever two builds of one mesh
/// return agrees, refusal for refusal and output for output.
pub proof fn lemma_build_deterministic(
    m: Mesh,
    a: Result<(Vec<Meshlet>, Vec<u32>, Vec<u8>), InvalidArgument>,
    b: Result<(Vec<Meshlet>, Vec<u32>, Vec<u8>), InvalidArgument>,
)
    requires
        outcome(m, a),
        outcome(m, b),
    ensures
        same_outcome(a, b),
{
}

/// Marks a vertex that the live cluster does not hold.
const ABSENT: u8 = 255;

/// The caller's input, borrowed for the time of one build.
struct Input<'a> {
    indices: &'a [u32],
    normals: &'a [Normal],
    vertex_count: usize,
    max_vertices: usize,
    max_triangles: usize,
    cone_weight: u8,
}

impl<'a> Input<'a> {
    /// The input as a mathematical value.
    spec fn mesh(&self) -> Mesh {
        mesh_of(
            self.indices@,
            self.vertex_count,
            self.normals@,
            self.max_vertices,
            self.max_triangles,
            self.cone_weight,
        )
    }
}

/// The state of a build between two placements.
struct Workspace {
    /// For each vertex, its incident triangles.
    adj: Vec<Vec<u32>>,
    /// For each triangle, whether it is placed.
    used: Vec<bool>,
    /// For each vertex, its place in the live cluster's vertex list, or
    /// `ABSENT`.
    local: Vec<u8>,
    /// The live cluster's vertex list.
    verts: Vec<u32>,
    /// The live cluster's local indices.
    micro: Vec<u8>,
    /// The live cluster's triangle count.
    count: usize,
    /// The live cluster's summed normal.
    sx: i64,
    sy: i64,
    sz: i64,
    /// Every triangle below the cursor is placed.
    cursor: usize,
}

/// The three outputs of a build.
struct Output {
    meshlets: Vec<Meshlet>,
    vertices: Vec<u32>,
    triangles: Vec<u8>,
}

impl Output {
    /// Whether the outputs hold exactly the clusters `cs`.
    spec fn holds(&self, m: Mesh, cs: Seq<Seq<int>>) -> bool {
        &&& self.meshlets@ == m.descriptors(cs)
        &&& self.vertices@ == m.vertex_table(cs)
        &&& self.triangles@ == m.micro_table(cs)
    }
}

/// Whether `slot` says where vertex `v` stands in `vs`.
spec fn slot_of(slot: u8, vs: Seq<u32>, v: int) -> bool {
    if slot == ABSENT {
        v > u32::MAX || !vs.contains(v as u32)
    } else {
        slot < vs.len() && vs[slot as int] as int == v
    }
}

/// Whether the choices `best` and `first` account for triangle `u`: if it is
/// a neighbor, `first` is no higher; if it is a candidate, `best` precedes it.
spec fn settled(m: Mesh, g: Growth, best: Option<u32>, first: Option<u32>, u: int) -> bool {
    &&& m.neighbor(g, u) ==> (first matches Some(f) && f <= u)
    &&& m.candidate(g, u) ==> (best matches Some(b) && m.precedes(g, b as int, u))
}

/// What a scan has found so far: the best candidate with its cost, and the
/// lowest neighbor.
struct Choice {
    best: Option<u32>,
    best_cost: i64,
    first: Option<u32>,
}

impl Choice {
    /// Whether the choice names a candidate with its cost and a neighbor.
    spec fn fair(&self, m: Mesh, g: Growth) -> bool {
        &&& self.best matches Some(b) ==> m.candidate(g, b as int) && self.best_cost == m.cost(
            g.live,
            b as int,
        )
        &&& self.first matches Some(f) ==> m.neighbor(g, f as int)
    }
}

impl Workspace {
    /// Whether the workspace stands for the growth `g` of mesh `m`.
    spec fn inv(&self, m: Mesh, g: Growth) -> bool {
        &&& m.valid()
        &&& m.sound(g)
        &&& adjacency_of(m, self.adj@)
        &&& self.used@.len() == m.triangle_count()
        &&& forall|t: int|
            0 <= t < self.used@.len() ==> (#[trigger] self.used@[t] <==> g.placed.contains(t))
        &&& self.local@.len() == m.vertex_count
        &&& forall|v: int|
            0 <= v < self.local@.len() ==> slot_of(#[trigger] self.local@[v], self.verts@, v)
        &&& self.verts@ == m.cluster_vertices(g.live)
        &&& forall|i: int| 0 <= i < self.verts@.len() ==> (#[trigger] self.verts@[i] as nat) < m.vertex_count
        &&& self.micro@ == m.cluster_micro(g.live)
        &&& self.count == g.live.len()
        &&& (Vector { x: self.sx as int, y: self.sy as int, z: self.sz as int })
            == m.normal_sum(g.live)
        &&& self.cursor <= m.triangle_count()
        &&& forall|t: int| 0 <= t < self.cursor ==> #[trigger] g.placed.contains(t)
    }

    /// Whether `local` tells, for each of `n` vertices, where it stands in
    /// the live cluster's vertex list.
    spec fn slots(&self, n: nat) -> bool {
        &&& self.local@.len() == n
        &&& self.verts@.no_duplicates()
        &&& forall|v: int|
            0 <= v < self.local@.len() ==> slot_of(#[trigger] self.local@[v], self.verts@, v)
    }

    /// Whether `best` and `first` account for every triangle listed under
    /// the first `i` vertices of the live cluster and for the first `j`
    /// triangles listed under the next one.
    spec fn scanned(&self, m: Mesh, g: Growth, best: Option<u32>, first: Option<u32>, i: int, j: int) -> bool {
        forall|i2: int, j2: int|
            0 <= i2 < self.verts@.len() && 0 <= j2 < self.adj@[self.verts@[i2] as int]@.len() && (i2 < i || (i2 == i
                && j2 < j)) ==> settled(
                m,
                g,
                best,
                first,
                #[trigger] self.adj@[self.verts@[i2] as int]@[j2] as int,
            )
    }

    /// Tells whether the live cluster can take triangle `t`, and at what
    /// cost.
    fn appraise(&self, input: &Input, t: u32, Ghost(g): Ghost<Growth>) -> (r: (bool, i64))
        requires
            self.inv(input.mesh(), g),
            input.mesh().has_triangle(t as int),
        ensures
            r.0 == input.mesh().fits(g.live, t as int),
            r.1 == input.mesh().cost(g.live, t as int),
    {
        let ghost m = input.mesh();
        let ghost vs = self.verts@;
        let p: usize = 3 * (t as usize);
        let a: u32 = input.indices[p];
        let b: u32 = input.indices[p + 1];
        let c: u32 = input.indices[p + 2];
        proof {
            assert((m.indices[p as int] as nat) < m.vertex_count);
            assert((m.indices[p + 1] as nat) < m.vertex_count);
            assert((m.indices[p + 2] as nat) < m.vertex_count);
            assert(slot_of(self.local@[a as int], vs, a as int));
            assert(slot_of(self.local@[b as int], vs, b as int));
            assert(slot_of(self.local@[c as int], vs, c as int));
            m.lemma_cluster_vertices(g.live);
            m.lemma_extra(vs, t as int);
            m.lemma_normal_sum_bound(g.live);
        }
        let mut extra: i64 = 0;
        if self.local[a as usize] == ABSENT {
            extra += 1;
        }
        if self.local[b as usize] == ABSENT && b != a {
            extra += 1;
        }
        if self.local[c as usize] == ABSENT && c != a && c != b {
            extra += 1;
        }
        assert(extra == m.extra(vs, t as int));
        let fits: bool = self.count < input.max_triangles && self.verts.len() + (extra as usize)
            <= input.max_vertices;
        let n: Normal = input.normals[t as usize];
        let count: i64 = self.count as i64;
        let base: i64 = VERTEX_UNIT * count;
        let (sx, sy, sz) = (self.sx, self.sy, self.sz);
        let (nx, ny, nz) = (n.x as i64, n.y as i64, n.z as i64);
        assert(-2064384 <= sx * nx <= 2064384 && -2064384 <= sy * ny <= 2064384 && -2064384 <= sz
            * nz <= 2064384) by (nonlinear_arith)
            requires
                -16128 <= sx <= 16128,
                -16128 <= sy <= 16128,
                -16128 <= sz <= 16128,
                -128 <= nx <= 127,
                -128 <= ny <= 127,
                -128 <= nz <= 127,
        ;
        let dot: i64 = sx * nx + sy * ny + sz * nz;
        let spread: i64 = count * NORMAL_UNIT - dot;
        assert(0 <= base * extra <= 3 * base) by (nonlinear_arith)
            requires
                0 <= base,
                0 <= extra <= 3,
        ;
        let w: i64 = input.cone_weight as i64;
        assert(-255 * 12386304 <= w * spread <= 255 * 12386304) by (nonlinear_arith)
            requires
                0 <= w <= 255,
                -12386304 <= spread <= 12386304,
        ;
        let cost: i64 = base * extra + w * spread;
        (fits, cost)
    }

    /// Takes triangle `t`, which touches the live cluster, into account.
    fn consider(&self, input: &Input, t: u32, choice: Choice, Ghost(g): Ghost<Growth>) -> (r: Choice)
        requires
            self.inv(input.mesh(), g),
            input.mesh().has_triangle(t as int),
            input.mesh().touches(self.verts@, t as int),
            choice.fair(input.mesh(), g),
        ensures
            r.fair(input.mesh(), g),
            settled(input.mesh(), g, r.best, r.first, t as int),
            forall|u: int|
                settled(input.mesh(), g, choice.best, choice.first, u) ==> settled(
                    input.mesh(),
                    g,
                    r.best,
                    r.first,
                    u,
                ),
    {
        let ghost m = input.mesh();
        let mut r = choice;
        if !self.used[t as usize] {
            assert(m.neighbor(g, t as int));
            let lower: bool = match r.first {
                Some(f) => t < f,
                None => true,
            };
            if lower {
                r.first = Some(t);
            }
            let (fits, cost) = self.appraise(input, t, Ghost(g));
            if fits {
                let better: bool = match r.best {
                    Some(b) => cost < r.best_cost || (cost == r.best_cost && t < b),
                    None => true,
                };
                if better {
                    r.best = Some(t);
                    r.best_cost = cost;
                }
            }
        }
        r
    }

    /// Once every vertex of the live cluster is scanned, every triangle of
    /// the mesh is accounted for.
    proof fn lemma_scan_complete(&self, m: Mesh, g: Growth, best: Option<u32>, first: Option<u32>)
        requires
            self.inv(m, g),
            self.scanned(m, g, best, first, self.verts@.len() as int, 0),
        ensures
            forall|u: int| settled(m, g, best, first, u),
    {
        assert forall|u: int| settled(m, g, best, first, u) by {
            if m.neighbor(g, u) {
                let vs = self.verts@;
                let k: int = if vs.contains(m.corner(u, 0)) {
                    0
                } else if vs.contains(m.corner(u, 1)) {
                    1
                } else {
                    2
                };
                let w = m.corner(u, k);
                assert(vs.contains(w));
                let i2 = choose|i2: int| 0 <= i2 < vs.len() && vs[i2] == w;
                let p: int = 3 * u + k;
                assert(m.indices[p] == w);
                assert(p / 3 == u);
                assert(self.adj@[m.indices[p] as int]@.contains((p / 3) as u32));
                let row = self.adj@[w as int]@;
                let j2 = choose|j2: int| 0 <= j2 < row.len() && row[j2] == u as u32;
                assert(settled(m, g, best, first, self.adj@[vs[i2] as int]@[j2] as int));
            }
        }
    }

    /// Finds the live cluster's best candidate and its lowest neighbor.
    fn scan(&self, input: &Input, Ghost(g): Ghost<Growth>) -> (r: (Option<u32>, Option<u32>))
        requires
            self.inv(input.mesh(), g),
        ensures
            match r.0 {
                Some(t) => input.mesh().is_best(g, t as int),
                None => !input.mesh().has_candidate(g),
            },
            match r.1 {
                Some(t) => input.mesh().is_first_neighbor(g, t as int),
                None => !input.mesh().has_neighbor(g),
            },
    {
        let ghost m = input.mesh();
        let mut best: Option<u32> = None;
        let mut best_cost: i64 = 0;
        let mut first: Option<u32> = None;
        let mut i: usize = 0;
        while i < self.verts.len()
            invariant
                self.inv(m, g),
                m == input.mesh(),
                i <= self.verts.len(),
                best matches Some(b) ==> m.candidate(g, b as int) && best_cost == m.cost(g.live, b as int),
                first matches Some(f) ==> m.neighbor(g, f as int),
                self.scanned(m, g, best, first, i as int, 0),
            decreases self.verts.len() - i,
        {
            let v: usize = self.verts[i] as usize;
            assert((self.verts@[i as int] as nat) < m.vertex_count);
            let mut j: usize = 0;
            while j < self.adj[v].len()
                invariant
                    self.inv(m, g),
                    m == input.mesh(),
                    i < self.verts.len(),
                    v == self.verts@[i as int],
                    v < self.adj.len(),
                    j <= self.adj@[v as int]@.len(),
                    best matches Some(b) ==> m.candidate(g, b as int) && best_cost == m.cost(
                        g.live,
                        b as int,
                    ),
                    first matches Some(f) ==> m.neighbor(g, f as int),
                    self.scanned(m, g, best, first, i as int, j as int),
                decreases self.adj@[v as int]@.len() - j,
            {
                let t: u32 = self.adj[v][j];
                proof {
                    assert(m.has_triangle(self.adj@[v as int]@[j as int] as int));
                    assert(m.has_corner(t as int, v as u32));
                    assert(self.verts@.contains(v as u32));
                }
                let ghost old_choice = Choice { best, best_cost, first };
                let choice = self.consider(input, t, Choice { best, best_cost, first }, Ghost(g));
                best = choice.best;
                best_cost = choice.best_cost;
                first = choice.first;
                proof {
                    assert forall|i2: int, j2: int|
                        0 <= i2 < self.verts@.len() && 0 <= j2 < self.adj@[self.verts@[i2] as int]@.len() && (i2
                            < i || (i2 == i && j2 < j + 1)) implies settled(
                        m,
                        g,
                        best,
                        first,
                        #[trigger] self.adj@[self.verts@[i2] as int]@[j2] as int,
                    ) by {
                        let u = self.adj@[self.verts@[i2] as int]@[j2] as int;
                        if i2 == i && j2 == j {
                        } else {
                            assert(settled(m, g, old_choice.best, old_choice.first, u));
                        }
                    }
                }
                j += 1;
            }
            i += 1;
        }
        proof {
            self.lemma_scan_complete(m, g, best, first);
            if let Some(b) = best {
                assert forall|u: int| #[trigger] m.candidate(g, u) implies m.precedes(g, b as int, u) by {
                    assert(settled(m, g, best, first, u));
                }
            } else {
                assert forall|u: int| !m.candidate(g, u) by {
                    assert(settled(m, g, best, first, u));
                }
            }
            if let Some(f) = first {
                assert forall|u: int| #[trigger] m.neighbor(g, u) implies f as int <= u by {
                    assert(settled(m, g, best, first, u));
                }
            } else {
                assert forall|u: int| !m.neighbor(g, u) by {
                    assert(settled(m, g, best, first, u));
                }
            }
        }
        (best, first)
    }

    /// Enters vertex `v` into the live cluster's vertex list, unless it is
    /// there, and writes its place to the local indices.
    fn take_corner(&mut self, v: u32, Ghost(n): Ghost<nat>)
        requires
            old(self).slots(n),
            (v as nat) < n,
            push_unique(old(self).verts@, v).len() <= 64,
        ensures
            final(self).slots(n),
            final(self).verts@ == push_unique(old(self).verts@, v),
            final(self).micro@ == old(self).micro@.push(position(final(self).verts@, v) as u8),
            final(self).adj == old(self).adj,
            final(self).used == old(self).used,
            final(self).count == old(self).count,
            final(self).sx == old(self).sx,
            final(self).sy == old(self).sy,
            final(self).sz == old(self).sz,
            final(self).cursor == old(self).cursor,
    {
        let ghost before = self.verts@;
        let ghost slots_before = self.local@;
        proof {
            lemma_push_unique(before, v);
            assert(slot_of(self.local@[v as int], before, v as int));
        }
        if self.local[v as usize] == ABSENT {
            let place: u8 = self.verts.len() as u8;
            self.local[v as usize] = place;
            self.verts.push(v);
            proof {
                assert(self.verts@[place as int] == v);
                assert forall|w: int| 0 <= w < self.local@.len() implies slot_of(
                    #[trigger] self.local@[w],
                    self.verts@,
                    w,
                ) by {
                    if w != v as int {
                        assert(self.local@[w] == slots_before[w]);
                        assert(slot_of(slots_before[w], before, w));
                        if slots_before[w] != ABSENT {
                            assert(self.verts@[slots_before[w] as int] == before[slots_before[w] as int]);
                        }
                    }
                }
            }
        }
        let slot: u8 = self.local[v as usize];
        proof {
            assert(slot_of(slot, self.verts@, v as int));
            lemma_position(self.verts@, v, slot as int);
        }
        self.micro.push(slot);
    }

    /// The live cluster takes triangle `t`.
    fn place(&mut self, input: &Input, t: u32, Ghost(g): Ghost<Growth>)
        requires
            old(self).inv(input.mesh(), g),
            input.mesh().unused(g, t as int),
            input.mesh().fits(g.live, t as int),
        ensures
            final(self).inv(input.mesh(), g.extend(t as int)),
    {
        let ghost m = input.mesh();
        let ghost h = g.extend(t as int);
        let ghost vs = self.verts@;
        let p: usize = 3 * (t as usize);
        let a: u32 = input.indices[p];
        let b: u32 = input.indices[p + 1];
        let c: u32 = input.indices[p + 2];
        let n: Normal = input.normals[t as usize];
        proof {
            assert((m.indices[p as int] as nat) < m.vertex_count);
            assert((m.indices[p + 1] as nat) < m.vertex_count);
            assert((m.indices[p + 2] as nat) < m.vertex_count);
            m.lemma_cluster_vertices(g.live);
            m.lemma_with_triangle(vs, t as int);
            lemma_push_unique(vs, a);
            lemma_push_unique(push_unique(vs, a), b);
            lemma_push_unique(push_unique(push_unique(vs, a), b), c);
            m.lemma_normal_sum_bound(g.live);
            m.lemma_normal_sum_push(g.live, t as int);
            m.lemma_vertices_push(g.live, t as int);
            m.lemma_micro_push(g.live, t as int);
            m.lemma_extend_sound(g, t as int);
        }
        self.take_corner(a, Ghost(m.vertex_count));
        let ghost va = self.verts@;
        self.take_corner(b, Ghost(m.vertex_count));
        let ghost vb = self.verts@;
        self.take_corner(c, Ghost(m.vertex_count));
        let ghost vc = self.verts@;
        self.used[t as usize] = true;
        self.count = self.count + 1;
        self.sx = self.sx + n.x as i64;
        self.sy = self.sy + n.y as i64;
        self.sz = self.sz + n.z as i64;
        proof {
            assert(vc == m.cluster_vertices(h.live));
            assert(va.contains(a) && vb.contains(b) && vc.contains(c));
            lemma_position_prefix(va, vc, a);
            lemma_position_prefix(vb, vc, b);
            assert(self.micro@ =~= m.cluster_micro(h.live));
            assert forall|u: int| 0 <= u < self.used@.len() implies (#[trigger] self.used@[u]
                <==> h.placed.contains(u)) by {
                if u == t as int {
                    assert(h.placed[g.placed.len() as int] == u);
                } else {
                    assert(self.used@[u] == old(self).used@[u]);
                    if g.placed.contains(u) {
                        let q = choose|q: int| 0 <= q < g.placed.len() && g.placed[q] == u;
                        assert(h.placed[q] == u);
                    }
                    if h.placed.contains(u) {
                        let q = choose|q: int| 0 <= q < h.placed.len() && h.placed[q] == u;
                        assert(g.placed[q] == u);
                    }
                }
            }
            assert forall|u: int| 0 <= u < self.cursor implies #[trigger] h.placed.contains(u) by {
                assert(g.placed.contains(u));
                let q = choose|q: int| 0 <= q < g.placed.len() && g.placed[q] == u;
                assert(h.placed[q] == u);
            }
            assert forall|i: int| 0 <= i < vc.len() implies (#[trigger] vc[i] as nat) < m.vertex_count by {
                if i >= vs.len() {
                    assert(vc.contains(vc[i]));
                    assert(m.has_corner(t as int, vc[i]));
                } else {
                    assert(vc[i] == vs[i]);
                }
            }
        }
    }

    /// Forgets the live cluster's vertices: afterwards no vertex has a
    /// place.
    fn clear_slots(&mut self, Ghost(n): Ghost<nat>)
        requires
            old(self).slots(n),
            forall|i: int| 0 <= i < old(self).verts@.len() ==> (#[trigger] old(self).verts@[i] as nat) < n,
        ensures
            final(self).local@.len() == n,
            forall|v: int| 0 <= v < n ==> #[trigger] final(self).local@[v] == ABSENT,
            final(self).verts == old(self).verts,
            final(self).micro == old(self).micro,
            final(self).adj == old(self).adj,
            final(self).used == old(self).used,
            final(self).count == old(self).count,
            final(self).sx == old(self).sx,
            final(self).sy == old(self).sy,
            final(self).sz == old(self).sz,
            final(self).cursor == old(self).cursor,
    {
        let mut i: usize = 0;
        while i < self.verts.len()
            invariant
                i <= self.verts.len(),
                self.local@.len() == n,
                self.verts == old(self).verts,
                self.micro == old(self).micro,
                self.adj == old(self).adj,
                self.used == old(self).used,
                self.count == old(self).count,
                self.sx == old(self).sx,
                self.sy == old(self).sy,
                self.sz == old(self).sz,
                self.cursor == old(self).cursor,
                forall|i: int| 0 <= i < self.verts@.len() ==> (#[trigger] self.verts@[i] as nat) < n,
                forall|v: int|
                    0 <= v < n && #[trigger] self.local@[v] != ABSENT ==> i <= self.local@[v]
                        < self.verts@.len() && self.verts@[self.local@[v] as int] as int == v,
            decreases self.verts.len() - i,
        {
            let v: usize = self.verts[i] as usize;
            self.local[v] = ABSENT;
            i += 1;
        }
    }

    /// Closes the live cluster: its descriptor, vertex list and local
    /// indices go to the outputs.
    fn close(&mut self, out: &mut Output, input: &Input, Ghost(g): Ghost<Growth>)
        requires
            old(self).inv(input.mesh(), g),
            old(out).holds(input.mesh(), g.closed),
            g.live.len() > 0,
        ensures
            final(self).inv(input.mesh(), g.shut()),
            final(out).holds(input.mesh(), g.shut().closed),
    {
        let ghost m = input.mesh();
        proof {
            m.lemma_table_lengths(g.closed);
            m.lemma_tables_push(g.closed, g.live);
            m.lemma_cluster_vertices(g.live);
            m.lemma_placed_count(g);
            m.lemma_close_sound(g);
        }
        let meshlet = Meshlet {
            vertex_offset: out.vertices.len() as u32,
            vertex_count: self.verts.len() as u32,
            triangle_offset: out.triangles.len() as u32,
            triangle_count: self.count as u32,
        };
        out.meshlets.push(meshlet);
        self.clear_slots(Ghost(m.vertex_count));
        out.vertices.append(&mut self.verts);
        out.triangles.append(&mut self.micro);
        self.count = 0;
        self.sx = 0;
        self.sy = 0;
        self.sz = 0;
        proof {
            let h = g.shut();
            assert(self.micro@ =~= m.cluster_micro(h.live));
            assert(self.verts@ =~= m.cluster_vertices(h.live));
        }
    }

    /// Finds the unplaced triangle of lowest index.
    fn first_unused(&mut self, Ghost(m): Ghost<Mesh>, Ghost(g): Ghost<Growth>) -> (t: u32)
        requires
            old(self).inv(m, g),
            g.placed.len() < m.triangle_count(),
        ensures
            final(self).inv(m, g),
            m.is_first_unused(g, t as int),
    {
        proof {
            m.lemma_some_unused(g);
        }
        while self.used[self.cursor]
            invariant
                self.inv(m, g),
                exists|t: int| m.unused(g, t),
                self.cursor < m.triangle_count(),
            decreases m.triangle_count() - self.cursor,
        {
            self.cursor = self.cursor + 1;
            proof {
                if self.cursor == m.triangle_count() {
                    let t = choose|t: int| m.unused(g, t);
                    assert(g.placed.contains(t));
                }
            }
        }
        self.cursor as u32
    }
}

/// A vector of `n` copies of `value`.
fn filled<T: Copy>(value: T, n: usize) -> (v: Vec<T>)
    ensures
        v@.len() == n,
        forall|i: int| 0 <= i < n ==> #[trigger] v@[i] == value,
{
    let mut v: Vec<T> = Vec::new();
    let mut i: usize = 0;
    while i < n
        invariant
            i <= n,
            v@.len() == i,
            forall|j: int| 0 <= j < i ==> #[trigger] v@[j] == value,
        decreases n - i,
    {
        v.push(value);
        i += 1;
    }
    v
}

}
