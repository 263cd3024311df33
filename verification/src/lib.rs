//! Meshlets: the partition of a triangle mesh into small clusters with
//! bounded vertex and triangle counts, and bounding volumes for culling
//! such clusters.
//!
//! A build takes an index stream over vertices on a 16-bit grid and gives
//! meshlet descriptors, a shared vertex remap table and a shared buffer of
//! one-byte local indices. A bounds query takes a small cluster of
//! triangles, or one meshlet of a build, and gives a sphere around its
//! vertices and a cone around the normals of its triangles.
//!
//! - `mesh`, `grid`, `normal`, `limits`: the data, the arithmetic on the
//!   grid, unit normals, the caps and worst-case sizes.
//! - `validate`, `addressing`: the checks made at the boundary, and the
//!   way from a meshlet back to the vertices of the mesh.
//! - `model`: the clustering as mathematics; `builder`: the code that
//!   computes it; `adjacency`, `vertices`, `growth`, `encoding`: what the
//!   code rests on.
//! - `layout`, `reading`, `laws`: what holds of every build.
//! - `bounds`: the bounding volumes; `sphere`, `cone`, `extremes`: their
//!   parts.

pub mod mesh;
pub mod grid;
pub mod normal;
pub mod limits;
pub mod validate;
pub mod addressing;
pub mod model;
pub mod builder;
pub mod adjacency;
pub mod vertices;
pub mod growth;
pub mod encoding;
pub mod layout;
pub mod reading;
pub mod laws;
pub mod bounds;
pub mod sphere;
pub mod cone;
pub mod extremes;
