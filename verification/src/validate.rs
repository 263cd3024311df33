//! Structural checks made at the boundary, before any clustering.

use vstd::prelude::*;
use crate::limits::{MAX_MESHLET_TRIANGLES, MAX_MESHLET_VERTICES};
use crate::mesh::{all_below, index_defect, InvalidArgument, Mesh, Normal};

verus! {

/// The builder's input, as handed over by a caller, as a mathematical value.
pub open spec fn mesh_of(
    indices: Seq<u32>,
    vertex_count: usize,
    normals: Seq<Normal>,
    max_vertices: usize,
    max_triangles: usize,
    cone_weight: u8,
) -> Mesh {
    Mesh {
        indices,
        normals,
        vertex_count: vertex_count as nat,
        max_vertices: max_vertices as nat,
        max_triangles: max_triangles as nat,
        cone_weight: cone_weight as nat,
    }
}

/// Tells whether every index names one of `vertex_count` vertices.
pub fn indices_in_range(indices: &[u32], vertex_count: usize) -> (ok: bool)
    ensures
        ok == all_below(indices@, vertex_count as nat),
{
    let mut i: usize = 0;
    while i < indices.len()
        invariant
            i <= indices.len(),
            forall|p: int| 0 <= p < i ==> (#[trigger] indices@[p] as nat) < vertex_count,
        decreases indices.len() - i,
    {
        if indices[i] as usize >= vertex_count {
            return false;
        }
        i += 1;
    }
    true
}

/// Checks caps and index stream and names the first condition they break.
pub fn validate_indices(indices: &[u32], vertex_count: usize, max_vertices: usize, max_triangles: usize) -> (result:
    Result<(), InvalidArgument>)
    ensures
        match index_defect(indices@, vertex_count as nat, max_vertices as nat, max_triangles as nat) {
            Some(e) => result == Err::<(), InvalidArgument>(e),
            None => result.is_ok(),
        },
{
    if max_vertices < 3 || max_vertices > MAX_MESHLET_VERTICES {
        return Err(InvalidArgument::VertexLimit);
    }
    if max_triangles < 1 || max_triangles > MAX_MESHLET_TRIANGLES {
        return Err(InvalidArgument::TriangleLimit);
    }
    if indices.len() % 3 != 0 {
        return Err(InvalidArgument::IndexCount);
    }
    if indices.len() > u32::MAX as usize {
        return Err(InvalidArgument::IndexOverflow);
    }
    if !indices_in_range(indices, vertex_count) {
        return Err(InvalidArgument::IndexRange);
    }
    Ok(())
}

/// Checks the builder's input and names the first condition it breaks.
pub fn validate(
    indices: &[u32],
    vertex_count: usize,
    normals: &[Normal],
    max_vertices: usize,
    max_triangles: usize,
    cone_weight: u8,
) -> (result: Result<(), InvalidArgument>)
    ensures
        match mesh_of(indices@, vertex_count, normals@, max_vertices, max_triangles, cone_weight).defect() {
            Some(e) => result == Err::<(), InvalidArgument>(e),
            None => result.is_ok(),
        },
        result.is_ok() <==> mesh_of(
            indices@,
            vertex_count,
            normals@,
            max_vertices,
            max_triangles,
            cone_weight,
        ).valid(),
{
    match validate_indices(indices, vertex_count, max_vertices, max_triangles) {
        Err(e) => {
            return Err(e);
        },
        Ok(_) => {},
    }
    if normals.len() != indices.len() / 3 {
        return Err(InvalidArgument::NormalCount);
    }
    Ok(())
}

}
