use meshlets::addressing::{meshlet_indices, validate_cluster};
use meshlets::builder::build_meshlets_with_normals;
use meshlets::mesh::{InvalidArgument, Meshlet, Normal};
use meshlets::limits::{MAX_CLUSTER_TRIANGLES, MAX_MESHLET_TRIANGLES, MAX_MESHLET_VERTICES};
use meshlets::validate::{indices_in_range, validate, validate_indices};

#[test]
fn meshlet_resolves_through_both_tables() {
    let meshlet = Meshlet { vertex_offset: 2, vertex_count: 4, triangle_offset: 3, triangle_count: 2 };
    let vertices = [90, 91, 10, 11, 12, 13, 92];
    let micro = [9, 9, 9, 0, 1, 2, 2, 1, 3, 9];
    assert_eq!(meshlet_indices(&meshlet, &vertices, &micro), Ok(vec![10, 11, 12, 12, 11, 13]));
}

#[test]
fn empty_meshlet_resolves_to_nothing() {
    let meshlet = Meshlet { vertex_offset: 0, vertex_count: 0, triangle_offset: 0, triangle_count: 0 };
    assert_eq!(meshlet_indices(&meshlet, &[], &[]), Ok(vec![]));
}

#[test]
fn meshlet_beyond_vertex_table_is_refused() {
    let meshlet = Meshlet { vertex_offset: 2, vertex_count: 3, triangle_offset: 0, triangle_count: 1 };
    assert_eq!(meshlet_indices(&meshlet, &[0, 1, 2, 3], &[0, 1, 2]), Err(InvalidArgument::MeshletRange));
}

#[test]
fn meshlet_beyond_micro_buffer_is_refused() {
    let meshlet = Meshlet { vertex_offset: 0, vertex_count: 3, triangle_offset: 1, triangle_count: 1 };
    assert_eq!(meshlet_indices(&meshlet, &[0, 1, 2], &[0, 1, 2]), Err(InvalidArgument::MeshletRange));
}

#[test]
fn meshlet_with_huge_offsets_is_refused() {
    let meshlet = Meshlet {
        vertex_offset: u32::MAX,
        vertex_count: u32::MAX,
        triangle_offset: u32::MAX,
        triangle_count: u32::MAX,
    };
    assert_eq!(meshlet_indices(&meshlet, &[0, 1, 2], &[0, 1, 2]), Err(InvalidArgument::MeshletRange));
}

#[test]
fn local_index_beyond_vertex_range_is_refused() {
    let meshlet = Meshlet { vertex_offset: 0, vertex_count: 3, triangle_offset: 0, triangle_count: 1 };
    assert_eq!(meshlet_indices(&meshlet, &[0, 1, 2, 3], &[0, 1, 3]), Err(InvalidArgument::MeshletRange));
}

#[test]
fn built_meshlets_resolve_to_their_triangles() {
    let indices = [0, 1, 2, 2, 1, 3, 2, 3, 4, 4, 3, 5];
    let normals = vec![Normal { x: 0, y: 0, z: 127 }; 4];
    let (meshlets, vertices, micro) = build_meshlets_with_normals(&indices, 6, &normals, 4, 126, 0).unwrap();
    assert_eq!(meshlets.len(), 2);
    assert_eq!(meshlet_indices(&meshlets[0], &vertices, &micro), Ok(vec![0, 1, 2, 2, 1, 3]));
    assert_eq!(meshlet_indices(&meshlets[1], &vertices, &micro), Ok(vec![2, 3, 4, 4, 3, 5]));
}

#[test]
fn cluster_of_whole_triangles_in_range_is_accepted() {
    assert_eq!(validate_cluster(&[0, 1, 2, 2, 1, 3], 4), Ok(()));
    assert_eq!(validate_cluster(&[], 0), Ok(()));
}

#[test]
fn cluster_at_the_size_limit_is_accepted() {
    let indices = vec![0u32; 256 * 3];
    assert_eq!(validate_cluster(&indices, 1), Ok(()));
}

#[test]
fn cluster_above_the_size_limit_is_refused() {
    let indices = vec![0u32; 257 * 3];
    assert_eq!(validate_cluster(&indices, 1), Err(InvalidArgument::ClusterSize));
}

#[test]
fn cluster_with_partial_triangle_is_refused() {
    assert_eq!(validate_cluster(&[0, 1], 4), Err(InvalidArgument::IndexCount));
}

#[test]
fn cluster_with_index_out_of_range_is_refused() {
    assert_eq!(validate_cluster(&[0, 1, 4], 4), Err(InvalidArgument::IndexRange));
}

#[test]
fn indices_in_range_tells_range() {
    assert!(indices_in_range(&[], 0));
    assert!(indices_in_range(&[0, 4, 2], 5));
    assert!(!indices_in_range(&[0, 5, 2], 5));
    assert!(!indices_in_range(&[0], 0));
}

#[test]
fn validate_accepts_what_the_builder_accepts() {
    let up = Normal { x: 0, y: 0, z: 127 };
    assert_eq!(validate(&[0, 1, 2], 3, &[up], 64, 126, 0), Ok(()));
    assert_eq!(validate(&[0, 1, 2], 3, &[up], 64, 126, 255), Ok(()));
    assert_eq!(validate(&[0, 1, 2], 2, &[up], 64, 126, 0), Err(InvalidArgument::IndexRange));
    assert_eq!(validate(&[0, 1], 2, &[], 64, 126, 0), Err(InvalidArgument::IndexCount));
    assert_eq!(validate(&[], 0, &[up], 64, 126, 0), Err(InvalidArgument::NormalCount));
    assert_eq!(validate(&[], 0, &[], 1, 126, 0), Err(InvalidArgument::VertexLimit));
    assert_eq!(validate(&[], 0, &[], 3, 200, 0), Err(InvalidArgument::TriangleLimit));
}

#[test]
fn validate_indices_names_the_first_defect() {
    assert_eq!(validate_indices(&[0, 1, 2], 3, 64, 126), Ok(()));
    assert_eq!(validate_indices(&[0, 1, 2], 3, 3, 1), Ok(()));
    assert_eq!(validate_indices(&[0, 1, 9], 3, 2, 0), Err(InvalidArgument::VertexLimit));
    assert_eq!(validate_indices(&[0, 1, 9], 3, 3, 0), Err(InvalidArgument::TriangleLimit));
    assert_eq!(validate_indices(&[0, 1, 9, 1], 3, 3, 1), Err(InvalidArgument::IndexCount));
    assert_eq!(validate_indices(&[0, 1, 9], 3, 3, 1), Err(InvalidArgument::IndexRange));
}

#[test]
fn cluster_defects_come_in_order() {
    let long = vec![9u32; 257 * 3 + 1];
    assert_eq!(validate_cluster(&long, 1), Err(InvalidArgument::IndexCount));
    let whole = vec![9u32; 257 * 3];
    assert_eq!(validate_cluster(&whole, 1), Err(InvalidArgument::ClusterSize));
}

#[test]
fn limits_are_those_of_the_format() {
    assert_eq!(MAX_MESHLET_VERTICES, 64);
    assert_eq!(MAX_MESHLET_TRIANGLES, 126);
    assert_eq!(MAX_CLUSTER_TRIANGLES, 256);
}
