use meshlets::builder::build_meshlets_with_normals;
use meshlets::mesh::{InvalidArgument, Meshlet, Normal};

const UP: Normal = Normal { x: 0, y: 0, z: 127 };
const DOWN: Normal = Normal { x: 0, y: 0, z: -127 };

fn cube_indices() -> Vec<u32> {
    vec![
        0, 2, 1, 1, 2, 3, // z = 0
        4, 5, 6, 5, 7, 6, // z = 1
        0, 1, 4, 1, 5, 4, // y = 0
        2, 6, 3, 3, 6, 7, // y = 1
        0, 4, 2, 2, 4, 6, // x = 0
        1, 3, 5, 3, 7, 5, // x = 1
    ]
}

fn cube_normals() -> Vec<Normal> {
    let faces = [
        Normal { x: 0, y: 0, z: -127 },
        Normal { x: 0, y: 0, z: 127 },
        Normal { x: 0, y: -127, z: 0 },
        Normal { x: 0, y: 127, z: 0 },
        Normal { x: -127, y: 0, z: 0 },
        Normal { x: 127, y: 0, z: 0 },
    ];
    let mut normals = Vec::new();
    for face in faces {
        normals.push(face);
        normals.push(face);
    }
    normals
}

fn sorted_triangles_of_input(indices: &[u32]) -> Vec<[u32; 3]> {
    let mut triangles: Vec<[u32; 3]> = indices.chunks(3).map(|c| [c[0], c[1], c[2]]).collect();
    triangles.sort();
    triangles
}

fn sorted_triangles_of_output(meshlets: &[Meshlet], vertices: &[u32], micro: &[u8]) -> Vec<[u32; 3]> {
    let mut triangles = Vec::new();
    for m in meshlets {
        for j in 0..m.triangle_count as usize {
            let at = m.triangle_offset as usize + 3 * j;
            let corner = |k: usize| vertices[m.vertex_offset as usize + micro[at + k] as usize];
            triangles.push([corner(0), corner(1), corner(2)]);
        }
    }
    triangles.sort();
    triangles
}

#[test]
fn no_triangles_no_meshlets() {
    let (meshlets, vertices, triangles) = build_meshlets_with_normals(&[], 0, &[], 64, 126, 0).unwrap();
    assert!(meshlets.is_empty());
    assert!(vertices.is_empty());
    assert!(triangles.is_empty());
}

#[test]
fn no_triangles_with_vertices_present() {
    let (meshlets, vertices, triangles) = build_meshlets_with_normals(&[], 17, &[], 3, 1, 255).unwrap();
    assert!(meshlets.is_empty());
    assert!(vertices.is_empty());
    assert!(triangles.is_empty());
}

#[test]
fn single_triangle_single_meshlet() {
    let (meshlets, vertices, triangles) = build_meshlets_with_normals(&[0, 1, 2], 3, &[UP], 64, 126, 128).unwrap();
    assert_eq!(
        meshlets,
        vec![Meshlet { vertex_offset: 0, vertex_count: 3, triangle_offset: 0, triangle_count: 1 }]
    );
    assert_eq!(vertices, vec![0, 1, 2]);
    assert_eq!(triangles, vec![0, 1, 2]);
}

#[test]
fn single_triangle_keeps_corner_order() {
    let (meshlets, vertices, triangles) = build_meshlets_with_normals(&[7, 2, 5], 9, &[UP], 64, 126, 0).unwrap();
    assert_eq!(meshlets.len(), 1);
    assert_eq!(meshlets[0].vertex_count, 3);
    assert_eq!(meshlets[0].triangle_count, 1);
    assert_eq!(vertices, vec![7, 2, 5]);
    assert_eq!(triangles, vec![0, 1, 2]);
}

#[test]
fn triangle_with_repeated_corner_lists_vertex_once() {
    let (meshlets, vertices, triangles) = build_meshlets_with_normals(&[4, 4, 1], 5, &[Normal { x: 0, y: 0, z: 0 }], 64, 126, 9)
        .unwrap();
    assert_eq!(
        meshlets,
        vec![Meshlet { vertex_offset: 0, vertex_count: 2, triangle_offset: 0, triangle_count: 1 }]
    );
    assert_eq!(vertices, vec![4, 1]);
    assert_eq!(triangles, vec![0, 0, 1]);
}

#[test]
fn unit_cube_is_one_meshlet() {
    let indices = cube_indices();
    let (meshlets, vertices, triangles) = build_meshlets_with_normals(&indices, 8, &cube_normals(), 64, 126, 128).unwrap();
    assert_eq!(
        meshlets,
        vec![Meshlet { vertex_offset: 0, vertex_count: 8, triangle_offset: 0, triangle_count: 12 }]
    );
    assert_eq!(vertices.len(), 8);
    assert_eq!(triangles.len(), 36);
    let mut seen = vertices.clone();
    seen.sort();
    assert_eq!(seen, vec![0, 1, 2, 3, 4, 5, 6, 7]);
    assert_eq!(
        sorted_triangles_of_output(&meshlets, &vertices, &triangles),
        sorted_triangles_of_input(&indices)
    );
}

#[test]
fn two_triangles_sharing_an_edge_share_a_meshlet() {
    let (meshlets, vertices, triangles) = build_meshlets_with_normals(&[0, 1, 2, 2, 1, 3], 4, &[UP, UP], 64, 126, 0).unwrap();
    assert_eq!(
        meshlets,
        vec![Meshlet { vertex_offset: 0, vertex_count: 4, triangle_offset: 0, triangle_count: 2 }]
    );
    assert_eq!(vertices, vec![0, 1, 2, 3]);
    assert_eq!(triangles, vec![0, 1, 2, 2, 1, 3]);
}

#[test]
fn vertex_cap_splits_neighbors() {
    let (meshlets, vertices, triangles) = build_meshlets_with_normals(&[0, 1, 2, 2, 1, 3], 4, &[UP, UP], 3, 126, 0).unwrap();
    assert_eq!(
        meshlets,
        vec![
            Meshlet { vertex_offset: 0, vertex_count: 3, triangle_offset: 0, triangle_count: 1 },
            Meshlet { vertex_offset: 3, vertex_count: 3, triangle_offset: 3, triangle_count: 1 },
        ]
    );
    assert_eq!(vertices, vec![0, 1, 2, 2, 1, 3]);
    assert_eq!(triangles, vec![0, 1, 2, 0, 1, 2]);
}

#[test]
fn triangle_cap_splits_neighbors() {
    let (meshlets, vertices, triangles) = build_meshlets_with_normals(&[0, 1, 2, 2, 1, 3], 4, &[UP, UP], 64, 1, 0).unwrap();
    assert_eq!(
        meshlets,
        vec![
            Meshlet { vertex_offset: 0, vertex_count: 3, triangle_offset: 0, triangle_count: 1 },
            Meshlet { vertex_offset: 3, vertex_count: 3, triangle_offset: 3, triangle_count: 1 },
        ]
    );
    assert_eq!(vertices, vec![0, 1, 2, 2, 1, 3]);
    assert_eq!(triangles, vec![0, 1, 2, 0, 1, 2]);
}

#[test]
fn triangles_without_common_vertex_get_a_meshlet_each() {
    let indices: Vec<u32> = (0..15).collect();
    let normals = vec![UP; 5];
    let (meshlets, vertices, triangles) = build_meshlets_with_normals(&indices, 15, &normals, 64, 126, 77).unwrap();
    assert_eq!(meshlets.len(), 5);
    for (i, m) in meshlets.iter().enumerate() {
        assert_eq!(
            *m,
            Meshlet {
                vertex_offset: 3 * i as u32,
                vertex_count: 3,
                triangle_offset: 3 * i as u32,
                triangle_count: 1,
            }
        );
    }
    assert_eq!(vertices, indices);
    assert_eq!(triangles, vec![0, 1, 2, 0, 1, 2, 0, 1, 2, 0, 1, 2, 0, 1, 2]);
}

#[test]
fn fewer_new_vertices_win_without_cone_weight() {
    // Triangle 1 brings two new vertices, triangle 2 only one.
    let indices = [0, 1, 2, 2, 3, 4, 1, 2, 5];
    let (meshlets, vertices, triangles) = build_meshlets_with_normals(&indices, 6, &[UP, UP, UP], 64, 2, 0).unwrap();
    assert_eq!(
        meshlets,
        vec![
            Meshlet { vertex_offset: 0, vertex_count: 4, triangle_offset: 0, triangle_count: 2 },
            Meshlet { vertex_offset: 4, vertex_count: 3, triangle_offset: 6, triangle_count: 1 },
        ]
    );
    assert_eq!(vertices, vec![0, 1, 2, 5, 2, 3, 4]);
    assert_eq!(triangles, vec![0, 1, 2, 1, 2, 3, 0, 1, 2]);
}

#[test]
fn equal_cost_goes_to_lower_triangle() {
    // Both neighbors bring one new vertex; their normals differ, but the
    // cone weight is zero.
    let indices = [0, 1, 2, 0, 1, 3, 1, 2, 4];
    let (meshlets, vertices, triangles) = build_meshlets_with_normals(&indices, 5, &[UP, DOWN, UP], 64, 2, 0).unwrap();
    assert_eq!(
        meshlets,
        vec![
            Meshlet { vertex_offset: 0, vertex_count: 4, triangle_offset: 0, triangle_count: 2 },
            Meshlet { vertex_offset: 4, vertex_count: 3, triangle_offset: 6, triangle_count: 1 },
        ]
    );
    assert_eq!(vertices, vec![0, 1, 2, 3, 1, 2, 4]);
    assert_eq!(triangles, vec![0, 1, 2, 0, 1, 3, 0, 1, 2]);
}

#[test]
fn cone_weight_prefers_agreeing_normal() {
    let indices = [0, 1, 2, 0, 1, 3, 1, 2, 4];
    let (meshlets, vertices, triangles) = build_meshlets_with_normals(&indices, 5, &[UP, DOWN, UP], 64, 2, 255).unwrap();
    assert_eq!(
        meshlets,
        vec![
            Meshlet { vertex_offset: 0, vertex_count: 4, triangle_offset: 0, triangle_count: 2 },
            Meshlet { vertex_offset: 4, vertex_count: 3, triangle_offset: 6, triangle_count: 1 },
        ]
    );
    assert_eq!(vertices, vec![0, 1, 2, 4, 0, 1, 3]);
    assert_eq!(triangles, vec![0, 1, 2, 1, 2, 3, 0, 1, 2]);
}

#[test]
fn smallest_cone_weight_breaks_a_tie_of_vertices() {
    let indices = [0, 1, 2, 0, 1, 3, 1, 2, 4];
    let (_, vertices, _) = build_meshlets_with_normals(&indices, 5, &[UP, DOWN, UP], 64, 2, 1).unwrap();
    assert_eq!(vertices, vec![0, 1, 2, 4, 0, 1, 3]);
}

#[test]
fn new_vertex_outweighs_opposed_normal() {
    // Triangle 1 brings one new vertex and faces the other way; triangle 2
    // agrees with the cluster but brings two.
    let indices = [0, 1, 2, 0, 1, 3, 2, 4, 5];
    let (_, vertices, _) = build_meshlets_with_normals(&indices, 6, &[UP, DOWN, UP], 64, 2, 255).unwrap();
    assert_eq!(vertices, vec![0, 1, 2, 3, 2, 4, 5]);
}

#[test]
fn next_meshlet_starts_at_lowest_neighbor() {
    // After the first meshlet is full, triangle 3 touches it, and the
    // lower triangle 2 does not.
    let indices = [0, 1, 2, 10, 11, 12, 2, 3, 4];
    let (meshlets, vertices, _) = build_meshlets_with_normals(&indices, 13, &[UP, UP, UP], 64, 1, 0).unwrap();
    assert_eq!(meshlets.len(), 3);
    assert_eq!(vertices, vec![0, 1, 2, 2, 3, 4, 10, 11, 12]);
}

#[test]
fn next_meshlet_falls_back_to_lowest_unplaced() {
    let indices = [0, 1, 2, 20, 21, 22, 10, 11, 12];
    let (meshlets, vertices, _) = build_meshlets_with_normals(&indices, 23, &[UP, UP, UP], 64, 126, 0).unwrap();
    assert_eq!(meshlets.len(), 3);
    assert_eq!(vertices, vec![0, 1, 2, 20, 21, 22, 10, 11, 12]);
}

#[test]
fn rejects_vertex_limit_above_maximum() {
    assert_eq!(build_meshlets_with_normals(&[0, 1, 2], 3, &[UP], 65, 126, 0), Err(InvalidArgument::VertexLimit));
}

#[test]
fn rejects_vertex_limit_below_a_triangle() {
    assert_eq!(build_meshlets_with_normals(&[0, 1, 2], 3, &[UP], 2, 126, 0), Err(InvalidArgument::VertexLimit));
}

#[test]
fn rejects_triangle_limit_above_maximum() {
    assert_eq!(build_meshlets_with_normals(&[0, 1, 2], 3, &[UP], 64, 127, 0), Err(InvalidArgument::TriangleLimit));
}

#[test]
fn rejects_triangle_limit_of_zero() {
    assert_eq!(build_meshlets_with_normals(&[0, 1, 2], 3, &[UP], 64, 0, 0), Err(InvalidArgument::TriangleLimit));
}

#[test]
fn rejects_partial_triangle() {
    assert_eq!(build_meshlets_with_normals(&[0, 1, 2, 0], 3, &[UP], 64, 126, 0), Err(InvalidArgument::IndexCount));
}

#[test]
fn rejects_missing_normal() {
    assert_eq!(build_meshlets_with_normals(&[0, 1, 2, 2, 1, 3], 4, &[UP], 64, 126, 0), Err(InvalidArgument::NormalCount));
}

#[test]
fn rejects_surplus_normal() {
    assert_eq!(build_meshlets_with_normals(&[0, 1, 2], 3, &[UP, UP], 64, 126, 0), Err(InvalidArgument::NormalCount));
}

#[test]
fn rejects_index_beyond_vertices() {
    assert_eq!(build_meshlets_with_normals(&[0, 1, 3], 3, &[UP], 64, 126, 0), Err(InvalidArgument::IndexRange));
}

#[test]
fn vertex_limit_is_reported_before_other_defects() {
    assert_eq!(build_meshlets_with_normals(&[0, 9], 3, &[], 100, 0, 0), Err(InvalidArgument::VertexLimit));
}

#[test]
fn triangle_limit_is_reported_before_index_defects() {
    assert_eq!(build_meshlets_with_normals(&[0, 9], 3, &[], 64, 0, 0), Err(InvalidArgument::TriangleLimit));
}

#[test]
fn accepts_the_extreme_caps() {
    assert!(build_meshlets_with_normals(&[0, 1, 2], 3, &[UP], 3, 1, 0).is_ok());
    assert!(build_meshlets_with_normals(&[0, 1, 2], 3, &[UP], 64, 126, 255).is_ok());
}
