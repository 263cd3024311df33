use meshlets::builder::build_meshlets_with_normals;
use meshlets::limits::{build_meshlets_bound, build_meshlets_indices_bound, build_meshlets_vertices_bound};
use meshlets::mesh::{Meshlet, Normal};

/// A grid of `n` by `n` quads, two triangles each, with normals that tilt
/// from column to column.
fn grid(n: u32) -> (Vec<u32>, usize, Vec<Normal>) {
    let mut indices = Vec::new();
    let mut normals = Vec::new();
    let row = n + 1;
    for y in 0..n {
        for x in 0..n {
            let a = y * row + x;
            let b = a + 1;
            let c = a + row;
            let d = c + 1;
            indices.extend_from_slice(&[a, b, c, c, b, d]);
            let tilt = ((x * 13 + y * 7) % 120) as i8;
            normals.push(Normal { x: tilt, y: 0, z: 127 - tilt });
            normals.push(Normal { x: -tilt, y: tilt, z: 127 - tilt });
        }
    }
    (indices, (row * row) as usize, normals)
}

fn input_triangles(indices: &[u32]) -> Vec<[u32; 3]> {
    let mut triangles: Vec<[u32; 3]> = indices.chunks(3).map(|c| [c[0], c[1], c[2]]).collect();
    triangles.sort();
    triangles
}

fn output_triangles(meshlets: &[Meshlet], vertices: &[u32], micro: &[u8]) -> Vec<[u32; 3]> {
    let mut triangles = Vec::new();
    for m in meshlets {
        for j in 0..m.triangle_count as usize {
            let at = m.triangle_offset as usize + 3 * j;
            let mut t = [0u32; 3];
            for k in 0..3 {
                let local = micro[at + k] as u32;
                assert!(local < m.vertex_count);
                t[k] = vertices[(m.vertex_offset + local) as usize];
            }
            triangles.push(t);
        }
    }
    triangles.sort();
    triangles
}

fn caps_under_test() -> Vec<(usize, usize, u8)> {
    vec![(64, 126, 0), (64, 126, 128), (3, 1, 0), (3, 126, 255), (64, 1, 40), (8, 4, 200), (16, 126, 0), (5, 7, 90)]
}

#[test]
fn every_triangle_is_given_back_once() {
    let (indices, vertex_count, normals) = grid(9);
    for (max_vertices, max_triangles, weight) in caps_under_test() {
        let (meshlets, vertices, micro) =
            build_meshlets_with_normals(&indices, vertex_count, &normals, max_vertices, max_triangles, weight).unwrap();
        assert_eq!(output_triangles(&meshlets, &vertices, &micro), input_triangles(&indices));
    }
}

#[test]
fn meshlet_ranges_tile_the_buffers() {
    let (indices, vertex_count, normals) = grid(9);
    for (max_vertices, max_triangles, weight) in caps_under_test() {
        let (meshlets, vertices, micro) =
            build_meshlets_with_normals(&indices, vertex_count, &normals, max_vertices, max_triangles, weight).unwrap();
        let mut vertex_end = 0u32;
        let mut micro_end = 0u32;
        for m in &meshlets {
            assert_eq!(m.vertex_offset, vertex_end);
            assert_eq!(m.triangle_offset, micro_end);
            vertex_end += m.vertex_count;
            micro_end += 3 * m.triangle_count;
        }
        assert_eq!(vertex_end as usize, vertices.len());
        assert_eq!(micro_end as usize, micro.len());
        assert_eq!(micro.len(), indices.len());
    }
}

#[test]
fn meshlet_vertices_are_distinct_within_a_meshlet() {
    let (indices, vertex_count, normals) = grid(9);
    for (max_vertices, max_triangles, weight) in caps_under_test() {
        let (meshlets, vertices, _) =
            build_meshlets_with_normals(&indices, vertex_count, &normals, max_vertices, max_triangles, weight).unwrap();
        for m in &meshlets {
            let start = m.vertex_offset as usize;
            let mut own = vertices[start..start + m.vertex_count as usize].to_vec();
            own.sort();
            own.dedup();
            assert_eq!(own.len(), m.vertex_count as usize);
        }
    }
}

#[test]
fn meshlets_respect_both_caps() {
    let (indices, vertex_count, normals) = grid(9);
    for (max_vertices, max_triangles, weight) in caps_under_test() {
        let (meshlets, _, _) =
            build_meshlets_with_normals(&indices, vertex_count, &normals, max_vertices, max_triangles, weight).unwrap();
        for m in &meshlets {
            assert!(m.triangle_count >= 1);
            assert!(m.triangle_count as usize <= max_triangles);
            assert!(m.vertex_count as usize <= max_vertices);
        }
    }
}

#[test]
fn outputs_stay_within_the_worst_case_sizes() {
    let (indices, vertex_count, normals) = grid(9);
    let triangle_count = indices.len() / 3;
    for (max_vertices, max_triangles, weight) in caps_under_test() {
        let (meshlets, vertices, micro) =
            build_meshlets_with_normals(&indices, vertex_count, &normals, max_vertices, max_triangles, weight).unwrap();
        assert!(meshlets.len() <= build_meshlets_bound(triangle_count, max_vertices, max_triangles));
        assert!(
            vertices.len() <= build_meshlets_vertices_bound(triangle_count, max_vertices, max_triangles).unwrap()
        );
        assert_eq!(
            micro.len(),
            build_meshlets_indices_bound(triangle_count, max_vertices, max_triangles).unwrap()
        );
    }
}

#[test]
fn worst_case_is_reached_by_scattered_triangles() {
    let indices: Vec<u32> = (0..300).collect();
    let normals = vec![Normal { x: 0, y: 0, z: 127 }; 100];
    let (meshlets, vertices, micro) = build_meshlets_with_normals(&indices, 300, &normals, 64, 126, 0).unwrap();
    assert_eq!(meshlets.len(), build_meshlets_bound(100, 64, 126));
    assert_eq!(vertices.len(), build_meshlets_vertices_bound(100, 64, 126).unwrap());
    assert_eq!(micro.len(), build_meshlets_indices_bound(100, 64, 126).unwrap());
}

#[test]
fn two_builds_of_one_input_agree() {
    let (indices, vertex_count, normals) = grid(12);
    for (max_vertices, max_triangles, weight) in caps_under_test() {
        let first = build_meshlets_with_normals(&indices, vertex_count, &normals, max_vertices, max_triangles, weight);
        let second = build_meshlets_with_normals(&indices.clone(), vertex_count, &normals.clone(), max_vertices, max_triangles, weight);
        assert_eq!(first, second);
    }
}

#[test]
fn grid_with_full_caps_fills_meshlets_to_a_cap() {
    let (indices, vertex_count, normals) = grid(20);
    let (meshlets, _, _) = build_meshlets_with_normals(&indices, vertex_count, &normals, 64, 126, 0).unwrap();
    assert!(meshlets.len() < 800);
    let total: u32 = meshlets.iter().map(|m| m.triangle_count).sum();
    assert_eq!(total as usize, indices.len() / 3);
}

#[test]
fn meshlet_bound_is_the_triangle_count() {
    assert_eq!(build_meshlets_bound(0, 64, 126), 0);
    assert_eq!(build_meshlets_bound(1, 64, 126), 1);
    assert_eq!(build_meshlets_bound(12, 64, 126), 12);
    assert_eq!(build_meshlets_bound(1000, 3, 1), 1000);
}

#[test]
fn buffer_bounds_are_three_per_triangle() {
    assert_eq!(build_meshlets_vertices_bound(0, 64, 126), Some(0));
    assert_eq!(build_meshlets_vertices_bound(12, 64, 126), Some(36));
    assert_eq!(build_meshlets_indices_bound(12, 64, 126), Some(36));
    assert_eq!(build_meshlets_indices_bound(usize::MAX / 3, 64, 126), Some(usize::MAX / 3 * 3));
}

#[test]
fn buffer_bounds_beyond_the_machine_range_are_none() {
    assert_eq!(build_meshlets_vertices_bound(usize::MAX / 3 + 1, 64, 126), None);
    assert_eq!(build_meshlets_indices_bound(usize::MAX, 64, 126), None);
}

#[test]
fn extreme_normals_and_weight_fill_a_meshlet() {
    // A fan of 200 triangles around vertex 0, every normal at the far end
    // of the byte range.
    let mut indices = Vec::new();
    for t in 0..200u32 {
        indices.extend_from_slice(&[0, t + 1, t + 2]);
    }
    for corner in [-128i8, 127] {
        let normals = vec![Normal { x: corner, y: corner, z: corner }; 200];
        let (meshlets, vertices, micro) = build_meshlets_with_normals(&indices, 202, &normals, 64, 126, 255).unwrap();
        assert_eq!(output_triangles(&meshlets, &vertices, &micro), input_triangles(&indices));
        assert_eq!(meshlets[0].vertex_count, 64);
        assert_eq!(meshlets[0].triangle_count, 62);
    }
}

#[test]
fn opposed_normals_lose_against_agreeing_ones_in_a_fan() {
    // Around vertex 0, triangles alternate between two opposed normals. At
    // full cone weight the first meshlet collects the agreeing half.
    let mut indices = Vec::new();
    let mut normals = Vec::new();
    for t in 0..20u32 {
        indices.extend_from_slice(&[0, 2 * t + 1, 2 * t + 2]);
        normals.push(if t % 2 == 0 { Normal { x: 0, y: 0, z: 127 } } else { Normal { x: 0, y: 0, z: -127 } });
    }
    let (meshlets, vertices, _) = build_meshlets_with_normals(&indices, 41, &normals, 64, 10, 255).unwrap();
    assert_eq!(meshlets.len(), 2);
    let first: Vec<u32> = vertices[..meshlets[0].vertex_count as usize].to_vec();
    let mut expected = vec![0];
    for t in (0..20u32).step_by(2) {
        expected.extend_from_slice(&[2 * t + 1, 2 * t + 2]);
    }
    assert_eq!(first, expected);
}
