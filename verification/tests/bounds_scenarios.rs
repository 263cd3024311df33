use meshlets::addressing::meshlet_indices;
use meshlets::bounds::{
    compute_cluster_bounds, compute_cluster_bounds_decoder, compute_meshlet_bounds, Bounds,
};
use meshlets::builder::{build_meshlets, build_meshlets_with_normals};
use meshlets::grid::{GridPoint, Span};
use meshlets::normal::face_normals;
use meshlets::mesh::{InvalidArgument, Meshlet, Normal};

fn at(x: u16, y: u16, z: u16) -> GridPoint {
    GridPoint { x, y, z }
}

fn cube_positions(side: u16) -> Vec<GridPoint> {
    (0..8u16).map(|i| at((i & 1) * side, ((i >> 1) & 1) * side, ((i >> 2) & 1) * side)).collect()
}

fn cube_triangles() -> Vec<u32> {
    vec![
        0, 2, 1, 1, 2, 3, // z = 0
        4, 5, 6, 5, 7, 6, // z = side
        0, 1, 4, 1, 5, 4, // y = 0
        2, 6, 3, 3, 6, 7, // y = side
        0, 4, 2, 2, 4, 6, // x = 0
        1, 3, 5, 3, 7, 5, // x = side
    ]
}

fn roof_positions() -> Vec<GridPoint> {
    vec![at(0, 0, 0), at(100, 0, 100), at(0, 100, 0), at(200, 0, 0), at(200, 100, 0)]
}

const NO_AXIS: Normal = Normal { x: 0, y: 0, z: 0 };

#[test]
fn normals_of_cube_faces_point_outward() {
    let normals = face_normals(&cube_triangles(), &cube_positions(1000)).unwrap();
    let faces = [
        Normal { x: 0, y: 0, z: -127 },
        Normal { x: 0, y: 0, z: 127 },
        Normal { x: 0, y: -127, z: 0 },
        Normal { x: 0, y: 127, z: 0 },
        Normal { x: -127, y: 0, z: 0 },
        Normal { x: 127, y: 0, z: 0 },
    ];
    assert_eq!(normals.len(), 12);
    for (t, n) in normals.iter().enumerate() {
        assert_eq!(*n, faces[t / 2]);
    }
}

#[test]
fn normal_of_slanted_triangle_is_rounded_toward_zero() {
    let normals = face_normals(&[0, 1, 2], &roof_positions()).unwrap();
    assert_eq!(normals, vec![Normal { x: -89, y: 0, z: 89 }]);
}

#[test]
fn normal_of_smallest_triangle() {
    let positions = [at(0, 0, 0), at(1, 0, 0), at(0, 1, 0), at(0, 0, 1)];
    assert_eq!(face_normals(&[0, 1, 2], &positions), Ok(vec![Normal { x: 0, y: 0, z: 127 }]));
    // The plane through the three unit points: each component is 127 / sqrt(3).
    assert_eq!(face_normals(&[1, 2, 3], &positions), Ok(vec![Normal { x: 73, y: 73, z: 73 }]));
}

#[test]
fn normal_of_largest_triangle() {
    let positions = [at(0, 0, 0), at(65535, 0, 0), at(0, 65535, 0)];
    assert_eq!(face_normals(&[0, 1, 2], &positions), Ok(vec![Normal { x: 0, y: 0, z: 127 }]));
    assert_eq!(face_normals(&[0, 2, 1], &positions), Ok(vec![Normal { x: 0, y: 0, z: -127 }]));
}

#[test]
fn normal_of_triangle_without_area_is_zero() {
    let positions = [at(5, 5, 5), at(6, 6, 6), at(9, 9, 9)];
    assert_eq!(face_normals(&[0, 1, 2, 0, 0, 1], &positions), Ok(vec![NO_AXIS, NO_AXIS]));
}

#[test]
fn normals_refuse_broken_streams() {
    let positions = [at(0, 0, 0), at(1, 0, 0), at(0, 1, 0)];
    assert_eq!(face_normals(&[0, 1], &positions), Err(InvalidArgument::IndexCount));
    assert_eq!(face_normals(&[0, 1, 3], &positions), Err(InvalidArgument::IndexRange));
    assert_eq!(face_normals(&[], &[]), Ok(vec![]));
}

#[test]
fn cube_builds_into_one_meshlet_from_positions() {
    let indices = cube_triangles();
    let positions = cube_positions(1000);
    let (meshlets, vertices, micro) = build_meshlets(&indices, &positions, 64, 126, 128).unwrap();
    assert_eq!(
        meshlets,
        vec![Meshlet { vertex_offset: 0, vertex_count: 8, triangle_offset: 0, triangle_count: 12 }]
    );
    assert_eq!(vertices.len(), 8);
    assert_eq!(micro.len(), 36);
}

#[test]
fn build_from_positions_is_build_with_their_normals() {
    let indices = cube_triangles();
    let positions = cube_positions(313);
    let normals = face_normals(&indices, &positions).unwrap();
    for (max_vertices, max_triangles, weight) in [(64, 126, 0u8), (4, 126, 255), (64, 3, 77), (5, 2, 128)] {
        assert_eq!(
            build_meshlets(&indices, &positions, max_vertices, max_triangles, weight),
            build_meshlets_with_normals(&indices, 8, &normals, max_vertices, max_triangles, weight)
        );
    }
}

#[test]
fn build_from_positions_weighs_face_normals() {
    // Triangle 1 folds back under triangle 0; triangle 2 continues it in
    // the same plane. Both bring one new vertex.
    let positions = [at(100, 100, 100), at(200, 100, 100), at(100, 200, 100), at(150, 150, 100), at(200, 200, 100)];
    let indices = [0, 1, 2, 1, 0, 3, 2, 1, 4];
    let normals = face_normals(&indices, &positions).unwrap();
    assert_eq!(
        normals,
        vec![Normal { x: 0, y: 0, z: 127 }, Normal { x: 0, y: 0, z: -127 }, Normal { x: 0, y: 0, z: 127 }]
    );
    let (_, unweighted, _) = build_meshlets(&indices, &positions, 64, 2, 0).unwrap();
    assert_eq!(unweighted, vec![0, 1, 2, 3, 2, 1, 4]);
    let (_, weighted, _) = build_meshlets(&indices, &positions, 64, 2, 255).unwrap();
    assert_eq!(weighted, vec![0, 1, 2, 4, 1, 0, 3]);
}

#[test]
fn build_from_positions_refuses_what_the_checks_refuse() {
    let positions = cube_positions(10);
    assert_eq!(build_meshlets(&[0, 1, 2], &positions, 65, 126, 0), Err(InvalidArgument::VertexLimit));
    assert_eq!(build_meshlets(&[0, 1, 2], &positions, 64, 0, 0), Err(InvalidArgument::TriangleLimit));
    assert_eq!(build_meshlets(&[0, 1], &positions, 64, 126, 0), Err(InvalidArgument::IndexCount));
    assert_eq!(build_meshlets(&[0, 1, 8], &positions, 64, 126, 0), Err(InvalidArgument::IndexRange));
}

#[test]
fn bounds_of_unit_cube() {
    let bounds = compute_cluster_bounds(&cube_triangles(), &cube_positions(1000)).unwrap();
    assert_eq!(
        bounds,
        Bounds {
            center: at(500, 500, 500),
            // Half the diagonal of the cube, 866.03, rounded up.
            radius: 867,
            cone_apex: Span { x: 500, y: 500, z: 500 },
            // The six normals lean to no side: the axis is a diagonal, and
            // the three faces that look away from it stand at 125 degrees.
            cone_axis: Normal { x: 73, y: 73, z: 73 },
            cone_cutoff: -73,
        }
    );
    let cosine = bounds.cone_cutoff as f64 / 127.0;
    assert!((cosine - (125.26f64).to_radians().cos()).abs() < 0.01);
    let center = 500.0f64;
    let half_diagonal = (3.0f64).sqrt() * center;
    assert!((bounds.radius as f64 - half_diagonal).abs() < 1.0);
}

#[test]
fn bounds_of_flat_quad() {
    let positions = [at(0, 0, 7), at(1000, 0, 7), at(0, 1000, 7), at(1000, 1000, 7)];
    let bounds = compute_cluster_bounds(&[0, 1, 2, 2, 1, 3], &positions).unwrap();
    assert_eq!(
        bounds,
        Bounds {
            center: at(500, 500, 7),
            radius: 708,
            cone_apex: Span { x: 500, y: 500, z: 7 },
            cone_axis: Normal { x: 0, y: 0, z: 127 },
            cone_cutoff: 127,
        }
    );
}

#[test]
fn bounds_of_roof() {
    let bounds = compute_cluster_bounds(&[0, 1, 2, 3, 4, 1], &roof_positions()).unwrap();
    assert_eq!(
        bounds,
        Bounds {
            center: at(100, 50, 50),
            radius: 123,
            cone_apex: Span { x: 100, y: 50, z: 50 },
            cone_axis: Normal { x: 0, y: 0, z: 127 },
            cone_cutoff: 89,
        }
    );
}

#[test]
fn bounds_of_valley_set_the_apex_back() {
    let bounds = compute_cluster_bounds(&[0, 2, 1, 3, 1, 4], &roof_positions()).unwrap();
    assert_eq!(
        bounds,
        Bounds {
            center: at(100, 50, 50),
            radius: 123,
            cone_apex: Span { x: 100, y: 50, z: 177 },
            cone_axis: Normal { x: 0, y: 0, z: -127 },
            cone_cutoff: 89,
        }
    );
}

#[test]
fn bounds_of_two_sided_triangle_have_the_widest_cone() {
    let positions = [at(0, 0, 0), at(10, 0, 0), at(0, 10, 0)];
    let bounds = compute_cluster_bounds(&[0, 1, 2, 0, 2, 1], &positions).unwrap();
    assert_eq!(bounds.cone_axis, Normal { x: 0, y: 0, z: 127 });
    assert_eq!(bounds.cone_cutoff, -127);
    assert_eq!(bounds.cone_apex, Span { x: 5, y: 5, z: 0 });
    assert_eq!(bounds.center, at(5, 5, 0));
    assert_eq!(bounds.radius, 8);
}

#[test]
fn bounds_of_half_space_have_no_apex() {
    // The normals are +x and -x and +z: the axis is +z, and two normals
    // stand at a right angle to it.
    let positions = [at(50, 0, 0), at(50, 50, 0), at(50, 0, 50), at(0, 0, 60), at(50, 0, 60), at(0, 50, 60)];
    let indices = [0, 1, 2, 0, 2, 1, 3, 4, 5];
    assert_eq!(
        face_normals(&indices, &positions),
        Ok(vec![Normal { x: 127, y: 0, z: 0 }, Normal { x: -127, y: 0, z: 0 }, Normal { x: 0, y: 0, z: 127 }])
    );
    let bounds = compute_cluster_bounds(&indices, &positions).unwrap();
    assert_eq!(bounds.cone_axis, Normal { x: 0, y: 0, z: 127 });
    assert_eq!(bounds.cone_cutoff, 0);
    assert_eq!(bounds.center, at(25, 25, 30));
    assert_eq!(bounds.cone_apex, Span { x: 25, y: 25, z: 30 });
}

#[test]
fn cutoff_is_rounded_down_below_zero() {
    // Two normals 120 degrees apart and a third between them that pulls
    // the axis to one side.
    let positions = [
        at(1000, 1000, 1000),
        at(1000, 1100, 1000),
        at(1000, 1000, 1100),
        at(1100, 1000, 1000),
        at(900, 1000, 1173),
        at(900, 1100, 1173),
    ];
    let indices = [0, 1, 2, 0, 3, 1, 0, 1, 4];
    let normals = face_normals(&indices, &positions).unwrap();
    let bounds = compute_cluster_bounds(&indices, &positions).unwrap();
    let mut least = i32::MAX;
    for n in &normals {
        let d = n.x as i32 * bounds.cone_axis.x as i32
            + n.y as i32 * bounds.cone_axis.y as i32
            + n.z as i32 * bounds.cone_axis.z as i32;
        least = least.min(d);
    }
    assert_eq!(bounds.cone_cutoff as i32, least.div_euclid(127));
    assert!(127 * bounds.cone_cutoff as i32 <= least);
}

#[test]
fn bounds_of_right_angle_keep_a_cone() {
    // One triangle faces +z, the other +x: the axis lies between them.
    let positions = [at(0, 0, 50), at(50, 0, 50), at(0, 50, 50), at(50, 0, 0), at(50, 50, 0)];
    let bounds = compute_cluster_bounds(&[0, 1, 2, 1, 3, 4], &positions).unwrap();
    assert_eq!(
        face_normals(&[0, 1, 2, 1, 3, 4], &positions),
        Ok(vec![Normal { x: 0, y: 0, z: 127 }, Normal { x: 127, y: 0, z: 0 }])
    );
    assert_eq!(bounds.cone_axis, Normal { x: 89, y: 0, z: 89 });
    assert_eq!(bounds.cone_cutoff, 89);
}

#[test]
fn bounds_of_triangles_without_area_have_sphere_but_no_cone() {
    let positions = [at(10, 20, 30), at(50, 20, 30)];
    let bounds = compute_cluster_bounds(&[0, 0, 1], &positions).unwrap();
    assert_eq!(
        bounds,
        Bounds {
            center: at(30, 20, 30),
            radius: 20,
            cone_apex: Span { x: 30, y: 20, z: 30 },
            cone_axis: NO_AXIS,
            cone_cutoff: -127,
        }
    );
}

#[test]
fn bounds_of_single_point_have_zero_radius() {
    let bounds = compute_cluster_bounds(&[1, 1, 1], &[at(0, 0, 0), at(65535, 1, 2)]).unwrap();
    assert_eq!(bounds.center, at(65535, 1, 2));
    assert_eq!(bounds.radius, 0);
    assert_eq!(bounds.cone_cutoff, -127);
}

#[test]
fn bounds_of_nothing_are_neutral() {
    let bounds = compute_cluster_bounds(&[], &[]).unwrap();
    assert_eq!(
        bounds,
        Bounds {
            center: at(0, 0, 0),
            radius: 0,
            cone_apex: Span { x: 0, y: 0, z: 0 },
            cone_axis: NO_AXIS,
            cone_cutoff: -127,
        }
    );
    assert_eq!(compute_cluster_bounds(&[], &cube_positions(9)), Ok(bounds));
}

#[test]
fn radius_is_rounded_up() {
    // The farthest corner is sqrt(5) = 2.24 from the center (1, 1, 0).
    let positions = [at(0, 0, 0), at(3, 0, 0), at(0, 2, 0)];
    let bounds = compute_cluster_bounds(&[0, 1, 2], &positions).unwrap();
    assert_eq!(bounds.center, at(1, 1, 0));
    assert_eq!(bounds.radius, 3);
}

#[test]
fn bounds_span_the_whole_grid() {
    let positions = [at(0, 0, 0), at(65535, 65535, 65535), at(65535, 0, 0)];
    let bounds = compute_cluster_bounds(&[0, 1, 2], &positions).unwrap();
    assert_eq!(bounds.center, at(32767, 32767, 32767));
    // sqrt(3 * 32768^2) = 56755.8
    assert_eq!(bounds.radius, 56756);
}

fn scattered_cluster() -> (Vec<u32>, Vec<GridPoint>) {
    let mut state: u32 = 12345;
    let mut next = move || {
        state = state.wrapping_mul(1103515245).wrapping_add(12345);
        (state >> 8) as u16
    };
    let positions: Vec<GridPoint> = (0..40).map(|_| at(next() % 5000, next() % 7000, 30000 + next() % 900)).collect();
    let indices: Vec<u32> = (0..90).map(|_| (next() % 40) as u32).collect();
    (indices, positions)
}

#[test]
fn sphere_holds_every_corner() {
    let (indices, positions) = scattered_cluster();
    let bounds = compute_cluster_bounds(&indices, &positions).unwrap();
    let reach = bounds.radius as i64 * bounds.radius as i64;
    let mut farthest = 0;
    for &i in &indices {
        let p = positions[i as usize];
        let dx = p.x as i64 - bounds.center.x as i64;
        let dy = p.y as i64 - bounds.center.y as i64;
        let dz = p.z as i64 - bounds.center.z as i64;
        let d = dx * dx + dy * dy + dz * dz;
        assert!(d <= reach);
        farthest = farthest.max(d);
    }
    let short = bounds.radius as i64 - 1;
    assert!(short * short < farthest);
}

#[test]
fn cone_holds_every_normal() {
    let positions = [
        at(1000, 1000, 500),
        at(2000, 1000, 520),
        at(1000, 2000, 540),
        at(2000, 2000, 500),
        at(3000, 1000, 620),
        at(3000, 2000, 700),
    ];
    let indices = [0, 1, 2, 2, 1, 3, 1, 4, 3, 3, 4, 5];
    let bounds = compute_cluster_bounds(&indices, &positions).unwrap();
    assert!(bounds.cone_cutoff > 100);
    let normals = face_normals(&indices, &positions).unwrap();
    let mut least = i32::MAX;
    for n in normals {
        let d = n.x as i32 * bounds.cone_axis.x as i32
            + n.y as i32 * bounds.cone_axis.y as i32
            + n.z as i32 * bounds.cone_axis.z as i32;
        assert!(d >= 127 * bounds.cone_cutoff as i32);
        least = least.min(d);
    }
    assert!(least < 127 * (bounds.cone_cutoff as i32 + 1) || bounds.cone_cutoff == 127);
}

#[test]
fn apex_lies_behind_every_triangle() {
    let positions = [
        at(1000, 1000, 500),
        at(2000, 1000, 300),
        at(1000, 2000, 300),
        at(2000, 2000, 500),
        at(3000, 1000, 620),
        at(3000, 2000, 700),
    ];
    let indices = [0, 2, 1, 2, 3, 1, 1, 3, 4, 3, 5, 4];
    let bounds = compute_cluster_bounds(&indices, &positions).unwrap();
    assert!(bounds.cone_cutoff > 0);
    for t in indices.chunks(3) {
        let (a, b, c) = (positions[t[0] as usize], positions[t[1] as usize], positions[t[2] as usize]);
        let u = [b.x as i64 - a.x as i64, b.y as i64 - a.y as i64, b.z as i64 - a.z as i64];
        let v = [c.x as i64 - a.x as i64, c.y as i64 - a.y as i64, c.z as i64 - a.z as i64];
        let n = [u[1] * v[2] - u[2] * v[1], u[2] * v[0] - u[0] * v[2], u[0] * v[1] - u[1] * v[0]];
        let side = (bounds.cone_apex.x - a.x as i64) * n[0]
            + (bounds.cone_apex.y - a.y as i64) * n[1]
            + (bounds.cone_apex.z - a.z as i64) * n[2];
        assert!(side <= 0);
    }
}

#[test]
fn cluster_queries_refuse_broken_clusters() {
    let positions = cube_positions(10);
    assert_eq!(compute_cluster_bounds(&[0, 1], &positions), Err(InvalidArgument::IndexCount));
    assert_eq!(compute_cluster_bounds(&[0, 1, 8], &positions), Err(InvalidArgument::IndexRange));
    assert_eq!(compute_cluster_bounds(&vec![0u32; 257 * 3], &positions), Err(InvalidArgument::ClusterSize));
    assert!(compute_cluster_bounds(&vec![0u32; 256 * 3], &positions).is_ok());
}

#[test]
fn meshlet_bounds_are_the_bounds_of_its_triangles() {
    let indices = cube_triangles();
    let positions = cube_positions(640);
    let (meshlets, vertices, micro) = build_meshlets(&indices, &positions, 5, 126, 100).unwrap();
    assert!(meshlets.len() > 1);
    for m in &meshlets {
        let own = meshlet_indices(m, &vertices, &micro).unwrap();
        assert_eq!(
            compute_meshlet_bounds(m, &vertices, &micro, &positions),
            compute_cluster_bounds(&own, &positions)
        );
    }
}

#[test]
fn meshlet_bounds_of_whole_cube() {
    let indices = cube_triangles();
    let positions = cube_positions(1000);
    let (meshlets, vertices, micro) = build_meshlets(&indices, &positions, 64, 126, 128).unwrap();
    assert_eq!(
        compute_meshlet_bounds(&meshlets[0], &vertices, &micro, &positions),
        compute_cluster_bounds(&indices, &positions)
    );
}

#[test]
fn meshlet_bounds_refuse_broken_meshlets() {
    let positions = cube_positions(10);
    let meshlet = Meshlet { vertex_offset: 0, vertex_count: 3, triangle_offset: 0, triangle_count: 1 };
    assert_eq!(
        compute_meshlet_bounds(&meshlet, &[0, 1, 2], &[0, 1], &positions),
        Err(InvalidArgument::MeshletRange)
    );
    assert_eq!(
        compute_meshlet_bounds(&meshlet, &[0, 1, 2], &[0, 1, 3], &positions),
        Err(InvalidArgument::MeshletRange)
    );
    assert_eq!(
        compute_meshlet_bounds(&meshlet, &[0, 1, 8], &[0, 1, 2], &positions),
        Err(InvalidArgument::IndexRange)
    );
    let large = Meshlet { vertex_offset: 0, vertex_count: 1, triangle_offset: 0, triangle_count: 257 };
    assert_eq!(
        compute_meshlet_bounds(&large, &[0], &vec![0u8; 257 * 3], &positions),
        Err(InvalidArgument::ClusterSize)
    );
}

#[test]
fn decoder_bounds_are_the_bounds_over_the_decoded_positions() {
    let positions = roof_positions();
    assert_eq!(
        compute_cluster_bounds_decoder(&[0, 1, 2, 3, 4, 1], &positions),
        compute_cluster_bounds(&[0, 1, 2, 3, 4, 1], &positions)
    );
    assert_eq!(compute_cluster_bounds_decoder(&[0, 1, 5], &positions), Err(InvalidArgument::IndexRange));
}

#[test]
fn two_queries_on_one_cluster_agree() {
    let (indices, positions) = scattered_cluster();
    assert_eq!(compute_cluster_bounds(&indices, &positions), compute_cluster_bounds(&indices, &positions));
}

struct Packed(u64);

impl meshlets::bounds::DecodePosition for Packed {
    fn position(&self) -> GridPoint {
        self.decode_position()
    }

    fn decode_position(&self) -> GridPoint {
        at((self.0 >> 32) as u16, (self.0 >> 16) as u16, self.0 as u16)
    }
}

#[test]
fn decoder_reads_positions_from_the_vertices() {
    let pack = |p: GridPoint| Packed((p.x as u64) << 32 | (p.y as u64) << 16 | p.z as u64);
    let vertices: Vec<Packed> = roof_positions().into_iter().map(pack).collect();
    assert_eq!(
        compute_cluster_bounds_decoder(&[0, 2, 1, 3, 1, 4], &vertices),
        compute_cluster_bounds(&[0, 2, 1, 3, 1, 4], &roof_positions())
    );
}
