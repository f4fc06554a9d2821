//! Tests of the individual pipeline stages: plane classification, island
//! segmentation, and seam splitting.

use uvgen::classify_plane;
use uvgen::generate_uv_box;
use uvgen::generate_uv_meshes;
use uvgen::segment_islands;
use uvgen::Fixed3;
use uvgen::PlaneClass;

fn fx3(x: i64, y: i64, z: i64) -> Fixed3 {
    Fixed3 { x, y, z }
}

#[test]
fn classification_picks_dominant_axis() {
    assert_eq!(classify_plane(fx3(0, 0, 1000)), PlaneClass::XY);
    assert_eq!(classify_plane(fx3(0, 0, -1000)), PlaneClass::XY);
    assert_eq!(classify_plane(fx3(1000, 0, 0)), PlaneClass::YZ);
    assert_eq!(classify_plane(fx3(0, 1000, 0)), PlaneClass::XZ);
    assert_eq!(classify_plane(fx3(10, 20, 5)), PlaneClass::XZ);
    assert_eq!(classify_plane(fx3(30, 20, 5)), PlaneClass::YZ);
    assert_eq!(classify_plane(fx3(10, 20, 50)), PlaneClass::XY);
}

#[test]
fn classification_ties_prefer_z_then_y() {
    // Equal magnitudes: Z wins ties over Y, and Y wins ties over X.
    assert_eq!(classify_plane(fx3(7, 7, 7)), PlaneClass::XY);
    assert_eq!(classify_plane(fx3(7, 7, 0)), PlaneClass::XZ);
    assert_eq!(classify_plane(fx3(7, 0, 7)), PlaneClass::XY);
    assert_eq!(classify_plane(fx3(0, 7, 7)), PlaneClass::XY);
    // A zero normal is still classified, to the default plane.
    assert_eq!(classify_plane(fx3(0, 0, 0)), PlaneClass::XY);
}

#[test]
fn disconnected_triangles_form_two_islands() {
    // Two triangles with no shared vertex index end up in separate islands;
    // together the islands cover every triangle exactly once.
    let vertices = vec![
        fx3(0, 0, 0),
        fx3(65536, 0, 0),
        fx3(0, 65536, 0),
        fx3(655360, 0, 0),
        fx3(720896, 0, 0),
        fx3(655360, 65536, 0),
    ];
    let triangles = vec![[0u32, 1, 2], [3, 4, 5]];
    let uv_box = generate_uv_box(&vertices, &triangles).unwrap();
    let meshes = segment_islands(&triangles, &uv_box);
    assert_eq!(meshes.len(), 2);
    let mut seen = vec![false; triangles.len()];
    for mesh in &meshes {
        for &t in &mesh.triangles {
            assert!(!seen[t]);
            seen[t] = true;
        }
    }
    assert!(seen.iter().all(|&s| s));
}

#[test]
fn shared_vertex_merges_into_one_island() {
    let vertices = vec![
        fx3(0, 0, 0),
        fx3(65536, 0, 0),
        fx3(0, 65536, 0),
        fx3(65536, 65536, 0),
    ];
    let triangles = vec![[0u32, 1, 2], [1, 3, 2]];
    let uv_box = generate_uv_box(&vertices, &triangles).unwrap();
    let meshes = segment_islands(&triangles, &uv_box);
    assert_eq!(meshes.len(), 1);
    assert_eq!(meshes[0].triangles.len(), 2);
}

#[test]
fn seams_eliminate_cross_face_sharing() {
    // After seam splitting on a cube, no two triangles on different box
    // faces may reference a common vertex index.
    let mut vertices = vec![
        fx3(-32768, -32768, 32768),
        fx3(-32768, 32768, 32768),
        fx3(32768, 32768, 32768),
        fx3(32768, -32768, 32768),
        fx3(-32768, -32768, -32768),
        fx3(-32768, 32768, -32768),
        fx3(32768, 32768, -32768),
        fx3(32768, -32768, -32768),
    ];
    let mut triangles: Vec<[u32; 3]> = vec![
        [2, 1, 0],
        [3, 2, 0],
        [4, 5, 6],
        [4, 6, 7],
        [7, 6, 2],
        [2, 3, 7],
        [0, 1, 5],
        [0, 5, 4],
        [5, 1, 2],
        [5, 2, 6],
        [3, 0, 4],
        [7, 3, 4],
    ];
    let uv_box = generate_uv_box(&vertices, &triangles).unwrap();
    let (_, patch) = generate_uv_meshes(&uv_box, 7, &mut vertices, &mut triangles);
    assert_eq!(patch.data_id, 7);
    assert_eq!(vertices.len(), 8 + patch.additional_vertices.len());

    let buckets: [&Vec<usize>; 6] = [
        &uv_box.px,
        &uv_box.nx,
        &uv_box.py,
        &uv_box.ny,
        &uv_box.pz,
        &uv_box.nz,
    ];
    for f1 in 0..6 {
        for f2 in 0..6 {
            if f1 == f2 {
                continue;
            }
            for &t1 in buckets[f1] {
                for &t2 in buckets[f2] {
                    for a in triangles[t1] {
                        for b in triangles[t2] {
                            assert_ne!(a, b, "faces {} and {} share vertex {}", f1, f2, a);
                        }
                    }
                }
            }
        }
    }

    // Every cloned vertex copies the position of its source.
    for (j, &src) in patch.additional_vertices.iter().enumerate() {
        assert_eq!(vertices[8 + j], vertices[src as usize]);
    }
}
