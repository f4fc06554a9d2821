//! End-to-end tests of the UV generator on small meshes, driven in
//! fixed-point coordinates (65536 units per 1.0).

use uvgen::generate_uvs;
use uvgen::Fixed3;
use uvgen::FP_ONE;

fn fx3(x: i64, y: i64, z: i64) -> Fixed3 {
    Fixed3 { x, y, z }
}

/// The eight corners of a unit cube centered on the origin (0.5 = 32768).
fn cube_vertices() -> Vec<Fixed3> {
    vec![
        fx3(-32768, -32768, 32768),
        fx3(-32768, 32768, 32768),
        fx3(32768, 32768, 32768),
        fx3(32768, -32768, 32768),
        fx3(-32768, -32768, -32768),
        fx3(-32768, 32768, -32768),
        fx3(32768, 32768, -32768),
        fx3(32768, -32768, -32768),
    ]
}

fn cube_triangles() -> Vec<[u32; 3]> {
    vec![
        // Front
        [2, 1, 0],
        [3, 2, 0],
        // Back
        [4, 5, 6],
        [4, 6, 7],
        // Right
        [7, 6, 2],
        [2, 3, 7],
        // Left
        [0, 1, 5],
        [0, 5, 4],
        // Top
        [5, 1, 2],
        [5, 2, 6],
        // Bottom
        [3, 0, 4],
        [7, 3, 4],
    ]
}

#[test]
fn test_uv_gen() {
    let mut vertices = cube_vertices();
    let mut triangles = cube_triangles();

    let patch = generate_uvs(vertices.clone(), triangles.clone(), 328)
        .expect("Generation must be successful!");

    // Apply patch.
    triangles = patch.triangles.clone();
    for &vertex_index in &patch.additional_vertices {
        let vertex = vertices[vertex_index as usize];
        vertices.push(vertex);
    }

    assert_eq!(
        triangles,
        [
            [2, 1, 0],
            [3, 2, 0],
            [4, 5, 6],
            [4, 6, 7],
            [12, 10, 8],
            [9, 11, 13],
            [17, 14, 15],
            [18, 16, 19],
            [23, 20, 21],
            [24, 22, 25],
            [27, 26, 29],
            [31, 28, 30],
        ]
    );

    // One texture coordinate per vertex after cloning, every coordinate
    // inside the unit square.
    assert_eq!(vertices.len(), 32);
    assert_eq!(patch.second_tex_coords.len(), 32);
    for t in &patch.second_tex_coords {
        assert!(0 <= t.x && t.x <= FP_ONE);
        assert!(0 <= t.y && t.y <= FP_ONE);
    }
}

#[test]
fn cube_unwrap_applies_cleanly() {
    // End-to-end scenario: unwrap a unit cube, apply the patch, and check
    // that every triangle's texture coordinates lie in the unit square and
    // that the six per-face islands do not overlap.
    let spacing: i64 = 328;
    let patch = generate_uvs(cube_vertices(), cube_triangles(), spacing).unwrap();

    let n = patch.second_tex_coords.len();
    assert_eq!(n, cube_vertices().len() + patch.additional_vertices.len());
    for tri in &patch.triangles {
        for &vi in tri {
            assert!((vi as usize) < n);
            let t = patch.second_tex_coords[vi as usize];
            assert!(0 <= t.x && t.x <= FP_ONE);
            assert!(0 <= t.y && t.y <= FP_ONE);
        }
    }

    // Group the patched triangles into UV islands (triangles connected by
    // shared vertex indices). The islands' bounding boxes in UV space must
    // not overlap, and must keep a gap of at least twice the spacing.
    let tcount = patch.triangles.len();
    let mut island_of: Vec<usize> = (0..tcount).collect();
    loop {
        let mut changed = false;
        for a in 0..tcount {
            for b in 0..tcount {
                let shares = patch.triangles[a]
                    .iter()
                    .any(|v| patch.triangles[b].contains(v));
                if shares && island_of[a] != island_of[b] {
                    let target = island_of[a].min(island_of[b]);
                    island_of[a] = target;
                    island_of[b] = target;
                    changed = true;
                }
            }
        }
        if !changed {
            break;
        }
    }
    let mut boxes: Vec<(usize, i64, i64, i64, i64)> = Vec::new();
    for root in 0..tcount {
        if island_of[root] != root {
            continue;
        }
        let mut min_x = i64::MAX;
        let mut min_y = i64::MAX;
        let mut max_x = i64::MIN;
        let mut max_y = i64::MIN;
        for t in 0..tcount {
            if island_of[t] != root {
                continue;
            }
            for &vi in &patch.triangles[t] {
                let c = patch.second_tex_coords[vi as usize];
                min_x = min_x.min(c.x);
                min_y = min_y.min(c.y);
                max_x = max_x.max(c.x);
                max_y = max_y.max(c.y);
            }
        }
        boxes.push((root, min_x, min_y, max_x, max_y));
    }
    for a in 0..boxes.len() {
        for b in (a + 1)..boxes.len() {
            let (ra, ax0, ay0, ax1, ay1) = boxes[a];
            let (rb, bx0, by0, bx1, by1) = boxes[b];
            let gap = 2 * spacing;
            let separated = ax1 + gap <= bx0
                || bx1 + gap <= ax0
                || ay1 + gap <= by0
                || by1 + gap <= ay0;
            assert!(separated, "islands {} and {} overlap or sit too close", ra, rb);
        }
    }
}

#[test]
fn out_of_range_index_fails() {
    // A triangle referencing an index one past the end of the vertex buffer
    // must fail the whole call with no patch.
    let vertices = cube_vertices();
    let mut triangles = cube_triangles();
    triangles.push([0, 1, 8]);
    assert!(generate_uvs(vertices, triangles, 328).is_none());
}

#[test]
fn generation_is_deterministic() {
    let p1 = generate_uvs(cube_vertices(), cube_triangles(), 328).unwrap();
    let p2 = generate_uvs(cube_vertices(), cube_triangles(), 328).unwrap();
    assert_eq!(p1.data_id, p2.data_id);
    assert_eq!(p1.additional_vertices, p2.additional_vertices);
    assert_eq!(p1.triangles, p2.triangles);
    assert_eq!(p1.second_tex_coords, p2.second_tex_coords);
}

#[test]
fn empty_mesh_gives_empty_patch() {
    let patch = generate_uvs(Vec::new(), Vec::new(), 328).unwrap();
    assert_eq!(patch.additional_vertices.len(), 0);
    assert_eq!(patch.triangles.len(), 0);
    assert_eq!(patch.second_tex_coords.len(), 0);
}

#[test]
fn degenerate_triangle_is_tolerated() {
    // A zero-area triangle has a zero normal; classification defaults to a
    // face instead of failing.
    let vertices = vec![fx3(0, 0, 0), fx3(0, 0, 0), fx3(0, 0, 0)];
    let triangles = vec![[0u32, 1, 2]];
    let patch = generate_uvs(vertices, triangles, 328).unwrap();
    assert_eq!(patch.triangles.len(), 1);
    assert_eq!(patch.second_tex_coords.len(), 3 + patch.additional_vertices.len());
}

#[test]
fn single_triangle_unwraps() {
    let vertices = vec![fx3(0, 0, 0), fx3(FP_ONE, 0, 0), fx3(0, FP_ONE, 0)];
    let triangles = vec![[0u32, 1, 2]];
    let patch = generate_uvs(vertices, triangles, 328).unwrap();
    assert_eq!(patch.triangles, vec![[0u32, 1, 2]]);
    assert!(patch.additional_vertices.is_empty());
    for t in &patch.second_tex_coords {
        assert!(0 <= t.x && t.x <= FP_ONE);
        assert!(0 <= t.y && t.y <= FP_ONE);
    }
}

#[test]
fn cube_exact_coordinates() {
    // The pipeline is deterministic in the fixed-point domain, so the
    // cube's coordinates can be pinned exactly (65536 units per 1.0).
    let patch = generate_uvs(cube_vertices(), cube_triangles(), 328).unwrap();
    let coords: Vec<(i64, i64)> = patch.second_tex_coords.iter().map(|t| (t.x, t.y)).collect();
    assert_eq!(
        coords,
        vec![
            (328, 328),
            (328, 14272),
            (14272, 14272),
            (14272, 328),
            (14928, 328),
            (28872, 328),
            (28872, 14272),
            (14928, 14272),
            (14272, 28872),
            (43472, 14272),
            (14272, 14928),
            (29528, 14272),
            (328, 14928),
            (29528, 328),
            (14272, 43472),
            (328, 43472),
            (14928, 28872),
            (14272, 29528),
            (28872, 14928),
            (14928, 14928),
            (58072, 328),
            (58072, 14272),
            (14272, 58072),
            (44128, 328),
            (328, 44128),
            (328, 58072),
            (29528, 28872),
            (43472, 28872),
            (28872, 43472),
            (29528, 14928),
            (14928, 29528),
            (28872, 29528),
        ]
    );
}
