//! Secondary-UV ("lightmap") generation for closed triangle meshes.
//!
//! The pipeline projects every triangle onto the face of an axis-aligned box
//! that its normal most closely faces, splits vertices at face seams, groups
//! triangles into connected UV islands, packs the islands into the unit
//! square, and returns a patch with the new topology and per-vertex secondary
//! texture coordinates.
//!
//! All geometry is carried in fixed-point coordinates: a scalar is an `i64`
//! holding the real value times [`FP_ONE`].

use vstd::prelude::*;
use vstd::arithmetic::div_mod::lemma_div_is_ordered;
use vstd::arithmetic::mul::lemma_mul_inequality;

mod math;
mod classify;
mod boxmap;
mod seams;
mod islands;
mod packing;

pub use classify::PlaneClass;
pub use classify::classify_plane;
pub use classify::classify_spec;
pub use classify::lemma_classify_total;
pub use boxmap::BoxFace;
pub use boxmap::UvBox;
pub use boxmap::generate_uv_box;
pub use boxmap::tris_valid;
pub use boxmap::uv_box_wf;
pub use boxmap::bucket_at;
pub use boxmap::lemma_uv_box_unique;
pub use islands::UvMesh;
pub use islands::generate_uv_meshes;
pub use islands::segment_islands;
pub use islands::meshes_partition;
pub use islands::seams_split_upto;
pub use seams::make_seam;
pub use seams::face_vs_face;
pub use seams::faces_disjoint;
pub use seams::clones_wf;
pub use packing::sort_order;
pub use packing::pack_meshes;
pub use packing::RectFx;
pub use packing::lemma_square_side_monotone;
pub use packing::square_side_spec;
pub use math::Fixed2;
pub use math::Fixed3;
pub use math::FP_ONE;
pub use math::COORD_LIMIT;
pub use math::in_coord_range;
pub use math::SPACING_LIMIT;
pub use islands::cross_vertex_disjoint;
pub use islands::seeds_ordered;
pub use islands::bounds_attained;
pub use islands::mesh_bounds_wf;
pub use islands::mesh_bounds_contain;
pub use packing::order_sorted;
pub use packing::placement_ok;
pub use packing::rects_disjoint;
pub use packing::scale_of;
pub use packing::areas_sum;
pub use packing::EMPIRIC_CAP;

verus! {

/// A patch for surface data: the secondary texture coordinates and the new
/// topology produced by UV generation. The generator may clone vertices to
/// make seams, so the patch lists, in append order, the source index of each
/// added vertex; the caller applies the patch by cloning those vertices,
/// replacing its triangle list, and assigning the texture coordinates.
#[derive(Clone, Debug)]
pub struct SurfaceDataPatch {
    /// A caller-supplied surface-data id, passed through unchanged.
    pub data_id: u64,
    /// Indices of the vertices that must be cloned and appended to the
    /// vertex buffer one by one, in this order.
    pub additional_vertices: Vec<u32>,
    /// New topology for the surface data; seams split vertices, so old
    /// topology must be replaced with this list.
    pub triangles: Vec<[u32; 3]>,
    /// Secondary texture coordinates, one per vertex of the patched buffer
    /// (original vertices first, then the added ones).
    pub second_tex_coords: Vec<Fixed2>,
}

/// The slot `(p, j, k)` names corner `k` of the `j`-th triangle of the
/// island packed at position `p`; the slot is in range for a packing that
/// placed `nrects` islands.
pub open spec fn slot_in(
    meshes: Seq<UvMesh>,
    order: Seq<usize>,
    nrects: int,
    p: int,
    j: int,
    k: int,
) -> bool {
    0 <= p < nrects && 0 <= j < meshes[order[p] as int].triangles@.len() && 0 <= k < 3
}

/// The vertex index a slot references in the final topology.
pub open spec fn slot_vertex(
    pts: Seq<[u32; 3]>,
    meshes: Seq<UvMesh>,
    order: Seq<usize>,
    p: int,
    j: int,
    k: int,
) -> int {
    pts[meshes[order[p] as int].triangles@[j] as int][k] as int
}

/// Vertex `v` is referenced by some slot of a placed island.
pub open spec fn placed_refs(
    pts: Seq<[u32; 3]>,
    meshes: Seq<UvMesh>,
    order: Seq<usize>,
    nrects: int,
    v: int,
) -> bool {
    exists|p: int, j: int, k: int|
        slot_in(meshes, order, nrects, p, j, k) && #[trigger] slot_vertex(
            pts,
            meshes,
            order,
            p,
            j,
            k,
        ) == v
}

/// The coordinate written for a slot's vertex keeps the spacing margin to
/// its island's placement rectangle.
pub open spec fn slot_margin_ok(
    pts: Seq<[u32; 3]>,
    meshes: Seq<UvMesh>,
    order: Seq<usize>,
    rects: Seq<packing::RectFx>,
    spacing: int,
    coords: Seq<Fixed2>,
    p: int,
    j: int,
    k: int,
) -> bool {
    let v = slot_vertex(pts, meshes, order, p, j, k);
    &&& 0 <= v < coords.len()
    &&& rects[p].x + spacing <= coords[v].x <= rects[p].x + rects[p].w - spacing
    &&& rects[p].y + spacing <= coords[v].y <= rects[p].y + rects[p].h - spacing
}

/// The coordinate written for a slot's vertex follows the assembly formula:
/// the island-local projection, rescaled, offset by the spacing margin and
/// by the island's placement rectangle.
pub open spec fn slot_formula_ok(
    pts: Seq<[u32; 3]>,
    meshes: Seq<UvMesh>,
    order: Seq<usize>,
    rects: Seq<packing::RectFx>,
    scale: int,
    spacing: int,
    projs: Seq<[Fixed2; 3]>,
    coords: Seq<Fixed2>,
    p: int,
    j: int,
    k: int,
) -> bool {
    let m = meshes[order[p] as int];
    let t = m.triangles@[j] as int;
    let pr = projs[t][k];
    let v = slot_vertex(pts, meshes, order, p, j, k);
    &&& 0 <= v < coords.len()
    &&& coords[v].x == (pr.x - m.uv_min.x) * scale / (FP_ONE as int) + spacing + rects[p].x
    &&& coords[v].y == (pr.y - m.uv_min.y) * scale / (FP_ONE as int) + spacing + rects[p].y
}

/// Vertex `v` holds the assembly formula of one of the placed slots that
/// reference it.
pub open spec fn vertex_formula_ok(
    pts: Seq<[u32; 3]>,
    meshes: Seq<UvMesh>,
    order: Seq<usize>,
    rects: Seq<packing::RectFx>,
    scale: int,
    spacing: int,
    projs: Seq<[Fixed2; 3]>,
    coords: Seq<Fixed2>,
    nrects: int,
    v: int,
) -> bool {
    exists|p2: int, j2: int, k2: int|
        slot_in(meshes, order, nrects, p2, j2, k2) && slot_vertex(pts, meshes, order, p2, j2, k2)
            == v && #[trigger] slot_formula_ok(
            pts,
            meshes,
            order,
            rects,
            scale,
            spacing,
            projs,
            coords,
            p2,
            j2,
            k2,
        )
}

/// The full account of a successful UV generation: a (unique) box
/// projection of the input, the seam-free topology over it, the island
/// partition with tight bounds, the sorted packing order, the placements
/// inside the unit square with pairwise disjoint rectangles and the scale
/// the feasibility search chose, and the texture coordinates: every vertex
/// of a placed island holds the assembly formula of one of its occurrences
/// and keeps the spacing margin of its rectangle at every occurrence, and
/// every other vertex holds zero.
pub open spec fn uv_assembly(
    vs0: Seq<Fixed3>,
    ts0: Seq<[u32; 3]>,
    spacing: int,
    patch: SurfaceDataPatch,
    b: UvBox,
    meshes: Seq<UvMesh>,
    order: Seq<usize>,
    scale: int,
    rects: Seq<packing::RectFx>,
) -> bool {
    let pts = patch.triangles@;
    let coords = patch.second_tex_coords@;
    &&& uv_box_wf(&b, vs0, ts0)
    &&& pts.len() == ts0.len()
    &&& seams_split_upto(&b, pts, 6)
    &&& meshes_partition(meshes, pts.len() as int)
    &&& cross_vertex_disjoint(meshes, pts)
    &&& seeds_ordered(meshes)
    &&& forall|m: int|
        0 <= m < meshes.len() ==> {
            &&& (#[trigger] meshes[m]).triangles@.len() >= 1
            &&& mesh_bounds_wf(&meshes[m])
            &&& mesh_bounds_contain(&meshes[m], b.projections@)
            &&& bounds_attained(&meshes[m], b.projections@)
        }
    &&& order.len() == meshes.len()
    &&& forall|p: int| 0 <= p < order.len() ==> (#[trigger] order[p]) < meshes.len()
    &&& forall|p1: int, p2: int|
        #![trigger order[p1], order[p2]]
        0 <= p1 < p2 < order.len() ==> order[p1] != order[p2]
    &&& order_sorted(meshes, order)
    &&& 0 <= scale <= 4294967296
    &&& exists|e: int|
        1 <= e <= EMPIRIC_CAP && scale == #[trigger] scale_of(
            packing::square_side_spec(areas_sum(meshes), spacing, meshes.len() as int),
            e,
        )
    &&& rects.len() <= order.len()
    &&& forall|p: int|
        0 <= p < rects.len() ==> placement_ok(meshes, order, #[trigger] rects[p], p, scale, spacing)
    &&& forall|p1: int, p2: int|
        #![trigger rects[p1], rects[p2]]
        0 <= p1 < p2 < rects.len() ==> rects_disjoint(rects[p1], rects[p2])
    &&& coords.len() == vs0.len() + patch.additional_vertices@.len()
    &&& forall|p: int, j: int, k: int|
        #![trigger slot_vertex(pts, meshes, order, p, j, k)]
        slot_in(meshes, order, rects.len() as int, p, j, k) ==> slot_margin_ok(
            pts,
            meshes,
            order,
            rects,
            spacing,
            coords,
            p,
            j,
            k,
        )
    &&& forall|v: int|
        0 <= v < coords.len() && #[trigger] placed_refs(pts, meshes, order, rects.len() as int, v)
            ==> vertex_formula_ok(
                pts,
                meshes,
                order,
                rects,
                scale,
                spacing,
                b.projections@,
                coords,
                rects.len() as int,
                v,
            )
    &&& forall|v: int|
        0 <= v < coords.len() && !placed_refs(pts, meshes, order, rects.len() as int, v)
            ==> coords[v].x == 0 && coords[v].y == 0
}

/// Generates a secondary UV map for the given vertices and triangles.
///
/// Returns `None` exactly when some triangle references a vertex index out
/// of range; every other input, including degenerate triangles and
/// disconnected meshes, produces a patch. On success the patch keeps the
/// triangle count, its texture-coordinate list covers the original vertices
/// plus the cloned ones, every index in the new topology is valid for that
/// list, every clone's source index precedes it, and every texture
/// coordinate lies inside the unit square (`0 ..= FP_ONE` in fixed point).
/// Over the (uniquely determined) box projection of the input, the returned
/// topology is seam-free: no two triangles on different box faces share a
/// vertex index. [`uv_assembly`] accounts for the rest: islands partition
/// the topology and never share a vertex, the placement rectangles are
/// pairwise disjoint inside the unit square at the scale the feasibility
/// search chose, each placed vertex holds the assembly formula of one of
/// its occurrences and keeps the spacing margin of its island's rectangle,
/// and vertices of islands left unplaced after the attempt cap keep the
/// zero default.
///
/// The bounds on the coordinates and the spacing are machine limits: they
/// keep every intermediate product of the pipeline inside the integers it
/// is computed in, and leave room for the clone indices in 32 bits.
///
/// This method leans on brute-force scans, so it is not as fast as it could
/// be in the ideal case, and it allocates memory for internal needs.
pub fn generate_uvs(vertices: Vec<Fixed3>, triangles: Vec<[u32; 3]>, spacing: i64) -> (result:
    Option<SurfaceDataPatch>)
    requires
        forall|v: int| 0 <= v < vertices@.len() ==> in_coord_range(#[trigger] vertices@[v]),
        0 <= spacing <= SPACING_LIMIT,
        vertices@.len() + 15 * triangles@.len() <= 4294967295,
    ensures
        result is Some <==> tris_valid(vertices@, triangles@),
        match result {
            Some(patch) => {
                &&& patch.data_id == 0
                &&& patch.triangles@.len() == triangles@.len()
                &&& patch.second_tex_coords@.len() == vertices@.len()
                    + patch.additional_vertices@.len()
                &&& forall|i: int, k: int|
                    0 <= i < patch.triangles@.len() && 0 <= k < 3
                        ==> (#[trigger] patch.triangles@[i][k]) < patch.second_tex_coords@.len()
                &&& forall|j: int|
                    0 <= j < patch.additional_vertices@.len()
                        ==> (#[trigger] patch.additional_vertices@[j]) < vertices@.len() + j
                &&& forall|v: int|
                    0 <= v < patch.second_tex_coords@.len() ==> {
                        let t = #[trigger] patch.second_tex_coords@[v];
                        0 <= t.x <= FP_ONE && 0 <= t.y <= FP_ONE
                    }
                &&& forall|b2: UvBox|
                    #[trigger] uv_box_wf(&b2, vertices@, triangles@) ==> seams_split_upto(
                        &b2,
                        patch.triangles@,
                        6,
                    )
                &&& exists|
                    b: UvBox,
                    meshes: Seq<UvMesh>,
                    order: Seq<usize>,
                    scale: int,
                    rects: Seq<packing::RectFx>,
                |
                    #[trigger] uv_assembly(
                        vertices@,
                        triangles@,
                        spacing as int,
                        patch,
                        b,
                        meshes,
                        order,
                        scale,
                        rects,
                    )
            },
            None => true,
        },
{
    let mut vertices = vertices;
    let mut triangles = triangles;
    let ghost vs_input = vertices@;
    let ghost ts_input = triangles@;
    let uv_box = match generate_uv_box(&vertices, &triangles) {
        Some(b) => b,
        None => {
            return None;
        }
    };
    proof {
        // The box projection's bucket structure is exactly what seam
        // splitting needs: strictly increasing buckets, one face per
        // triangle, so two buckets never share a triangle index.
        assert forall|f1: int, f2: int, j: int, l: int|
            #![trigger bucket_at(&uv_box, f1)[j], bucket_at(&uv_box, f2)[l]]
            0 <= f1 < 6 && 0 <= f2 < 6 && f1 != f2 && 0 <= j < bucket_at(&uv_box, f1).len() && 0
                <= l < bucket_at(&uv_box, f2).len() implies bucket_at(&uv_box, f1)[j] != bucket_at(
            &uv_box,
            f2,
        )[l] by {
            let x = bucket_at(&uv_box, f1)[j];
            assert(boxmap::face_index(boxmap::tri_face(vertices@, triangles@[x as int])) == f1);
        }
        // Projections are coordinate picks of in-range vertices, so they
        // stay in range themselves.
        assert forall|i: int, k: int|
            #![trigger uv_box.projections@[i][k]]
            0 <= i < triangles@.len() && 0 <= k < 3 implies {
            let p = uv_box.projections@[i][k];
            -COORD_LIMIT <= p.x <= COORD_LIMIT && -COORD_LIMIT <= p.y <= COORD_LIMIT
        } by {
            assert(in_coord_range(vertices@[triangles@[i][k] as int]));
        }
    }
    let (meshes, mut patch) = generate_uv_meshes(&uv_box, 0, &mut vertices, &mut triangles);
    // Arrange and scale all islands on the UV map so it fits into the unit
    // square.
    let order = sort_order(&meshes);
    let (scale, rects) = pack_meshes(&meshes, &order, spacing);
    let mut coords: Vec<Fixed2> = Vec::new();
    let vcount = vertices.len();
    let mut v: usize = 0;
    while v < vcount
        invariant
            v <= vcount,
            coords@.len() == v,
            forall|w: int|
                0 <= w < v ==> (#[trigger] coords@[w]) == (Fixed2 { x: 0i64, y: 0i64 }),
        decreases vcount - v,
    {
        coords.push(Fixed2 { x: 0, y: 0 });
        v = v + 1;
    }
    let rcount = rects.len();
    let mut p: usize = 0;
    while p < rcount
        invariant
            p <= rcount,
            rcount == rects@.len(),
            rects@.len() <= order@.len(),
            order@.len() == meshes@.len(),
            forall|pp: int| 0 <= pp < order@.len() ==> (#[trigger] order@[pp]) < meshes@.len(),
            0 <= scale <= 4294967296,
            0 <= spacing <= SPACING_LIMIT,
            forall|pp: int|
                0 <= pp < rects@.len()
                    ==> packing::placement_ok(
                        meshes@,
                        order@,
                        #[trigger] rects@[pp],
                        pp,
                        scale as int,
                        spacing as int,
                    ),
            forall|m: int|
                0 <= m < meshes@.len() ==> {
                    &&& (#[trigger] meshes@[m]).triangles@.len() >= 1
                    &&& islands::mesh_bounds_wf(&meshes@[m])
                    &&& islands::mesh_bounds_contain(&meshes@[m], uv_box.projections@)
                },
            meshes_partition(meshes@, triangles@.len() as int),
            cross_vertex_disjoint(meshes@, triangles@),
            forall|p1: int, p2: int|
                #![trigger order@[p1], order@[p2]]
                0 <= p1 < p2 < order@.len() ==> order@[p1] != order@[p2],
            triangles@.len() == uv_box.projections@.len(),
            seams::entries_below(triangles@, coords@.len() as int),
            coords@.len() == vcount,
            forall|w: int|
                0 <= w < coords@.len() ==> {
                    let t = #[trigger] coords@[w];
                    0 <= t.x <= FP_ONE && 0 <= t.y <= FP_ONE
                },
            forall|pp: int, jj: int, kk: int|
                #![trigger slot_vertex(triangles@, meshes@, order@, pp, jj, kk)]
                slot_in(meshes@, order@, rcount as int, pp, jj, kk) && pp < p
                    ==> slot_margin_ok(triangles@, meshes@, order@, rects@, spacing as int,
                        coords@, pp, jj, kk),
            forall|pp: int, jj: int, kk: int|
                #![trigger slot_vertex(triangles@, meshes@, order@, pp, jj, kk)]
                slot_in(meshes@, order@, rcount as int, pp, jj, kk) && pp < p
                    ==> vertex_formula_ok(triangles@, meshes@, order@, rects@, scale as int,
                        spacing as int, uv_box.projections@, coords@, rcount as int,
                        slot_vertex(triangles@, meshes@, order@, pp, jj, kk)),
            forall|w: int|
                0 <= w < coords@.len() && !placed_refs(triangles@, meshes@, order@,
                    rcount as int, w) ==> (#[trigger] coords@[w]).x == 0 && coords@[w].y == 0,
        decreases rcount - p,
    {
        let rect = rects[p];
        let mesh = &meshes[order[p]];
        let tlen = mesh.triangles.len();
        let mut j: usize = 0;
        while j < tlen
            invariant
                j <= tlen,
                p < rects@.len(),
                rcount == rects@.len(),
                rects@.len() <= order@.len(),
                order@.len() == meshes@.len(),
                forall|pp: int| 0 <= pp < order@.len() ==> (#[trigger] order@[pp]) < meshes@.len(),
                0 <= scale <= 4294967296,
                0 <= spacing <= SPACING_LIMIT,
                rect == rects@[p as int],
                mesh == &meshes@[order@[p as int] as int],
                tlen == mesh.triangles@.len(),
                packing::placement_ok(meshes@, order@, rect, p as int, scale as int,
                    spacing as int),
                islands::mesh_bounds_wf(mesh),
                islands::mesh_bounds_contain(mesh, uv_box.projections@),
                forall|jj: int|
                    0 <= jj < mesh.triangles@.len()
                        ==> (#[trigger] mesh.triangles@[jj] as int) < triangles@.len(),
                triangles@.len() == uv_box.projections@.len(),
                seams::entries_below(triangles@, coords@.len() as int),
                coords@.len() == vcount,
                rcount == rects@.len(),
                forall|w: int|
                    0 <= w < coords@.len() ==> {
                        let t = #[trigger] coords@[w];
                        0 <= t.x <= FP_ONE && 0 <= t.y <= FP_ONE
                    },
                cross_vertex_disjoint(meshes@, triangles@),
                forall|p1: int, p2: int|
                    #![trigger order@[p1], order@[p2]]
                    0 <= p1 < p2 < order@.len() ==> order@[p1] != order@[p2],
                forall|pp: int, jj: int, kk: int|
                    #![trigger slot_vertex(triangles@, meshes@, order@, pp, jj, kk)]
                    slot_in(meshes@, order@, rcount as int, pp, jj, kk) && (pp < p || (pp
                        == p as int && jj < j)) ==> slot_margin_ok(triangles@, meshes@, order@,
                        rects@, spacing as int, coords@, pp, jj, kk),
                forall|pp: int, jj: int, kk: int|
                    #![trigger slot_vertex(triangles@, meshes@, order@, pp, jj, kk)]
                    slot_in(meshes@, order@, rcount as int, pp, jj, kk) && (pp < p || (pp
                        == p as int && jj < j))
                        ==> vertex_formula_ok(triangles@, meshes@, order@, rects@,
                            scale as int, spacing as int, uv_box.projections@, coords@,
                            rcount as int,
                            slot_vertex(triangles@, meshes@, order@, pp, jj, kk)),
                forall|w: int|
                    0 <= w < coords@.len() && !placed_refs(triangles@, meshes@, order@,
                        rcount as int, w) ==> (#[trigger] coords@[w]).x == 0
                        && coords@[w].y == 0,
            decreases tlen - j,
        {
            let triangle_index = mesh.triangles[j];
            let tri = triangles[triangle_index];
            let proj = uv_box.projections[triangle_index];
            let mut k: usize = 0;
            while k < 3
                invariant
                    k <= 3,
                    0 <= scale <= 4294967296,
                    0 <= spacing <= SPACING_LIMIT,
                    packing::placement_ok(meshes@, order@, rect, p as int, scale as int,
                        spacing as int),
                    p < rects@.len(),
                    rects@.len() <= order@.len(),
                    order@.len() == meshes@.len(),
                    forall|pp: int|
                        0 <= pp < order@.len() ==> (#[trigger] order@[pp]) < meshes@.len(),
                    rect == rects@[p as int],
                    mesh == &meshes@[order@[p as int] as int],
                    islands::mesh_bounds_wf(mesh),
                    tri == triangles@[triangle_index as int],
                    proj == uv_box.projections@[triangle_index as int],
                    triangle_index < triangles@.len(),
                    triangles@.len() == uv_box.projections@.len(),
                    forall|kk: int|
                        0 <= kk < 3 ==> {
                            let pt = #[trigger] proj[kk];
                            mesh.uv_min.x <= pt.x <= mesh.uv_max.x && mesh.uv_min.y <= pt.y
                                <= mesh.uv_max.y
                        },
                    seams::entries_below(triangles@, coords@.len() as int),
                    coords@.len() == vcount,
                    rcount == rects@.len(),
                    j < tlen,
                    tlen == mesh.triangles@.len(),
                    triangle_index == mesh.triangles@[j as int],
                    forall|w: int|
                        0 <= w < coords@.len() ==> {
                            let t = #[trigger] coords@[w];
                            0 <= t.x <= FP_ONE && 0 <= t.y <= FP_ONE
                        },
                    cross_vertex_disjoint(meshes@, triangles@),
                    forall|p1: int, p2: int|
                        #![trigger order@[p1], order@[p2]]
                        0 <= p1 < p2 < order@.len() ==> order@[p1] != order@[p2],
                    forall|pp: int, jj: int, kk: int|
                        #![trigger slot_vertex(triangles@, meshes@, order@, pp, jj, kk)]
                        slot_in(meshes@, order@, rcount as int, pp, jj, kk) && (pp < p || (pp
                            == p as int && jj < j) || (pp == p as int && jj == j as int && kk
                            < k)) ==> slot_margin_ok(triangles@, meshes@, order@, rects@,
                            spacing as int, coords@, pp, jj, kk),
                    forall|pp: int, jj: int, kk: int|
                        #![trigger slot_vertex(triangles@, meshes@, order@, pp, jj, kk)]
                        slot_in(meshes@, order@, rcount as int, pp, jj, kk) && (pp < p || (pp
                            == p as int && jj < j) || (pp == p as int && jj == j as int && kk
                            < k))
                            ==> vertex_formula_ok(triangles@, meshes@, order@, rects@,
                                scale as int, spacing as int, uv_box.projections@, coords@,
                                rcount as int,
                                slot_vertex(triangles@, meshes@, order@, pp, jj, kk)),
                    forall|w: int|
                        0 <= w < coords@.len() && !placed_refs(triangles@, meshes@, order@,
                            rcount as int, w) ==> (#[trigger] coords@[w]).x == 0
                            && coords@[w].y == 0,
                decreases 3 - k,
            {
                let vertex_index = tri[k] as usize;
                // Defensive bounds check; unreachable when the earlier
                // stages kept the index invariants, which they prove.
                if vertex_index >= coords.len() {
                    return None;
                }
                let pt = proj[k];
                let dx = pt.x - mesh.uv_min.x;
                let dy = pt.y - mesh.uv_min.y;
                let sx = math::mul_scale_div(dx, scale);
                let sy = math::mul_scale_div(dy, scale);
                proof {
                    let widthx = mesh.uv_max.x - mesh.uv_min.x;
                    let widthy = mesh.uv_max.y - mesh.uv_min.y;
                    lemma_mul_inequality(dx as int, widthx as int, scale as int);
                    lemma_div_is_ordered(dx * scale, widthx * scale, FP_ONE as int);
                    lemma_mul_inequality(dy as int, widthy as int, scale as int);
                    lemma_div_is_ordered(dy * scale, widthy * scale, FP_ONE as int);
                }
                let tex = Fixed2 { x: sx + spacing + rect.x, y: sy + spacing + rect.y };
                let ghost coords_before = coords@;
                coords[vertex_index] = tex;
                proof {
                    let ts = triangles@;
                    let ms = meshes@;
                    let od = order@;
                    let pi = p as int;
                    let ji = j as int;
                    let ki = k as int;
                    assert(slot_vertex(ts, ms, od, pi, ji, ki) == vertex_index as int);
                    assert(slot_margin_ok(ts, ms, od, rects@, spacing as int, coords@, pi, ji,
                        ki));
                    assert(slot_formula_ok(ts, ms, od, rects@, scale as int, spacing as int,
                        uv_box.projections@, coords@, pi, ji, ki));
                    // Earlier margin claims survive: a vertex is shared only
                    // within one island, whose rectangle also bounds the
                    // freshly written value.
                    assert forall|pp: int, jj: int, kk: int|
                        #![trigger slot_vertex(ts, ms, od, pp, jj, kk)]
                        slot_in(ms, od, rcount as int, pp, jj, kk) && (pp < pi || (pp == pi
                            && jj < ji) || (pp == pi && jj == ji && kk < ki + 1)) implies
                        slot_margin_ok(ts, ms, od, rects@, spacing as int, coords@, pp, jj,
                        kk) by {
                        let v2 = slot_vertex(ts, ms, od, pp, jj, kk);
                        if v2 == vertex_index as int {
                            if pp != pi {
                                assert(od[pp] != od[pi]);
                                assert(seams::tris_disjoint(
                                    ts[ms[od[pp] as int].triangles@[jj] as int],
                                    ts[ms[od[pi] as int].triangles@[ji] as int],
                                ));
                                assert(false);
                            }
                        } else {
                            assert(coords@[v2] == coords_before[v2]);
                        }
                    }
                    // Earlier formula claims survive: an untouched vertex
                    // keeps its witness, and the written vertex takes the
                    // current slot as witness.
                    assert forall|pp: int, jj: int, kk: int|
                        #![trigger slot_vertex(ts, ms, od, pp, jj, kk)]
                        slot_in(ms, od, rcount as int, pp, jj, kk) && (pp < pi || (pp == pi
                            && jj < ji) || (pp == pi && jj == ji && kk < ki + 1)) implies
                        vertex_formula_ok(ts, ms, od, rects@, scale as int, spacing as int,
                        uv_box.projections@, coords@, rcount as int,
                        slot_vertex(ts, ms, od, pp, jj, kk)) by {
                        let v2 = slot_vertex(ts, ms, od, pp, jj, kk);
                        if v2 == vertex_index as int {
                            assert(slot_in(ms, od, rcount as int, pi, ji, ki) && slot_vertex(
                                ts, ms, od, pi, ji, ki,
                            ) == v2 && slot_formula_ok(ts, ms, od, rects@, scale as int,
                                spacing as int, uv_box.projections@, coords@, pi, ji, ki));
                        } else {
                            assert(vertex_formula_ok(ts, ms, od, rects@, scale as int,
                                spacing as int, uv_box.projections@, coords_before,
                                rcount as int, v2));
                            let (p2, j2, k2): (int, int, int) = choose|p2: int, j2: int,
                                k2: int|
                                slot_in(ms, od, rcount as int, p2, j2, k2) && slot_vertex(
                                    ts, ms, od, p2, j2, k2,
                                ) == v2 && #[trigger] slot_formula_ok(ts, ms, od, rects@,
                                    scale as int, spacing as int, uv_box.projections@,
                                    coords_before, p2, j2, k2);
                            assert(slot_vertex(ts, ms, od, p2, j2, k2) == v2);
                            assert(coords@[v2] == coords_before[v2]);
                            assert(slot_formula_ok(ts, ms, od, rects@, scale as int,
                                spacing as int, uv_box.projections@, coords@, p2, j2, k2));
                        }
                    }
                    // The zero default survives: the written vertex is
                    // referenced by a placed slot.
                    assert forall|w: int|
                        0 <= w < coords@.len() && !placed_refs(ts, ms, od, rcount as int,
                            w) implies (#[trigger] coords@[w]).x == 0 && coords@[w].y == 0 by {
                        if w == vertex_index as int {
                            assert(slot_in(ms, od, rcount as int, pi, ji, ki) && slot_vertex(
                                ts, ms, od, pi, ji, ki,
                            ) == w);
                            assert(placed_refs(ts, ms, od, rcount as int, w));
                        } else {
                            assert(coords@[w] == coords_before[w]);
                        }
                    }
                }
                k = k + 1;
            }
            j = j + 1;
        }
        p = p + 1;
    }
    let ghost ts_final = triangles@;
    let ghost coords_final = coords@;
    patch.second_tex_coords = coords;
    patch.triangles = triangles;
    proof {
        assert(patch.triangles@ == ts_final);
        assert(patch.second_tex_coords@ == coords_final);
        // The box projection is pinned by its contract, so the seam-free
        // topology holds over every well-formed projection of the input.
        assert forall|b2: UvBox|
            #[trigger] uv_box_wf(&b2, vs_input, ts_input) implies seams_split_upto(
            &b2,
            ts_final,
            6,
        ) by {
            lemma_uv_box_unique(&b2, &uv_box, vs_input, ts_input);
            assert forall|f1: int, f2: int|
                #![trigger bucket_at(&b2, f1), bucket_at(&b2, f2)]
                0 <= f1 < 6 && 0 <= f2 < 6 && f1 != f2 implies faces_disjoint(
                ts_final,
                bucket_at(&b2, f1),
                bucket_at(&b2, f2),
            ) by {
                assert(bucket_at(&b2, f1) == bucket_at(&uv_box, f1));
                assert(bucket_at(&b2, f2) == bucket_at(&uv_box, f2));
                assert(faces_disjoint(ts_final, bucket_at(&uv_box, f1), bucket_at(&uv_box, f2)));
            }
        }
        assert(uv_assembly(
            vs_input,
            ts_input,
            spacing as int,
            patch,
            uv_box,
            meshes@,
            order@,
            scale as int,
            rects@,
        ));
    }
    Some(patch)
}

} // verus!
