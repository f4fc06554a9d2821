//! UV islands: maximal groups of triangles connected by shared vertex
//! indices, together with their bounding boxes in projection space.

use vstd::prelude::*;
use crate::math::Fixed2;
use crate::math::Fixed3;
use crate::math::in_coord_range;
use crate::math::COORD_LIMIT;
use crate::boxmap::bucket_at;
use crate::boxmap::UvBox;
use crate::seams::buckets_ok;
use crate::seams::clones_wf;
use crate::seams::entries_below;
use crate::seams::faces_disjoint;
use crate::seams::make_seam;
use crate::seams::tris_disjoint;
use crate::SurfaceDataPatch;

verus! {

/// A UV island ("mesh" on the UV map): triangle indices plus the bounding
/// box of their projections.
pub struct UvMesh {
    /// Indices of the triangles of this island, in discovery order.
    pub triangles: Vec<usize>,
    /// Upper-right corner of the island's bounding box.
    pub uv_max: Fixed2,
    /// Lower-left corner of the island's bounding box.
    pub uv_min: Fixed2,
}

/// Bounding box corners are ordered and within coordinate range.
pub open spec fn mesh_bounds_wf(m: &UvMesh) -> bool {
    &&& -COORD_LIMIT <= m.uv_min.x <= m.uv_max.x <= COORD_LIMIT
    &&& -COORD_LIMIT <= m.uv_min.y <= m.uv_max.y <= COORD_LIMIT
}

/// Every projected corner of every triangle of the island lies inside the
/// island's bounding box.
pub open spec fn mesh_bounds_contain(m: &UvMesh, projs: Seq<[Fixed2; 3]>) -> bool {
    forall|j: int, k: int|
        #![trigger projs[m.triangles@[j] as int][k]]
        0 <= j < m.triangles@.len() && 0 <= k < 3 ==> {
            let p = projs[m.triangles@[j] as int][k];
            m.uv_min.x <= p.x <= m.uv_max.x && m.uv_min.y <= p.y <= m.uv_max.y
        }
}

impl UvMesh {
    /// Seeds a new island with one triangle; the bounding box starts at the
    /// sentinel corners and is tightened as projections are folded in.
    pub fn new(first_triangle: usize) -> (m: UvMesh)
        ensures
            m.triangles@ == seq![first_triangle],
            m.uv_min.x == COORD_LIMIT && m.uv_min.y == COORD_LIMIT,
            m.uv_max.x == -COORD_LIMIT && m.uv_max.y == -COORD_LIMIT,
    {
        UvMesh {
            triangles: vec![first_triangle],
            uv_max: Fixed2 { x: -COORD_LIMIT, y: -COORD_LIMIT },
            uv_min: Fixed2 { x: COORD_LIMIT, y: COORD_LIMIT },
        }
    }

    /// Total width of the island's bounding box.
    pub fn width(&self) -> (w: i64)
        requires
            mesh_bounds_wf(self),
        ensures
            w == self.uv_max.x - self.uv_min.x,
            0 <= w <= 2 * COORD_LIMIT,
    {
        self.uv_max.x - self.uv_min.x
    }

    /// Total height of the island's bounding box.
    pub fn height(&self) -> (h: i64)
        requires
            mesh_bounds_wf(self),
        ensures
            h == self.uv_max.y - self.uv_min.y,
            0 <= h <= 2 * COORD_LIMIT,
    {
        self.uv_max.y - self.uv_min.y
    }

    /// Total area of the island's bounding box.
    pub fn area(&self) -> (a: i64)
        requires
            mesh_bounds_wf(self),
        ensures
            a == mesh_area(self),
            0 <= a,
    {
        let w = self.width();
        let h = self.height();
        proof {
            assert(0 <= w * h <= 4 * COORD_LIMIT * COORD_LIMIT) by (nonlinear_arith)
                requires 0 <= w <= 2 * COORD_LIMIT, 0 <= h <= 2 * COORD_LIMIT
            ;
        }
        w * h
    }
}

/// Area of an island's bounding box, as the product of its extents.
pub open spec fn mesh_area(m: &UvMesh) -> int {
    (m.uv_max.x - m.uv_min.x) * (m.uv_max.y - m.uv_min.y)
}

/// True when triangle index `t` is listed in some island of `meshes`.
pub open spec fn appears_in(meshes: Seq<UvMesh>, t: usize) -> bool {
    exists|m: int| 0 <= m < meshes.len() && (#[trigger] meshes[m]).triangles@.contains(t)
}

/// No triangle index is listed twice over all islands of `meshes`.
pub open spec fn meshes_distinct(meshes: Seq<UvMesh>) -> bool {
    forall|m1: int, j1: int, m2: int, j2: int|
        #![trigger meshes[m1].triangles@[j1], meshes[m2].triangles@[j2]]
        0 <= m1 < meshes.len() && 0 <= j1 < meshes[m1].triangles@.len() && 0 <= m2 < meshes.len()
            && 0 <= j2 < meshes[m2].triangles@.len() && (m1 != m2 || j1 != j2)
            ==> meshes[m1].triangles@[j1] != meshes[m2].triangles@[j2]
}

/// The islands of `meshes` form a partition of the triangle indices
/// `0 .. tcount`: every index appears, and none appears twice.
pub open spec fn meshes_partition(meshes: Seq<UvMesh>, tcount: int) -> bool {
    &&& forall|m: int, j: int|
        #![trigger meshes[m].triangles@[j]]
        0 <= m < meshes.len() && 0 <= j < meshes[m].triangles@.len()
            ==> (meshes[m].triangles@[j] as int) < tcount
    &&& forall|t: int| 0 <= t < tcount ==> #[trigger] appears_in(meshes, t as usize)
    &&& meshes_distinct(meshes)
}

/// Triangles listed in different islands share no vertex index; with the
/// partition property this says that two triangles sharing a vertex index
/// always land in the same island.
pub open spec fn cross_vertex_disjoint(meshes: Seq<UvMesh>, ts: Seq<[u32; 3]>) -> bool {
    forall|m1: int, j1: int, m2: int, j2: int|
        #![trigger meshes[m1].triangles@[j1], meshes[m2].triangles@[j2]]
        0 <= m1 < meshes.len() && 0 <= j1 < meshes[m1].triangles@.len() && 0 <= m2 < meshes.len()
            && 0 <= j2 < meshes[m2].triangles@.len() && m1 != m2
            ==> tris_disjoint(
                ts[meshes[m1].triangles@[j1] as int],
                ts[meshes[m2].triangles@[j2] as int],
            )
}

/// Islands are emitted in seed order: each island's first entry is its
/// lowest triangle index, and these seeds strictly increase across the
/// returned sequence.
pub open spec fn seeds_ordered(meshes: Seq<UvMesh>) -> bool {
    &&& forall|m: int, j: int|
        #![trigger meshes[m].triangles@[j]]
        0 <= m < meshes.len() && 1 <= j < meshes[m].triangles@.len()
            ==> meshes[m].triangles@[j] > meshes[m].triangles@[0]
    &&& forall|m1: int, m2: int|
        0 <= m1 < m2 < meshes.len() ==> (#[trigger] meshes[m1]).triangles@[0]
            < (#[trigger] meshes[m2]).triangles@[0]
}

/// Each side of the island's bounding box is attained by some projected
/// corner of the island, so the box is tight.
pub open spec fn bounds_attained(m: &UvMesh, projs: Seq<[Fixed2; 3]>) -> bool {
    &&& exists|j: int, k: int|
        #![trigger projs[m.triangles@[j] as int][k]]
        0 <= j < m.triangles@.len() && 0 <= k < 3 && projs[m.triangles@[j] as int][k].x
            == m.uv_min.x
    &&& exists|j: int, k: int|
        #![trigger projs[m.triangles@[j] as int][k]]
        0 <= j < m.triangles@.len() && 0 <= k < 3 && projs[m.triangles@[j] as int][k].y
            == m.uv_min.y
    &&& exists|j: int, k: int|
        #![trigger projs[m.triangles@[j] as int][k]]
        0 <= j < m.triangles@.len() && 0 <= k < 3 && projs[m.triangles@[j] as int][k].x
            == m.uv_max.x
    &&& exists|j: int, k: int|
        #![trigger projs[m.triangles@[j] as int][k]]
        0 <= j < m.triangles@.len() && 0 <= k < 3 && projs[m.triangles@[j] as int][k].y
            == m.uv_max.y
}

/// Number of `false` entries of `s`.
pub closed spec fn count_false(s: Seq<bool>) -> int
    decreases s.len(),
{
    if s.len() == 0 {
        0
    } else {
        (if s[0] { 0int } else { 1int }) + count_false(s.drop_first())
    }
}

proof fn lemma_count_false_le(s: Seq<bool>)
    ensures
        0 <= count_false(s) <= s.len(),
    decreases s.len(),
{
    if s.len() > 0 {
        lemma_count_false_le(s.drop_first());
    }
}

proof fn lemma_count_false_update(s: Seq<bool>, k: int)
    requires
        0 <= k < s.len(),
        !s[k],
    ensures
        count_false(s.update(k, true)) == count_false(s) - 1,
    decreases s.len(),
{
    let s2 = s.update(k, true);
    if k == 0 {
        assert(s2.drop_first() =~= s.drop_first());
    } else {
        assert(s2.drop_first() =~= s.drop_first().update(k - 1, true));
        lemma_count_false_update(s.drop_first(), k - 1);
    }
}

/// True when `s` and `t` share a vertex index.
fn tri_shares(s: [u32; 3], t: [u32; 3]) -> (r: bool)
    ensures
        r == !tris_disjoint(s, t),
{
    s[0] == t[0] || s[0] == t[1] || s[0] == t[2] || s[1] == t[0] || s[1] == t[1] || s[1] == t[2]
        || s[2] == t[0] || s[2] == t[1] || s[2] == t[2]
}

/// Groups the triangles into islands: repeatedly seeds an island with the
/// lowest unassigned triangle index and absorbs, breadth-first, every
/// unassigned triangle that shares a vertex index with one already in the
/// island. The islands partition the triangle index set. Each island's
/// bounding box is the union of the bounds of its projected corners.
#[verifier::rlimit(100)]
pub fn segment_islands(triangles: &Vec<[u32; 3]>, uv_box: &UvBox) -> (meshes: Vec<UvMesh>)
    requires
        uv_box.projections@.len() == triangles@.len(),
        forall|i: int, k: int|
            #![trigger uv_box.projections@[i][k]]
            0 <= i < triangles@.len() && 0 <= k < 3 ==> {
                let p = uv_box.projections@[i][k];
                -COORD_LIMIT <= p.x <= COORD_LIMIT && -COORD_LIMIT <= p.y <= COORD_LIMIT
            },
    ensures
        meshes_partition(meshes@, triangles@.len() as int),
        cross_vertex_disjoint(meshes@, triangles@),
        seeds_ordered(meshes@),
        forall|m: int|
            0 <= m < meshes@.len() ==> {
                &&& (#[trigger] meshes@[m]).triangles@.len() >= 1
                &&& mesh_bounds_wf(&meshes@[m])
                &&& mesh_bounds_contain(&meshes@[m], uv_box.projections@)
                &&& bounds_attained(&meshes@[m], uv_box.projections@)
            },
{
    let tcount = triangles.len();
    let mut meshes: Vec<UvMesh> = Vec::new();
    let mut removed: Vec<bool> = Vec::new();
    let mut z: usize = 0;
    while z < tcount
        invariant
            z <= tcount,
            removed@.len() == z,
            forall|k: int| 0 <= k < z ==> !(#[trigger] removed@[k]),
        decreases tcount - z,
    {
        removed.push(false);
        z = z + 1;
    }
    let mut triangle_index: usize = 0;
    while triangle_index < tcount
        invariant
            triangle_index <= tcount,
            tcount == triangles@.len(),
            removed@.len() == tcount,
            uv_box.projections@.len() == tcount,
            forall|i: int, k: int|
                #![trigger uv_box.projections@[i][k]]
                0 <= i < tcount && 0 <= k < 3 ==> {
                    let p = uv_box.projections@[i][k];
                    -COORD_LIMIT <= p.x <= COORD_LIMIT && -COORD_LIMIT <= p.y <= COORD_LIMIT
                },
            forall|k: int| 0 <= k < triangle_index ==> (#[trigger] removed@[k]),
            forall|m: int, j: int|
                #![trigger meshes@[m].triangles@[j]]
                0 <= m < meshes@.len() && 0 <= j < meshes@[m].triangles@.len()
                    ==> (meshes@[m].triangles@[j] as int) < tcount
                        && removed@[meshes@[m].triangles@[j] as int],
            forall|k: int|
                0 <= k < tcount && removed@[k] ==> appears_in(meshes@, k as usize),
            meshes_distinct(meshes@),
            cross_vertex_disjoint(meshes@, triangles@),
            seeds_ordered(meshes@),
            forall|m: int|
                0 <= m < meshes@.len() ==> (#[trigger] meshes@[m]).triangles@[0]
                    < triangle_index,
            forall|m: int, j: int, u: int|
                #![trigger meshes@[m].triangles@[j], removed@[u]]
                0 <= m < meshes@.len() && 0 <= j < meshes@[m].triangles@.len() && 0 <= u < tcount
                    && !removed@[u]
                    ==> tris_disjoint(
                        triangles@[meshes@[m].triangles@[j] as int],
                        triangles@[u],
                    ),
            forall|m: int|
                0 <= m < meshes@.len() ==> {
                    &&& (#[trigger] meshes@[m]).triangles@.len() >= 1
                    &&& mesh_bounds_wf(&meshes@[m])
                    &&& mesh_bounds_contain(&meshes@[m], uv_box.projections@)
                    &&& bounds_attained(&meshes@[m], uv_box.projections@)
                },
        decreases tcount - triangle_index,
    {
        if !removed[triangle_index] {
            let mut mesh = UvMesh::new(triangle_index);
            let ghost removed_seed = removed@;
            removed[triangle_index] = true;
            proof {
                lemma_count_false_le(removed_seed);
                lemma_count_false_update(removed_seed, triangle_index as int);
                lemma_count_false_le(removed@);
                assert(mesh.triangles@[0] == triangle_index);
                assert(mesh.triangles@.contains(triangle_index));
                // The new seed was unassigned, so it shares no vertex index
                // with any finished island.
                assert forall|j: int, m: int, l: int|
                    #![trigger mesh.triangles@[j], meshes@[m].triangles@[l]]
                    0 <= j < mesh.triangles@.len() && 0 <= m < meshes@.len() && 0 <= l
                        < meshes@[m].triangles@.len() implies tris_disjoint(
                    triangles@[mesh.triangles@[j] as int],
                    triangles@[meshes@[m].triangles@[l] as int],
                ) by {
                    assert(!removed_seed[triangle_index as int]);
                    assert(tris_disjoint(
                        triangles@[meshes@[m].triangles@[l] as int],
                        triangles@[triangle_index as int],
                    ));
                }
            }
            let mut last_triangle: usize = 1;
            let mut i: usize = 0;
            while i < last_triangle
                invariant
                    tcount == triangles@.len(),
                    removed@.len() == tcount,
                    i <= last_triangle,
                    last_triangle >= 1,
                    forall|k: int| 0 <= k <= triangle_index ==> (#[trigger] removed@[k]),
                    mesh.uv_min.x == COORD_LIMIT && mesh.uv_min.y == COORD_LIMIT,
                    mesh.uv_max.x == -COORD_LIMIT && mesh.uv_max.y == -COORD_LIMIT,
                    mesh.triangles@.len() == last_triangle,
                    last_triangle as int + count_false(removed@) <= tcount,
                    0 <= count_false(removed@),
                    forall|j: int|
                        0 <= j < mesh.triangles@.len()
                            ==> (#[trigger] mesh.triangles@[j] as int) < tcount
                                && removed@[mesh.triangles@[j] as int],
                    forall|j1: int, j2: int|
                        #![trigger mesh.triangles@[j1], mesh.triangles@[j2]]
                        0 <= j1 < j2 < mesh.triangles@.len()
                            ==> mesh.triangles@[j1] != mesh.triangles@[j2],
                    forall|m: int, j: int|
                        #![trigger meshes@[m].triangles@[j]]
                        0 <= m < meshes@.len() && 0 <= j < meshes@[m].triangles@.len()
                            ==> (meshes@[m].triangles@[j] as int) < tcount
                                && removed@[meshes@[m].triangles@[j] as int],
                    forall|j: int, m: int, l: int|
                        #![trigger mesh.triangles@[j], meshes@[m].triangles@[l]]
                        0 <= j < mesh.triangles@.len() && 0 <= m < meshes@.len() && 0 <= l
                            < meshes@[m].triangles@.len()
                            ==> mesh.triangles@[j] != meshes@[m].triangles@[l],
                    forall|k: int|
                        0 <= k < tcount && removed@[k] ==> appears_in(meshes@, k as usize)
                            || mesh.triangles@.contains(k as usize),
                    meshes_distinct(meshes@),
                    cross_vertex_disjoint(meshes@, triangles@),
                    seeds_ordered(meshes@),
                    forall|m: int|
                        0 <= m < meshes@.len() ==> (#[trigger] meshes@[m]).triangles@[0]
                            < triangle_index,
                    mesh.triangles@[0] == triangle_index,
                    forall|j: int|
                        1 <= j < mesh.triangles@.len()
                            ==> (#[trigger] mesh.triangles@[j]) > triangle_index,
                    forall|m: int, j: int, u: int|
                        #![trigger meshes@[m].triangles@[j], removed@[u]]
                        0 <= m < meshes@.len() && 0 <= j < meshes@[m].triangles@.len() && 0 <= u
                            < tcount && !removed@[u]
                            ==> tris_disjoint(
                                triangles@[meshes@[m].triangles@[j] as int],
                                triangles@[u],
                            ),
                    forall|j: int, m: int, l: int|
                        #![trigger mesh.triangles@[j], meshes@[m].triangles@[l]]
                        0 <= j < mesh.triangles@.len() && 0 <= m < meshes@.len() && 0 <= l
                            < meshes@[m].triangles@.len()
                            ==> tris_disjoint(
                                triangles@[mesh.triangles@[j] as int],
                                triangles@[meshes@[m].triangles@[l] as int],
                            ),
                    forall|j: int, u: int|
                        #![trigger mesh.triangles@[j], removed@[u]]
                        0 <= j < i && 0 <= u < tcount && !removed@[u]
                            ==> tris_disjoint(
                                triangles@[mesh.triangles@[j] as int],
                                triangles@[u],
                            ),
                decreases count_false(removed@) + last_triangle - i,
            {
                let seed = mesh.triangles[i];
                let tri = triangles[seed];
                let ghost cf0 = count_false(removed@);
                let ghost lt0 = last_triangle as int;
                let mut other: usize = 0;
                while other < tcount
                    invariant
                        tcount == triangles@.len(),
                        removed@.len() == tcount,
                        other <= tcount,
                        i < last_triangle,
                        forall|k: int| 0 <= k <= triangle_index ==> (#[trigger] removed@[k]),
                        mesh.uv_min.x == COORD_LIMIT && mesh.uv_min.y == COORD_LIMIT,
                        mesh.uv_max.x == -COORD_LIMIT && mesh.uv_max.y == -COORD_LIMIT,
                        mesh.triangles@.len() == last_triangle,
                        count_false(removed@) + last_triangle as int == cf0 + lt0,
                        last_triangle as int + count_false(removed@) <= tcount,
                        0 <= count_false(removed@),
                        forall|j: int|
                            0 <= j < mesh.triangles@.len()
                                ==> (#[trigger] mesh.triangles@[j] as int) < tcount
                                    && removed@[mesh.triangles@[j] as int],
                        forall|j1: int, j2: int|
                            #![trigger mesh.triangles@[j1], mesh.triangles@[j2]]
                            0 <= j1 < j2 < mesh.triangles@.len()
                                ==> mesh.triangles@[j1] != mesh.triangles@[j2],
                        forall|m: int, j: int|
                            #![trigger meshes@[m].triangles@[j]]
                            0 <= m < meshes@.len() && 0 <= j < meshes@[m].triangles@.len()
                                ==> (meshes@[m].triangles@[j] as int) < tcount
                                    && removed@[meshes@[m].triangles@[j] as int],
                        forall|j: int, m: int, l: int|
                            #![trigger mesh.triangles@[j], meshes@[m].triangles@[l]]
                            0 <= j < mesh.triangles@.len() && 0 <= m < meshes@.len() && 0 <= l
                                < meshes@[m].triangles@.len()
                                ==> mesh.triangles@[j] != meshes@[m].triangles@[l],
                        forall|k: int|
                            0 <= k < tcount && removed@[k] ==> appears_in(meshes@, k as usize)
                                || mesh.triangles@.contains(k as usize),
                        meshes_distinct(meshes@),
                        cross_vertex_disjoint(meshes@, triangles@),
                        seeds_ordered(meshes@),
                        forall|m: int|
                            0 <= m < meshes@.len() ==> (#[trigger] meshes@[m]).triangles@[0]
                                < triangle_index,
                        mesh.triangles@[0] == triangle_index,
                        forall|j: int|
                            1 <= j < mesh.triangles@.len()
                                ==> (#[trigger] mesh.triangles@[j]) > triangle_index,
                        seed == mesh.triangles@[i as int],
                        tri == triangles@[seed as int],
                        forall|m: int, j: int, u: int|
                            #![trigger meshes@[m].triangles@[j], removed@[u]]
                            0 <= m < meshes@.len() && 0 <= j < meshes@[m].triangles@.len() && 0
                                <= u < tcount && !removed@[u]
                                ==> tris_disjoint(
                                    triangles@[meshes@[m].triangles@[j] as int],
                                    triangles@[u],
                                ),
                        forall|j: int, m: int, l: int|
                            #![trigger mesh.triangles@[j], meshes@[m].triangles@[l]]
                            0 <= j < mesh.triangles@.len() && 0 <= m < meshes@.len() && 0 <= l
                                < meshes@[m].triangles@.len()
                                ==> tris_disjoint(
                                    triangles@[mesh.triangles@[j] as int],
                                    triangles@[meshes@[m].triangles@[l] as int],
                                ),
                        forall|j: int, u: int|
                            #![trigger mesh.triangles@[j], removed@[u]]
                            0 <= j < i && 0 <= u < tcount && !removed@[u]
                                ==> tris_disjoint(
                                    triangles@[mesh.triangles@[j] as int],
                                    triangles@[u],
                                ),
                        forall|u: int|
                            0 <= u < other && !(#[trigger] removed@[u])
                                ==> tris_disjoint(tri, triangles@[u]),
                    decreases tcount - other,
                {
                    if !removed[other] {
                        let other_tri = triangles[other];
                        if tri_shares(tri, other_tri) {
                            let ghost removed_before = removed@;
                            let ghost mesh_before = mesh.triangles@;
                            mesh.triangles.push(other);
                            removed[other] = true;
                            proof {
                                lemma_count_false_update(removed_before, other as int);
                                lemma_count_false_le(removed@);
                                assert(forall|k: int|
                                    0 <= k < tcount && k != other as int
                                        ==> removed@[k] == removed_before[k]);
                                assert(mesh.triangles@[mesh_before.len() as int] == other);
                                assert forall|k: usize|
                                    mesh_before.contains(k) implies mesh.triangles@.contains(
                                    k,
                                ) by {
                                    let jj = choose|jj: int|
                                        0 <= jj < mesh_before.len() && mesh_before[jj] == k;
                                    assert(mesh.triangles@[jj] == k);
                                }
                                assert(mesh.triangles@.contains(other));
                                assert(other > triangle_index);
                                // The absorbed triangle was unassigned, so it
                                // shares no vertex index with any finished
                                // island.
                                assert forall|m: int, l: int|
                                    0 <= m < meshes@.len() && 0 <= l
                                        < meshes@[m].triangles@.len() implies tris_disjoint(
                                    triangles@[other as int],
                                    triangles@[#[trigger] meshes@[m].triangles@[l] as int],
                                ) by {
                                    assert(!removed_before[other as int]);
                                    assert(tris_disjoint(
                                        triangles@[meshes@[m].triangles@[l] as int],
                                        triangles@[other as int],
                                    ));
                                }
                            }
                            last_triangle = last_triangle + 1;
                        }
                    }
                    other = other + 1;
                }
                proof {
                    assert forall|u: int|
                        0 <= u < tcount && !(#[trigger] removed@[u]) implies tris_disjoint(
                        triangles@[mesh.triangles@[i as int] as int],
                        triangles@[u],
                    ) by {
                        assert(tris_disjoint(tri, triangles@[u]));
                    }
                }
                i = i + 1;
            }
            // Tighten the bounding box over every projected corner of the
            // island's triangles.
            let ghost mtris = mesh.triangles@;
            proof {
                assert(mtris.len() >= 1);
                assert(mtris[0] == triangle_index);
                assert(forall|j: int|
                    1 <= j < mtris.len() ==> (#[trigger] mtris[j]) > triangle_index);
                assert forall|j: int, m: int, l: int|
                    #![trigger mtris[j], meshes@[m].triangles@[l]]
                    0 <= j < mtris.len() && 0 <= m < meshes@.len() && 0 <= l
                        < meshes@[m].triangles@.len() implies tris_disjoint(
                    triangles@[mtris[j] as int],
                    triangles@[meshes@[m].triangles@[l] as int],
                ) by {
                    assert(mtris[j] == mesh.triangles@[j]);
                }
                assert forall|j: int, u: int|
                    #![trigger mtris[j], removed@[u]]
                    0 <= j < mtris.len() && 0 <= u < tcount && !removed@[u] implies tris_disjoint(
                    triangles@[mtris[j] as int],
                    triangles@[u],
                ) by {
                    assert(mtris[j] == mesh.triangles@[j]);
                }
            }
            let mut j: usize = 0;
            while j < mesh.triangles.len()
                invariant
                    tcount == triangles@.len(),
                    uv_box.projections@.len() == tcount,
                    forall|ii: int, k: int|
                        #![trigger uv_box.projections@[ii][k]]
                        0 <= ii < tcount && 0 <= k < 3 ==> {
                            let p = uv_box.projections@[ii][k];
                            -COORD_LIMIT <= p.x <= COORD_LIMIT && -COORD_LIMIT <= p.y
                                <= COORD_LIMIT
                        },
                    mesh.triangles@ == mtris,
                    j <= mtris.len(),
                    forall|jj: int|
                        0 <= jj < mtris.len() ==> (#[trigger] mtris[jj] as int) < tcount,
                    -COORD_LIMIT <= mesh.uv_min.x <= COORD_LIMIT,
                    -COORD_LIMIT <= mesh.uv_min.y <= COORD_LIMIT,
                    -COORD_LIMIT <= mesh.uv_max.x <= COORD_LIMIT,
                    -COORD_LIMIT <= mesh.uv_max.y <= COORD_LIMIT,
                    j >= 1 ==> mesh.uv_min.x <= mesh.uv_max.x && mesh.uv_min.y <= mesh.uv_max.y,
                    j >= 1 ==> bounds_attained(&mesh, uv_box.projections@),
                    j == 0 ==> mesh.uv_min.x == COORD_LIMIT && mesh.uv_min.y == COORD_LIMIT
                        && mesh.uv_max.x == -COORD_LIMIT && mesh.uv_max.y == -COORD_LIMIT,
                    forall|jj: int, k: int|
                        #![trigger uv_box.projections@[mtris[jj] as int][k]]
                        0 <= jj < j && 0 <= k < 3 ==> {
                            let p = uv_box.projections@[mtris[jj] as int][k];
                            mesh.uv_min.x <= p.x <= mesh.uv_max.x && mesh.uv_min.y <= p.y
                                <= mesh.uv_max.y
                        },
                decreases mtris.len() - j,
            {
                let ti = mesh.triangles[j];
                let corners = uv_box.projections[ti];
                let mut k: usize = 0;
                while k < 3
                    invariant
                        k <= 3,
                        corners == uv_box.projections@[ti as int],
                        ti < tcount,
                        tcount == uv_box.projections@.len(),
                        forall|kk: int|
                            #![trigger corners[kk]]
                            0 <= kk < 3 ==> {
                                let p = corners[kk];
                                -COORD_LIMIT <= p.x <= COORD_LIMIT && -COORD_LIMIT <= p.y
                                    <= COORD_LIMIT
                            },
                        -COORD_LIMIT <= mesh.uv_min.x <= COORD_LIMIT,
                        -COORD_LIMIT <= mesh.uv_min.y <= COORD_LIMIT,
                        -COORD_LIMIT <= mesh.uv_max.x <= COORD_LIMIT,
                        -COORD_LIMIT <= mesh.uv_max.y <= COORD_LIMIT,
                        mesh.triangles@ == mtris,
                        ti == mtris[j as int],
                        j < mtris.len(),
                        forall|jj: int, kk: int|
                            #![trigger uv_box.projections@[mtris[jj] as int][kk]]
                            0 <= jj < j && 0 <= kk < 3 ==> {
                                let p = uv_box.projections@[mtris[jj] as int][kk];
                                mesh.uv_min.x <= p.x <= mesh.uv_max.x && mesh.uv_min.y <= p.y
                                    <= mesh.uv_max.y
                            },
                        k >= 1 ==> mesh.uv_min.x <= mesh.uv_max.x && mesh.uv_min.y
                            <= mesh.uv_max.y,
                        (j >= 1 || k >= 1) ==> bounds_attained(&mesh, uv_box.projections@),
                        j == 0 && k == 0 ==> mesh.uv_min.x == COORD_LIMIT && mesh.uv_min.y
                            == COORD_LIMIT && mesh.uv_max.x == -COORD_LIMIT && mesh.uv_max.y
                            == -COORD_LIMIT,
                        forall|kk: int|
                            #![trigger corners[kk]]
                            0 <= kk < k ==> {
                                let p = corners[kk];
                                mesh.uv_min.x <= p.x <= mesh.uv_max.x && mesh.uv_min.y <= p.y
                                    <= mesh.uv_max.y
                            },
                    decreases 3 - k,
                {
                    let p = corners[k];
                    let ghost mesh_pre = mesh;
                    if p.x < mesh.uv_min.x {
                        mesh.uv_min = Fixed2 { x: p.x, y: mesh.uv_min.y };
                    }
                    if p.y < mesh.uv_min.y {
                        mesh.uv_min = Fixed2 { x: mesh.uv_min.x, y: p.y };
                    }
                    if p.x > mesh.uv_max.x {
                        mesh.uv_max = Fixed2 { x: p.x, y: mesh.uv_max.y };
                    }
                    if p.y > mesh.uv_max.y {
                        mesh.uv_max = Fixed2 { x: mesh.uv_max.x, y: p.y };
                    }
                    proof {
                        let projs = uv_box.projections@;
                        assert(projs[mesh.triangles@[j as int] as int][k as int] == p);
                        if mesh.uv_min.x == p.x {
                            assert(projs[mesh.triangles@[j as int] as int][k as int].x
                                == mesh.uv_min.x);
                        } else {
                            assert(j >= 1 || k >= 1);
                            let (jj, kk): (int, int) = choose|jj: int, kk: int|
                                0 <= jj < mesh_pre.triangles@.len() && 0 <= kk < 3
                                    && (#[trigger] projs[mesh_pre.triangles@[jj] as int][
                                    kk
                                ]).x == mesh_pre.uv_min.x;
                            assert(projs[mesh.triangles@[jj] as int][kk].x == mesh.uv_min.x);
                        }
                        if mesh.uv_min.y == p.y {
                            assert(projs[mesh.triangles@[j as int] as int][k as int].y
                                == mesh.uv_min.y);
                        } else {
                            assert(j >= 1 || k >= 1);
                            let (jj, kk): (int, int) = choose|jj: int, kk: int|
                                0 <= jj < mesh_pre.triangles@.len() && 0 <= kk < 3
                                    && (#[trigger] projs[mesh_pre.triangles@[jj] as int][
                                    kk
                                ]).y == mesh_pre.uv_min.y;
                            assert(projs[mesh.triangles@[jj] as int][kk].y == mesh.uv_min.y);
                        }
                        if mesh.uv_max.x == p.x {
                            assert(projs[mesh.triangles@[j as int] as int][k as int].x
                                == mesh.uv_max.x);
                        } else {
                            assert(j >= 1 || k >= 1);
                            let (jj, kk): (int, int) = choose|jj: int, kk: int|
                                0 <= jj < mesh_pre.triangles@.len() && 0 <= kk < 3
                                    && (#[trigger] projs[mesh_pre.triangles@[jj] as int][
                                    kk
                                ]).x == mesh_pre.uv_max.x;
                            assert(projs[mesh.triangles@[jj] as int][kk].x == mesh.uv_max.x);
                        }
                        if mesh.uv_max.y == p.y {
                            assert(projs[mesh.triangles@[j as int] as int][k as int].y
                                == mesh.uv_max.y);
                        } else {
                            assert(j >= 1 || k >= 1);
                            let (jj, kk): (int, int) = choose|jj: int, kk: int|
                                0 <= jj < mesh_pre.triangles@.len() && 0 <= kk < 3
                                    && (#[trigger] projs[mesh_pre.triangles@[jj] as int][
                                    kk
                                ]).y == mesh_pre.uv_max.y;
                            assert(projs[mesh.triangles@[jj] as int][kk].y == mesh.uv_max.y);
                        }
                        assert(bounds_attained(&mesh, uv_box.projections@));
                    }
                    k = k + 1;
                }
                j = j + 1;
            }
            proof {
                assert(mesh_bounds_wf(&mesh));
                assert forall|jj: int, kk: int|
                    #![trigger uv_box.projections@[mesh.triangles@[jj] as int][kk]]
                    0 <= jj < mesh.triangles@.len() && 0 <= kk < 3 implies {
                    let p = uv_box.projections@[mesh.triangles@[jj] as int][kk];
                    mesh.uv_min.x <= p.x <= mesh.uv_max.x && mesh.uv_min.y <= p.y
                        <= mesh.uv_max.y
                } by {
                    assert(mesh.triangles@[jj] == mtris[jj]);
                }
                assert(mesh_bounds_contain(&mesh, uv_box.projections@));
            }
            let ghost meshes_before = meshes@;
            meshes.push(mesh);
            proof {
                let nm = meshes_before.len() as int;
                assert(meshes@[nm].triangles@ == mtris);
                assert forall|m1: int, j1: int, m2: int, j2: int|
                    #![trigger meshes@[m1].triangles@[j1], meshes@[m2].triangles@[j2]]
                    0 <= m1 < meshes@.len() && 0 <= j1 < meshes@[m1].triangles@.len() && 0 <= m2
                        < meshes@.len() && 0 <= j2 < meshes@[m2].triangles@.len() && m1
                        != m2 implies tris_disjoint(
                    triangles@[meshes@[m1].triangles@[j1] as int],
                    triangles@[meshes@[m2].triangles@[j2] as int],
                ) by {
                    if m1 == nm {
                        assert(tris_disjoint(
                            triangles@[mtris[j1] as int],
                            triangles@[meshes_before[m2].triangles@[j2] as int],
                        ));
                    } else if m2 == nm {
                        assert(tris_disjoint(
                            triangles@[mtris[j2] as int],
                            triangles@[meshes_before[m1].triangles@[j1] as int],
                        ));
                    } else {
                        assert(meshes@[m1] == meshes_before[m1]);
                        assert(meshes@[m2] == meshes_before[m2]);
                    }
                }
                assert(seeds_ordered(meshes@)) by {
                    assert(forall|m: int|
                        0 <= m < nm ==> (#[trigger] meshes@[m]) == meshes_before[m]);
                    assert(meshes@[nm].triangles@[0] == triangle_index);
                }
                assert forall|k: int|
                    0 <= k < tcount && removed@[k] implies appears_in(
                    meshes@,
                    k as usize,
                ) by {
                    if appears_in(meshes_before, k as usize) {
                        let m = choose|m: int|
                            0 <= m < meshes_before.len() && (#[trigger] meshes_before[m])
                                .triangles@.contains(k as usize);
                        assert(meshes@[m].triangles@.contains(k as usize));
                    } else {
                        assert(mtris.contains(k as usize));
                        assert(meshes@[meshes_before.len() as int].triangles@.contains(
                            k as usize,
                        ));
                    }
                }
            }
        }
        triangle_index = triangle_index + 1;
    }
    proof {
        assert forall|t: int|
            0 <= t < triangles@.len() implies #[trigger] appears_in(meshes@, t as usize) by {
            assert(removed@[t]);
        }
    }
    meshes
}

/// All face pairs up to `upto` are seam-free in `ts`: no triangle of a face
/// below `upto` shares a vertex index with a triangle of any other face.
pub open spec fn seams_split_upto(b: &UvBox, ts: Seq<[u32; 3]>, upto: int) -> bool {
    forall|f1: int, f2: int|
        #![trigger bucket_at(b, f1), bucket_at(b, f2)]
        0 <= f1 < upto && 0 <= f2 < 6 && f1 != f2
            ==> faces_disjoint(ts, bucket_at(b, f1), bucket_at(b, f2))
}

/// One pass of [`make_seam`] over face `cur` extends seam-freedom from the
/// faces below `cur` to the faces below `cur + 1`: the pass touches only
/// `cur`'s triangles, and only by rewriting entries to fresh indices.
proof fn lemma_seam_step(
    b: &UvBox,
    ts_mid: Seq<[u32; 3]>,
    ts_new: Seq<[u32; 3]>,
    len_mid: int,
    tcount: int,
    cur: int,
)
    requires
        0 <= cur < 6,
        buckets_ok(b, tcount),
        ts_mid.len() == tcount,
        ts_new.len() == tcount,
        entries_below(ts_mid, len_mid),
        forall|k: int|
            0 <= k < tcount && !bucket_at(b, cur).contains(k as usize)
                ==> (#[trigger] ts_new[k]) == ts_mid[k],
        forall|j: int, k: int|
            #![trigger ts_new[bucket_at(b, cur)[j] as int][k]]
            0 <= j < bucket_at(b, cur).len() && 0 <= k < 3
                ==> ts_new[bucket_at(b, cur)[j] as int][k] == ts_mid[bucket_at(b, cur)[j] as int][k]
                    || ts_new[bucket_at(b, cur)[j] as int][k] >= len_mid,
        forall|of: int|
            0 <= of < 6 && of != cur
                ==> faces_disjoint(ts_new, bucket_at(b, cur), #[trigger] bucket_at(b, of)),
        seams_split_upto(b, ts_mid, cur),
    ensures
        seams_split_upto(b, ts_new, cur + 1),
{
    let bc = bucket_at(b, cur);
    assert forall|f1: int, f2: int|
        #![trigger bucket_at(b, f1), bucket_at(b, f2)]
        0 <= f1 < cur + 1 && 0 <= f2 < 6 && f1 != f2 implies faces_disjoint(
        ts_new,
        bucket_at(b, f1),
        bucket_at(b, f2),
    ) by {
        let ba = bucket_at(b, f1);
        let bb = bucket_at(b, f2);
        if f1 == cur {
            assert(faces_disjoint(ts_new, bc, bb));
        } else if f2 == cur {
            // Symmetric to the freshly established pair `(cur, f1)`.
            assert(faces_disjoint(ts_new, bc, ba));
            assert forall|j: int, l: int|
                #![trigger ba[j], bb[l]]
                0 <= j < ba.len() && 0 <= l < bb.len() implies tris_disjoint(
                ts_new[ba[j] as int],
                ts_new[bb[l] as int],
            ) by {
                assert(tris_disjoint(ts_new[bb[l] as int], ts_new[ba[j] as int]));
            }
        } else {
            // Neither face is `cur`: `f2`'s triangles are untouched and
            // `f1`'s were already disjoint from them; `f1`'s triangles are
            // untouched too, unless `f1`'s bucket meets `cur`'s, which the
            // bucket partition rules out.
            assert forall|j: int, l: int|
                #![trigger ba[j], bb[l]]
                0 <= j < ba.len() && 0 <= l < bb.len() implies tris_disjoint(
                ts_new[ba[j] as int],
                ts_new[bb[l] as int],
            ) by {
                assert(!bc.contains(ba[j]));
                assert(!bc.contains(bb[l]));
                assert(ts_new[ba[j] as int] == ts_mid[ba[j] as int]);
                assert(ts_new[bb[l] as int] == ts_mid[bb[l] as int]);
                assert(tris_disjoint(ts_mid[ba[j] as int], ts_mid[bb[l] as int]));
            }
        }
    }
}

/// Generates the set of UV islands for a box-projected mesh: first splits
/// the vertices at every boundary between two faces, so that seams get
/// separate texture coordinates, then groups the triangles of the UV map
/// into connected islands. Returns the islands and the patch holding the
/// clone ledger; the patch's triangle list and texture coordinates are
/// filled in later.
pub fn generate_uv_meshes(
    uv_box: &UvBox,
    data_id: u64,
    vertices: &mut Vec<Fixed3>,
    triangles: &mut Vec<[u32; 3]>,
) -> (r: (Vec<UvMesh>, SurfaceDataPatch))
    requires
        buckets_ok(uv_box, old(triangles)@.len() as int),
        bucket_at(uv_box, 0).len() + bucket_at(uv_box, 1).len() + bucket_at(uv_box, 2).len()
            + bucket_at(uv_box, 3).len() + bucket_at(uv_box, 4).len() + bucket_at(uv_box, 5).len()
            == old(triangles)@.len(),
        entries_below(old(triangles)@, old(vertices)@.len() as int),
        old(vertices)@.len() + 15 * old(triangles)@.len() <= 4294967295,
        forall|v: int| 0 <= v < old(vertices)@.len()
            ==> in_coord_range(#[trigger] old(vertices)@[v]),
        uv_box.projections@.len() == old(triangles)@.len(),
        forall|i: int, k: int|
            #![trigger uv_box.projections@[i][k]]
            0 <= i < old(triangles)@.len() && 0 <= k < 3 ==> {
                let p = uv_box.projections@[i][k];
                -COORD_LIMIT <= p.x <= COORD_LIMIT && -COORD_LIMIT <= p.y <= COORD_LIMIT
            },
    ensures
        final(triangles)@.len() == old(triangles)@.len(),
        entries_below(final(triangles)@, final(vertices)@.len() as int),
        old(vertices)@.is_prefix_of(final(vertices)@),
        forall|v: int| 0 <= v < final(vertices)@.len()
            ==> in_coord_range(#[trigger] final(vertices)@[v]),
        r.1.data_id == data_id,
        r.1.triangles@.len() == 0,
        r.1.second_tex_coords@.len() == 0,
        clones_wf(final(vertices)@, r.1.additional_vertices@, old(vertices)@.len() as int),
        seams_split_upto(uv_box, final(triangles)@, 6),
        meshes_partition(r.0@, final(triangles)@.len() as int),
        cross_vertex_disjoint(r.0@, final(triangles)@),
        seeds_ordered(r.0@),
        forall|m: int|
            0 <= m < r.0@.len() ==> {
                &&& (#[trigger] r.0@[m]).triangles@.len() >= 1
                &&& mesh_bounds_wf(&r.0@[m])
                &&& mesh_bounds_contain(&r.0@[m], uv_box.projections@)
                &&& bounds_attained(&r.0@[m], uv_box.projections@)
            },
{
    let ghost n0 = old(vertices)@.len() as int;
    let ghost tcount = old(triangles)@.len() as int;
    let mut mesh_patch = SurfaceDataPatch {
        data_id,
        additional_vertices: Vec::new(),
        triangles: Vec::new(),
        second_tex_coords: Vec::new(),
    };
    // Step 1: split vertices at the boundary between each pair of faces, so
    // seams get separate texture coordinates.
    let mut face_index: usize = 0;
    while face_index < 6
        invariant
            face_index <= 6,
            tcount == old(triangles)@.len(),
            n0 == old(vertices)@.len(),
            buckets_ok(uv_box, tcount),
            bucket_at(uv_box, 0).len() + bucket_at(uv_box, 1).len() + bucket_at(uv_box, 2).len()
                + bucket_at(uv_box, 3).len() + bucket_at(uv_box, 4).len() + bucket_at(
                uv_box,
                5,
            ).len() == tcount,
            triangles@.len() == tcount,
            entries_below(triangles@, vertices@.len() as int),
            old(vertices)@.is_prefix_of(vertices@),
            vertices@.len() <= n0 + 15 * bucket_len_prefix(uv_box, face_index as int),
            n0 + 15 * tcount <= 4294967295,
            forall|v: int| 0 <= v < vertices@.len()
                ==> in_coord_range(#[trigger] vertices@[v]),
            mesh_patch.data_id == data_id,
            mesh_patch.triangles@.len() == 0,
            mesh_patch.second_tex_coords@.len() == 0,
            clones_wf(vertices@, mesh_patch.additional_vertices@, n0),
            seams_split_upto(uv_box, triangles@, face_index as int),
        decreases 6 - face_index,
    {
        let ghost ts_mid = triangles@;
        let ghost len_mid = vertices@.len() as int;
        proof {
            lemma_bucket_len_prefix_bounds(uv_box, face_index as int);
        }
        make_seam(vertices, triangles, face_index, uv_box, &mut mesh_patch, Ghost(n0));
        proof {
            lemma_seam_step(
                uv_box,
                ts_mid,
                triangles@,
                len_mid,
                tcount,
                face_index as int,
            );
        }
        face_index = face_index + 1;
    }
    // Step 2: find the connected islands of the UV map.
    let meshes = segment_islands(triangles, uv_box);
    (meshes, mesh_patch)
}

/// Sum of the lengths of the face buckets below `upto`.
pub open spec fn bucket_len_prefix(b: &UvBox, upto: int) -> int
    decreases upto,
{
    if upto <= 0 {
        0
    } else {
        bucket_len_prefix(b, upto - 1) + bucket_at(b, upto - 1).len()
    }
}

/// The prefix sums of the bucket lengths stay below the total bucket sum.
proof fn lemma_bucket_len_prefix_bounds(b: &UvBox, upto: int)
    requires
        0 <= upto <= 6,
    ensures
        0 <= bucket_len_prefix(b, upto),
        bucket_len_prefix(b, upto) + (if upto < 6 { bucket_at(b, upto).len() as int } else { 0 })
            <= bucket_at(b, 0).len() + bucket_at(b, 1).len() + bucket_at(b, 2).len() + bucket_at(
            b,
            3,
        ).len() + bucket_at(b, 4).len() + bucket_at(b, 5).len(),
        upto < 6 ==> bucket_len_prefix(b, upto + 1) == bucket_len_prefix(b, upto) + bucket_at(
            b,
            upto,
        ).len(),
    decreases 6 - upto,
{
    assert(bucket_len_prefix(b, 0) == 0);
    assert(bucket_len_prefix(b, 1) == bucket_at(b, 0).len());
    assert(bucket_len_prefix(b, 2) == bucket_len_prefix(b, 1) + bucket_at(b, 1).len());
    assert(bucket_len_prefix(b, 3) == bucket_len_prefix(b, 2) + bucket_at(b, 2).len());
    assert(bucket_len_prefix(b, 4) == bucket_len_prefix(b, 3) + bucket_at(b, 3).len());
    assert(bucket_len_prefix(b, 5) == bucket_len_prefix(b, 4) + bucket_at(b, 4).len());
    assert(bucket_len_prefix(b, 6) == bucket_len_prefix(b, 5) + bucket_at(b, 5).len());
}

} // verus!
