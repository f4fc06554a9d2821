//! Seam splitting: duplicates vertices shared between triangles that sit on
//! different box faces, so that no vertex index crosses a face boundary.

use vstd::prelude::*;
use crate::math::Fixed3;
use crate::math::in_coord_range;
use crate::boxmap::strictly_inc;
use crate::boxmap::bucket_at;
use crate::boxmap::UvBox;
use crate::SurfaceDataPatch;

verus! {

/// True when `t` references vertex index `v`.
pub open spec fn tri_has(t: [u32; 3], v: u32) -> bool {
    t[0] == v || t[1] == v || t[2] == v
}

/// True when `s` and `t` share no vertex index.
pub open spec fn tris_disjoint(s: [u32; 3], t: [u32; 3]) -> bool {
    !tri_has(t, s[0]) && !tri_has(t, s[1]) && !tri_has(t, s[2])
}

/// True when every vertex index of every triangle of `ts` is below `bound`.
pub open spec fn entries_below(ts: Seq<[u32; 3]>, bound: int) -> bool {
    forall|i: int, k: int|
        0 <= i < ts.len() && 0 <= k < 3 ==> (#[trigger] ts[i][k]) < bound
}

/// True when no triangle listed in `a` shares a vertex index with a triangle
/// listed in `b`.
pub open spec fn faces_disjoint(ts: Seq<[u32; 3]>, a: Seq<usize>, b: Seq<usize>) -> bool {
    forall|j: int, l: int|
        #![trigger a[j], b[l]]
        0 <= j < a.len() && 0 <= l < b.len()
            ==> tris_disjoint(ts[a[j] as int], ts[b[l] as int])
}

/// The clone ledger is consistent: the vertex buffer holds the `n0` original
/// vertices followed by one clone per ledger entry, each clone equal to the
/// (original or earlier-cloned) vertex its entry points at.
pub open spec fn clones_wf(vs: Seq<Fixed3>, adds: Seq<u32>, n0: int) -> bool {
    &&& vs.len() == n0 + adds.len()
    &&& forall|j: int| 0 <= j < adds.len()
        ==> (#[trigger] adds[j]) < n0 + j && vs[n0 + j] == vs[adds[j] as int]
}

/// Number of entries of `t` that are at least `bound` (freshly cloned
/// indices, when `bound` is the vertex count a pass started from).
pub open spec fn fresh_in_tri(t: [u32; 3], bound: int) -> int {
    (if t[0] as int >= bound { 1int } else { 0int })
        + (if t[1] as int >= bound { 1int } else { 0int })
        + (if t[2] as int >= bound { 1int } else { 0int })
}

/// Total number of fresh entries over the triangles listed in `idxs`.
pub open spec fn fresh_count(ts: Seq<[u32; 3]>, idxs: Seq<usize>, bound: int) -> int
    decreases idxs.len(),
{
    if idxs.len() == 0 {
        0
    } else {
        fresh_in_tri(ts[idxs[0] as int], bound) + fresh_count(ts, idxs.drop_first(), bound)
    }
}

proof fn lemma_fresh_count_bounds(ts: Seq<[u32; 3]>, idxs: Seq<usize>, bound: int)
    ensures
        0 <= fresh_count(ts, idxs, bound) <= 3 * idxs.len(),
    decreases idxs.len(),
{
    if idxs.len() > 0 {
        lemma_fresh_count_bounds(ts, idxs.drop_first(), bound);
    }
}

proof fn lemma_fresh_count_agree(ts1: Seq<[u32; 3]>, ts2: Seq<[u32; 3]>, idxs: Seq<usize>, bound: int)
    requires
        forall|j: int| 0 <= j < idxs.len()
            ==> ts1[#[trigger] idxs[j] as int] == ts2[idxs[j] as int],
    ensures
        fresh_count(ts1, idxs, bound) == fresh_count(ts2, idxs, bound),
    decreases idxs.len(),
{
    if idxs.len() > 0 {
        assert(forall|j: int| 0 <= j < idxs.drop_first().len()
            ==> #[trigger] idxs.drop_first()[j] == idxs[j + 1]);
        lemma_fresh_count_agree(ts1, ts2, idxs.drop_first(), bound);
    }
}

proof fn lemma_fresh_count_zero(ts: Seq<[u32; 3]>, idxs: Seq<usize>, bound: int)
    requires
        forall|j: int, k: int|
            #![trigger ts[idxs[j] as int][k]]
            0 <= j < idxs.len() && 0 <= k < 3 ==> (ts[idxs[j] as int][k] as int) < bound,
    ensures
        fresh_count(ts, idxs, bound) == 0,
    decreases idxs.len(),
{
    if idxs.len() > 0 {
        assert(forall|j: int| 0 <= j < idxs.drop_first().len()
            ==> #[trigger] idxs.drop_first()[j] == idxs[j + 1]);
        lemma_fresh_count_zero(ts, idxs.drop_first(), bound);
        assert(fresh_in_tri(ts[idxs[0] as int], bound) == 0);
    }
}

proof fn lemma_fresh_count_update(
    ts: Seq<[u32; 3]>,
    idxs: Seq<usize>,
    bound: int,
    k: usize,
    t2: [u32; 3],
)
    requires
        strictly_inc(idxs),
        idxs.contains(k),
        k < ts.len(),
        forall|j: int| 0 <= j < idxs.len() ==> (#[trigger] idxs[j]) < ts.len(),
    ensures
        fresh_count(ts.update(k as int, t2), idxs, bound) == fresh_count(ts, idxs, bound)
            + fresh_in_tri(t2, bound) - fresh_in_tri(ts[k as int], bound),
    decreases idxs.len(),
{
    let rest = idxs.drop_first();
    assert(forall|j: int| 0 <= j < rest.len() ==> #[trigger] rest[j] == idxs[j + 1]);
    let ts2 = ts.update(k as int, t2);
    if idxs[0] == k {
        assert(forall|j: int| 0 <= j < rest.len() ==> rest[j] != k) by {
            assert(forall|j: int| 0 <= j < rest.len() ==> #[trigger] rest[j] == idxs[j + 1]
                && idxs[0] < idxs[j + 1]);
        }
        assert(forall|j: int| 0 <= j < rest.len()
            ==> ts2[#[trigger] rest[j] as int] == ts[rest[j] as int]);
        lemma_fresh_count_agree(ts2, ts, rest, bound);
    } else {
        let w = choose|w: int| 0 <= w < idxs.len() && idxs[w] == k;
        assert(w >= 1);
        assert(rest[w - 1] == k);
        assert(rest.contains(k));
        assert(strictly_inc(rest));
        lemma_fresh_count_update(ts, rest, bound, k, t2);
        assert(ts2[idxs[0] as int] == ts[idxs[0] as int]);
    }
}

/// The face buckets of `b` are usable for seam splitting over a triangle
/// buffer of length `tcount`: each is strictly increasing with entries in
/// range, and no triangle index sits in two different buckets.
pub open spec fn buckets_ok(b: &UvBox, tcount: int) -> bool {
    &&& forall|f: int| 0 <= f < 6 ==> strictly_inc(#[trigger] bucket_at(b, f))
    &&& forall|f: int, j: int|
        0 <= f < 6 && 0 <= j < bucket_at(b, f).len()
            ==> (#[trigger] bucket_at(b, f)[j]) < tcount
    &&& forall|f1: int, f2: int, j: int, l: int|
        #![trigger bucket_at(b, f1)[j], bucket_at(b, f2)[l]]
        0 <= f1 < 6 && 0 <= f2 < 6 && f1 != f2 && 0 <= j < bucket_at(b, f1).len() && 0 <= l
            < bucket_at(b, f2).len() ==> bucket_at(b, f1)[j] != bucket_at(b, f2)[l]
}

/// Splits the seam between one face and one other face: every vertex of a
/// triangle on the current face (`face_tris`) that is also referenced by a
/// triangle on the other face (`other_tris`) is cloned; the clone is appended
/// to the vertex buffer, recorded in the patch's additional-vertex ledger,
/// and the occurrence in the current face's triangle is rewritten to the
/// clone's index. Afterwards the two faces share no vertex index.
pub fn face_vs_face(
    vertices: &mut Vec<Fixed3>,
    triangles: &mut Vec<[u32; 3]>,
    face_tris: &Vec<usize>,
    other_tris: &Vec<usize>,
    patch: &mut SurfaceDataPatch,
    Ghost(n0): Ghost<int>,
)
    requires
        strictly_inc(face_tris@),
        forall|j: int| 0 <= j < face_tris@.len()
            ==> (#[trigger] face_tris@[j]) < old(triangles)@.len(),
        forall|l: int| 0 <= l < other_tris@.len()
            ==> (#[trigger] other_tris@[l]) < old(triangles)@.len(),
        forall|j: int, l: int|
            #![trigger face_tris@[j], other_tris@[l]]
            0 <= j < face_tris@.len() && 0 <= l < other_tris@.len()
                ==> face_tris@[j] != other_tris@[l],
        entries_below(old(triangles)@, old(vertices)@.len() as int),
        clones_wf(old(vertices)@, old(patch).additional_vertices@, n0),
        old(vertices)@.len() + 3 * face_tris@.len() <= 4294967295,
        forall|v: int| 0 <= v < old(vertices)@.len()
            ==> in_coord_range(#[trigger] old(vertices)@[v]),
    ensures
        final(triangles)@.len() == old(triangles)@.len(),
        forall|k: int|
            0 <= k < old(triangles)@.len() && !face_tris@.contains(k as usize)
                ==> (#[trigger] final(triangles)@[k]) == old(triangles)@[k],
        forall|j: int, k: int|
            #![trigger final(triangles)@[face_tris@[j] as int][k]]
            0 <= j < face_tris@.len() && 0 <= k < 3
                ==> final(triangles)@[face_tris@[j] as int][k]
                        == old(triangles)@[face_tris@[j] as int][k]
                    || final(triangles)@[face_tris@[j] as int][k]
                        >= old(vertices)@.len(),
        entries_below(final(triangles)@, final(vertices)@.len() as int),
        old(vertices)@.is_prefix_of(final(vertices)@),
        final(vertices)@.len() <= old(vertices)@.len() + 3 * face_tris@.len(),
        clones_wf(final(vertices)@, final(patch).additional_vertices@, n0),
        old(patch).additional_vertices@.is_prefix_of(final(patch).additional_vertices@),
        final(patch).data_id == old(patch).data_id,
        final(patch).triangles == old(patch).triangles,
        final(patch).second_tex_coords == old(patch).second_tex_coords,
        forall|v: int| 0 <= v < final(vertices)@.len()
            ==> in_coord_range(#[trigger] final(vertices)@[v]),
        faces_disjoint(final(triangles)@, face_tris@, other_tris@),
{
    let ghost len0 = old(vertices)@.len() as int;
    let ghost ts0 = old(triangles)@;
    proof {
        lemma_fresh_count_zero(triangles@, face_tris@, len0);
    }
    let na = face_tris.len();
    let nb = other_tris.len();
    let mut oi: usize = 0;
    while oi < nb
        invariant
            oi <= nb,
            na == face_tris@.len(),
            nb == other_tris@.len(),
            strictly_inc(face_tris@),
            forall|j: int| 0 <= j < na ==> (#[trigger] face_tris@[j]) < ts0.len(),
            forall|l: int| 0 <= l < nb ==> (#[trigger] other_tris@[l]) < ts0.len(),
            forall|j: int, l: int|
                #![trigger face_tris@[j], other_tris@[l]]
                0 <= j < na && 0 <= l < nb ==> face_tris@[j] != other_tris@[l],
            triangles@.len() == ts0.len(),
            forall|k: int|
                0 <= k < ts0.len() && !face_tris@.contains(k as usize)
                    ==> (#[trigger] triangles@[k]) == ts0[k],
            forall|j: int, k: int|
                #![trigger triangles@[face_tris@[j] as int][k]]
                0 <= j < na && 0 <= k < 3
                    ==> triangles@[face_tris@[j] as int][k] == ts0[face_tris@[j] as int][k]
                        || triangles@[face_tris@[j] as int][k] >= len0,
            entries_below(ts0, len0),
            entries_below(triangles@, vertices@.len() as int),
            len0 <= vertices@.len(),
            old(vertices)@.is_prefix_of(vertices@),
            vertices@.len() == len0 + fresh_count(triangles@, face_tris@, len0),
            clones_wf(vertices@, patch.additional_vertices@, n0),
            old(patch).additional_vertices@.is_prefix_of(patch.additional_vertices@),
            patch.data_id == old(patch).data_id,
            patch.triangles == old(patch).triangles,
            patch.second_tex_coords == old(patch).second_tex_coords,
            len0 + 3 * na <= 4294967295,
            forall|v: int| 0 <= v < vertices@.len()
                ==> in_coord_range(#[trigger] vertices@[v]),
            forall|j: int, l: int|
                #![trigger face_tris@[j], other_tris@[l]]
                0 <= j < na && 0 <= l < oi
                    ==> tris_disjoint(
                        triangles@[face_tris@[j] as int],
                        triangles@[other_tris@[l] as int],
                    ),
        decreases nb - oi,
    {
        let ot_idx = other_tris[oi];
        let other_triangle = triangles[ot_idx];
        proof {
            assert(!face_tris@.contains(ot_idx));
            assert(other_triangle == ts0[ot_idx as int]);
            assert(other_triangle[0] < len0 && other_triangle[1] < len0
                && other_triangle[2] < len0);
        }
        let mut fi: usize = 0;
        while fi < na
            invariant
                fi <= na,
                oi < nb,
                na == face_tris@.len(),
                nb == other_tris@.len(),
                strictly_inc(face_tris@),
                forall|j: int| 0 <= j < na ==> (#[trigger] face_tris@[j]) < ts0.len(),
                forall|l: int| 0 <= l < nb ==> (#[trigger] other_tris@[l]) < ts0.len(),
                forall|j: int, l: int|
                    #![trigger face_tris@[j], other_tris@[l]]
                    0 <= j < na && 0 <= l < nb ==> face_tris@[j] != other_tris@[l],
                ot_idx == other_tris@[oi as int],
                other_triangle == ts0[ot_idx as int],
                other_triangle[0] < len0,
                other_triangle[1] < len0,
                other_triangle[2] < len0,
                triangles@.len() == ts0.len(),
                forall|k: int|
                    0 <= k < ts0.len() && !face_tris@.contains(k as usize)
                        ==> (#[trigger] triangles@[k]) == ts0[k],
                forall|j: int, k: int|
                    #![trigger triangles@[face_tris@[j] as int][k]]
                    0 <= j < na && 0 <= k < 3
                        ==> triangles@[face_tris@[j] as int][k] == ts0[face_tris@[j] as int][k]
                            || triangles@[face_tris@[j] as int][k] >= len0,
                entries_below(ts0, len0),
                entries_below(triangles@, vertices@.len() as int),
                len0 <= vertices@.len(),
                old(vertices)@.is_prefix_of(vertices@),
                vertices@.len() == len0 + fresh_count(triangles@, face_tris@, len0),
                clones_wf(vertices@, patch.additional_vertices@, n0),
                old(patch).additional_vertices@.is_prefix_of(patch.additional_vertices@),
                patch.data_id == old(patch).data_id,
                patch.triangles == old(patch).triangles,
                patch.second_tex_coords == old(patch).second_tex_coords,
                len0 + 3 * na <= 4294967295,
                forall|v: int| 0 <= v < vertices@.len()
                    ==> in_coord_range(#[trigger] vertices@[v]),
                forall|j: int, l: int|
                    #![trigger face_tris@[j], other_tris@[l]]
                    0 <= j < na && 0 <= l < oi
                        ==> tris_disjoint(
                            triangles@[face_tris@[j] as int],
                            triangles@[other_tris@[l] as int],
                        ),
                forall|j: int|
                    0 <= j < fi
                        ==> tris_disjoint(
                            triangles@[#[trigger] face_tris@[j] as int],
                            other_triangle,
                        ),
            decreases na - fi,
        {
            let t_idx = face_tris[fi];
            let mut lane: usize = 0;
            while lane < 3
                invariant
                    lane <= 3,
                    fi < na,
                    oi < nb,
                    na == face_tris@.len(),
                    nb == other_tris@.len(),
                    strictly_inc(face_tris@),
                    forall|j: int| 0 <= j < na ==> (#[trigger] face_tris@[j]) < ts0.len(),
                    forall|l: int| 0 <= l < nb ==> (#[trigger] other_tris@[l]) < ts0.len(),
                    forall|j: int, l: int|
                        #![trigger face_tris@[j], other_tris@[l]]
                        0 <= j < na && 0 <= l < nb ==> face_tris@[j] != other_tris@[l],
                    t_idx == face_tris@[fi as int],
                    ot_idx == other_tris@[oi as int],
                    other_triangle == ts0[ot_idx as int],
                    other_triangle[0] < len0,
                    other_triangle[1] < len0,
                    other_triangle[2] < len0,
                    triangles@.len() == ts0.len(),
                    forall|k: int|
                        0 <= k < ts0.len() && !face_tris@.contains(k as usize)
                            ==> (#[trigger] triangles@[k]) == ts0[k],
                    forall|j: int, k: int|
                        #![trigger triangles@[face_tris@[j] as int][k]]
                        0 <= j < na && 0 <= k < 3
                            ==> triangles@[face_tris@[j] as int][k]
                                    == ts0[face_tris@[j] as int][k]
                                || triangles@[face_tris@[j] as int][k] >= len0,
                    entries_below(ts0, len0),
                    entries_below(triangles@, vertices@.len() as int),
                    len0 <= vertices@.len(),
                    old(vertices)@.is_prefix_of(vertices@),
                    vertices@.len() == len0 + fresh_count(triangles@, face_tris@, len0),
                    clones_wf(vertices@, patch.additional_vertices@, n0),
                    old(patch).additional_vertices@.is_prefix_of(patch.additional_vertices@),
                    patch.data_id == old(patch).data_id,
                    patch.triangles == old(patch).triangles,
                    patch.second_tex_coords == old(patch).second_tex_coords,
                    len0 + 3 * na <= 4294967295,
                    forall|v: int| 0 <= v < vertices@.len()
                        ==> in_coord_range(#[trigger] vertices@[v]),
                    forall|j: int, l: int|
                        #![trigger face_tris@[j], other_tris@[l]]
                        0 <= j < na && 0 <= l < oi
                            ==> tris_disjoint(
                                triangles@[face_tris@[j] as int],
                                triangles@[other_tris@[l] as int],
                            ),
                    forall|j: int|
                        0 <= j < fi
                            ==> tris_disjoint(
                                triangles@[#[trigger] face_tris@[j] as int],
                                other_triangle,
                            ),
                    forall|k: int|
                        0 <= k < lane ==> !tri_has(other_triangle, triangles@[t_idx as int][k]),
                decreases 3 - lane,
            {
                let t = triangles[t_idx];
                let v = t[lane];
                if v == other_triangle[0] || v == other_triangle[1] || v == other_triangle[2] {
                    proof {
                        lemma_fresh_count_bounds(triangles@, face_tris@, len0);
                        assert(vertices@.len() <= 4294967295);
                    }
                    let ghost ts_before = triangles@;
                    let fresh: u32 = vertices.len() as u32;
                    patch.additional_vertices.push(v);
                    let mut t2 = t;
                    t2[lane] = fresh;
                    triangles[t_idx] = t2;
                    let position = vertices[v as usize];
                    vertices.push(position);
                    proof {
                        assert(v < len0);
                        assert(fresh_in_tri(t2, len0) == fresh_in_tri(t, len0) + 1);
                        assert(face_tris@.contains(t_idx));
                        lemma_fresh_count_update(ts_before, face_tris@, len0, t_idx, t2);
                        assert(vertices@.len() == len0
                            + fresh_count(triangles@, face_tris@, len0));
                    }
                }
                lane = lane + 1;
            }
            proof {
                assert(tris_disjoint(triangles@[t_idx as int], other_triangle));
            }
            fi = fi + 1;
        }
        oi = oi + 1;
    }
    proof {
        lemma_fresh_count_bounds(triangles@, face_tris@, len0);
    }
}

/// Splits the seams of one face against all five other faces. After the
/// call, no triangle of `current_face`'s bucket shares a vertex index with a
/// triangle of any other face's bucket.
pub fn make_seam(
    vertices: &mut Vec<Fixed3>,
    triangles: &mut Vec<[u32; 3]>,
    current_face: usize,
    uv_box: &UvBox,
    patch: &mut SurfaceDataPatch,
    Ghost(n0): Ghost<int>,
)
    requires
        current_face < 6,
        buckets_ok(uv_box, old(triangles)@.len() as int),
        entries_below(old(triangles)@, old(vertices)@.len() as int),
        clones_wf(old(vertices)@, old(patch).additional_vertices@, n0),
        old(vertices)@.len() + 15 * bucket_at(uv_box, current_face as int).len() <= 4294967295,
        forall|v: int| 0 <= v < old(vertices)@.len()
            ==> in_coord_range(#[trigger] old(vertices)@[v]),
    ensures
        final(triangles)@.len() == old(triangles)@.len(),
        forall|k: int|
            0 <= k < old(triangles)@.len()
                && !bucket_at(uv_box, current_face as int).contains(k as usize)
                ==> (#[trigger] final(triangles)@[k]) == old(triangles)@[k],
        forall|j: int, k: int|
            #![trigger final(triangles)@[bucket_at(uv_box, current_face as int)[j] as int][k]]
            0 <= j < bucket_at(uv_box, current_face as int).len() && 0 <= k < 3
                ==> final(triangles)@[bucket_at(uv_box, current_face as int)[j] as int][k]
                        == old(triangles)@[bucket_at(uv_box, current_face as int)[j] as int][k]
                    || final(triangles)@[bucket_at(uv_box, current_face as int)[j] as int][k]
                        >= old(vertices)@.len(),
        entries_below(final(triangles)@, final(vertices)@.len() as int),
        old(vertices)@.is_prefix_of(final(vertices)@),
        final(vertices)@.len() <= old(vertices)@.len() + 15 * bucket_at(
            uv_box,
            current_face as int,
        ).len(),
        clones_wf(final(vertices)@, final(patch).additional_vertices@, n0),
        old(patch).additional_vertices@.is_prefix_of(final(patch).additional_vertices@),
        final(patch).data_id == old(patch).data_id,
        final(patch).triangles == old(patch).triangles,
        final(patch).second_tex_coords == old(patch).second_tex_coords,
        forall|v: int| 0 <= v < final(vertices)@.len()
            ==> in_coord_range(#[trigger] final(vertices)@[v]),
        forall|of: int|
            0 <= of < 6 && of != current_face as int
                ==> faces_disjoint(
                    final(triangles)@,
                    bucket_at(uv_box, current_face as int),
                    #[trigger] bucket_at(uv_box, of),
                ),
{
    let ghost len0 = old(vertices)@.len() as int;
    let ghost ts0 = old(triangles)@;
    let ghost cura = bucket_at(uv_box, current_face as int);
    let ghost fl = cura.len() as int;
    let mut face_index: usize = 0;
    let ghost mut cd: int = 0;
    while face_index < 6
        invariant
            face_index <= 6,
            current_face < 6,
            cd == if (current_face as int) < face_index as int {
                face_index as int - 1
            } else {
                face_index as int
            },
            cura == bucket_at(uv_box, current_face as int),
            fl == cura.len() as int,
            buckets_ok(uv_box, ts0.len() as int),
            entries_below(ts0, len0),
            triangles@.len() == ts0.len(),
            forall|k: int|
                0 <= k < ts0.len() && !cura.contains(k as usize)
                    ==> (#[trigger] triangles@[k]) == ts0[k],
            forall|j: int, k: int|
                #![trigger triangles@[cura[j] as int][k]]
                0 <= j < fl && 0 <= k < 3
                    ==> triangles@[cura[j] as int][k] == ts0[cura[j] as int][k]
                        || triangles@[cura[j] as int][k] >= len0,
            entries_below(triangles@, vertices@.len() as int),
            len0 <= vertices@.len(),
            old(vertices)@.is_prefix_of(vertices@),
            vertices@.len() <= len0 + 3 * cd * fl,
            len0 + 15 * fl <= 4294967295,
            clones_wf(vertices@, patch.additional_vertices@, n0),
            old(patch).additional_vertices@.is_prefix_of(patch.additional_vertices@),
            patch.data_id == old(patch).data_id,
            patch.triangles == old(patch).triangles,
            patch.second_tex_coords == old(patch).second_tex_coords,
            forall|v: int| 0 <= v < vertices@.len()
                ==> in_coord_range(#[trigger] vertices@[v]),
            forall|of: int|
                0 <= of < face_index as int && of != current_face as int
                    ==> faces_disjoint(triangles@, cura, #[trigger] bucket_at(uv_box, of)),
        decreases 6 - face_index,
    {
        if face_index != current_face {
            let ghost ts_mid = triangles@;
            let ghost len_mid = vertices@.len() as int;
            proof {
                assert(cd <= 4);
                assert(3 * cd * fl + 3 * fl <= 15 * fl) by (nonlinear_arith)
                    requires cd <= 4, fl >= 0
                ;
            }
            face_vs_face(
                vertices,
                triangles,
                uv_box.bucket(current_face),
                uv_box.bucket(face_index),
                patch,
                Ghost(n0),
            );
            proof {
                cd = cd + 1;
                assert(3 * (cd - 1) * fl + 3 * fl == 3 * cd * fl) by (nonlinear_arith);
                // Disjointness with faces handled earlier is preserved: a
                // current-face triangle keeps its old entries or takes fresh
                // indices, while other faces' triangles are untouched and
                // reference only pre-call vertices.
                assert forall|of: int|
                    0 <= of < face_index as int + 1 && of != current_face as int implies
                    faces_disjoint(triangles@, cura, #[trigger] bucket_at(uv_box, of)) by {
                    let bo = bucket_at(uv_box, of);
                    if of < face_index as int {
                        assert forall|j: int, l: int|
                            #![trigger cura[j], bo[l]]
                            0 <= j < cura.len() && 0 <= l < bo.len() implies tris_disjoint(
                            triangles@[cura[j] as int],
                            triangles@[bo[l] as int],
                        ) by {
                            assert(!cura.contains(bo[l]));
                            assert(triangles@[bo[l] as int] == ts_mid[bo[l] as int]);
                            let snew = triangles@[cura[j] as int];
                            let smid = ts_mid[cura[j] as int];
                            let tb = ts_mid[bo[l] as int];
                            assert(tris_disjoint(smid, tb));
                            assert(tb[0] < len_mid && tb[1] < len_mid && tb[2] < len_mid);
                            assert(snew[0] == smid[0] || snew[0] >= len_mid);
                            assert(snew[1] == smid[1] || snew[1] >= len_mid);
                            assert(snew[2] == smid[2] || snew[2] >= len_mid);
                        }
                    }
                }
            }
        }
        face_index = face_index + 1;
    }
    proof {
        assert(3 * cd * fl <= 15 * fl) by (nonlinear_arith)
            requires cd <= 5, fl >= 0
        ;
    }
}

} // verus!
