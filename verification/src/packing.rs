//! Atlas packing: sorts islands by descending area and searches for a
//! uniform scale at which every island, inflated by the spacing margin, fits
//! into the unit square. The rectangle placement itself is done by the
//! rectangle packer of the `rectutils` crate, behind trusted wrappers.

use vstd::prelude::*;
use vstd::arithmetic::mul::lemma_mul_inequality;
use crate::math::isqrt_u128;
use crate::math::sqrt_floor;
use crate::math::FP_ONE;
use crate::math::SPACING_LIMIT;
use crate::islands::mesh_area;
use crate::islands::mesh_bounds_wf;
use crate::islands::UvMesh;

verus! {

/// Largest value the empirical scale factor of the feasibility search is
/// allowed to reach; at this factor every requested rectangle has already
/// shrunk to its bare spacing margin.
pub const EMPIRIC_CAP: i64 = 288230376151711744;

/// Holder for the rectangle packer of `rectutils`, a collection type whose
/// declaration Verus refuses; it is kept in an opaque struct and driven only
/// through the trusted wrappers below.
#[verifier::external_body]
pub struct AtlasPacker {
    inner: rectutils::pack::RectPacker<i64>,
}

/// Width of the canvas a packer was created with.
pub uninterp spec fn packer_canvas_width(p: AtlasPacker) -> int;

/// Height of the canvas a packer was created with.
pub uninterp spec fn packer_canvas_height(p: AtlasPacker) -> int;

/// The rectangles the packer has handed out since it was created or last
/// cleared.
pub uninterp spec fn packer_placed(p: AtlasPacker) -> Set<RectFx>;

/// Two rectangles have disjoint interiors (they may touch at an edge).
pub open spec fn rects_disjoint(a: RectFx, b: RectFx) -> bool {
    a.x + a.w <= b.x || b.x + b.w <= a.x || a.y + a.h <= b.y || b.y + b.h <= a.y
}

/// An axis-aligned placement rectangle in fixed-point coordinates.
#[derive(Clone, Copy, PartialEq, Eq, Structural, Debug)]
pub struct RectFx {
    /// Left edge.
    pub x: i64,
    /// Bottom edge.
    pub y: i64,
    /// Width.
    pub w: i64,
    /// Height.
    pub h: i64,
}

/// Relies on rectutils::pack::RectPacker::new, which stores the given
/// canvas bounds and seeds the node tree with the full canvas rectangle.
#[verifier::external_body]
fn packer_new(w: i64, h: i64) -> (p: AtlasPacker)
    requires
        0 <= w,
        0 <= h,
    ensures
        packer_canvas_width(p) == w as int,
        packer_canvas_height(p) == h as int,
        packer_placed(p) == Set::<RectFx>::empty(),
{
    AtlasPacker { inner: rectutils::pack::RectPacker::new(w, h) }
}

/// Relies on rectutils::pack::RectPacker::clear, which discards all placed
/// rectangles and keeps the canvas bounds.
#[verifier::external_body]
fn packer_clear(p: &mut AtlasPacker)
    ensures
        packer_canvas_width(*final(p)) == packer_canvas_width(*old(p)),
        packer_canvas_height(*final(p)) == packer_canvas_height(*old(p)),
        packer_placed(*final(p)) == Set::<RectFx>::empty(),
{
    p.inner.clear()
}

/// Relies on rectutils::pack::RectPacker::find_free: a successful placement
/// is a node rectangle of exactly the requested size, and every node
/// rectangle is carved out of the canvas rectangle, so it lies inside the
/// canvas with non-negative position. The canvas bounds are not touched.
/// The packer is only ever driven through these wrappers, which request
/// non-negative sizes alone.
#[verifier::external_body]
fn packer_find_free(p: &mut AtlasPacker, w: i64, h: i64) -> (r: Option<
    RectFx,
>)
    requires
        0 <= w,
        0 <= h,
    ensures
        packer_canvas_width(*final(p)) == packer_canvas_width(*old(p)),
        packer_canvas_height(*final(p)) == packer_canvas_height(*old(p)),
        match r {
            Some(rect) => rect.w == w && rect.h == h && 0 <= rect.x && 0 <= rect.y && rect.x + w
                <= packer_canvas_width(*old(p)) && rect.y + h <= packer_canvas_height(*old(p))
                && packer_placed(*final(p)) == packer_placed(*old(p)).insert(rect)
                && forall|o: RectFx|
                    #[trigger] packer_placed(*old(p)).contains(o) ==> rects_disjoint(rect, o),
            None => packer_placed(*final(p)) == packer_placed(*old(p)),
        },
{
    match p.inner.find_free(w, h) {
        Some(rect) => Some(
            RectFx { x: rect.position.x, y: rect.position.y, w: rect.size.x, h: rect.size.y },
        ),
        None => None,
    }
}

/// The packing order is sorted by strictly descending area, with ties kept
/// in the original island order; together with injectivity this pins the
/// order uniquely, so packing is deterministic.
pub open spec fn order_sorted(meshes: Seq<UvMesh>, order: Seq<usize>) -> bool {
    forall|p: int, q: int|
        #![trigger order[p], order[q]]
        0 <= p < q < order.len() ==> mesh_area(&meshes[order[p] as int]) > mesh_area(
            &meshes[order[q] as int],
        ) || (mesh_area(&meshes[order[p] as int]) == mesh_area(&meshes[order[q] as int])
            && order[p] < order[q])
}

/// Sorts the island indices by descending bounding-box area; equal areas
/// keep their original relative order (a stable sort).
pub fn sort_order(meshes: &Vec<UvMesh>) -> (order: Vec<usize>)
    requires
        forall|m: int| 0 <= m < meshes@.len() ==> mesh_bounds_wf(&(#[trigger] meshes@[m])),
    ensures
        order@.len() == meshes@.len(),
        forall|p: int| 0 <= p < order@.len() ==> (#[trigger] order@[p]) < meshes@.len(),
        forall|p: int, q: int|
            #![trigger order@[p], order@[q]]
            0 <= p < q < order@.len() ==> order@[p] != order@[q],
        order_sorted(meshes@, order@),
{
    let n = meshes.len();
    let mut order: Vec<usize> = Vec::new();
    let mut i: usize = 0;
    while i < n
        invariant
            i <= n,
            n == meshes@.len(),
            order@.len() == i,
            forall|m: int| 0 <= m < n ==> mesh_bounds_wf(&(#[trigger] meshes@[m])),
            forall|p: int| 0 <= p < order@.len() ==> (#[trigger] order@[p]) < i,
            forall|p: int, q: int|
                #![trigger order@[p], order@[q]]
                0 <= p < q < order@.len() ==> order@[p] != order@[q],
            order_sorted(meshes@, order@),
        decreases n - i,
    {
        let area_i = meshes[i].area();
        let mut j: usize = 0;
        let mut searching = true;
        while searching && j < order.len()
            invariant
                j <= order@.len(),
                i < n,
                n == meshes@.len(),
                order@.len() == i,
                area_i == mesh_area(&meshes@[i as int]),
                forall|m: int| 0 <= m < n ==> mesh_bounds_wf(&(#[trigger] meshes@[m])),
                forall|p: int| 0 <= p < order@.len() ==> (#[trigger] order@[p]) < i,
                forall|p: int|
                    0 <= p < j ==> mesh_area(&meshes@[#[trigger] order@[p] as int]) >= area_i,
                !searching ==> j < order@.len() && mesh_area(&meshes@[order@[j as int] as int])
                    < area_i,
                order_sorted(meshes@, order@),
            decreases order@.len() - j + (if searching { 1int } else { 0int }),
        {
            if meshes[order[j]].area() < area_i {
                searching = false;
            } else {
                j = j + 1;
            }
        }
        let ghost order_before = order@;
        order.insert(j, i);
        proof {
            assert(order@.len() == order_before.len() + 1);
            assert(forall|p: int| 0 <= p < j ==> order@[p] == order_before[p]);
            assert(order@[j as int] == i as usize);
            assert(forall|p: int|
                j < p < order@.len() ==> order@[p] == order_before[p - 1]);
            assert forall|p: int, q: int|
                #![trigger order@[p], order@[q]]
                0 <= p < q < order@.len() implies (order@[p] != order@[q] && (mesh_area(
                &meshes@[order@[p] as int],
            ) > mesh_area(&meshes@[order@[q] as int]) || (mesh_area(&meshes@[order@[p] as int])
                == mesh_area(&meshes@[order@[q] as int]) && order@[p] < order@[q]))) by {
                if p < j && q == j {
                    assert(mesh_area(&meshes@[order_before[p] as int]) >= area_i);
                } else if p == j && q > j {
                    assert(mesh_area(&meshes@[order_before[q - 1] as int]) < area_i);
                }
            }
        }
        i = i + 1;
    }
    order
}

/// Sum of the bounding-box areas of a sequence of islands.
pub open spec fn areas_sum(meshes: Seq<UvMesh>) -> int
    decreases meshes.len(),
{
    if meshes.len() == 0 {
        0
    } else {
        areas_sum(meshes.drop_last()) + mesh_area(&meshes.last())
    }
}

/// The fixed-point scale the feasibility search derives from a target
/// square side and an empirical factor: `1 / (side * factor)`, collapsed to
/// zero when the denominator vanishes or the side is out of range.
pub open spec fn scale_of(side: int, e: int) -> int {
    if side > 1099511627776 {
        0
    } else {
        let d = side * e / 65536;
        if d == 0 {
            0
        } else {
            4294967296int / d
        }
    }
}

/// The size of the rectangle requested for an island at a given scale:
/// its extent scaled down, plus the spacing margin on both sides.
pub open spec fn scaled_extent(extent: int, scale: int, spacing: int) -> int {
    (extent * scale) / (FP_ONE as int) + 2 * spacing
}

/// A placement for the island at sorted position `p` of `order`: a
/// rectangle of exactly the requested inflated size, lying inside the unit
/// square.
pub open spec fn placement_ok(
    meshes: Seq<UvMesh>,
    order: Seq<usize>,
    rect: RectFx,
    p: int,
    scale: int,
    spacing: int,
) -> bool {
    let m = meshes[order[p] as int];
    &&& rect.w == scaled_extent(m.uv_max.x - m.uv_min.x, scale, spacing)
    &&& rect.h == scaled_extent(m.uv_max.y - m.uv_min.y, scale, spacing)
    &&& 0 <= rect.x
    &&& 0 <= rect.y
    &&& rect.x + rect.w <= FP_ONE
    &&& rect.y + rect.h <= FP_ONE
}

/// Computes the inflated fixed-point size of one island edge at `scale`.
fn scaled_edge(extent: i64, scale: i64, spacing: i64) -> (r: i64)
    requires
        0 <= extent <= 268435456,
        0 <= scale <= 4294967296,
        0 <= spacing <= SPACING_LIMIT,
    ensures
        r == scaled_extent(extent as int, scale as int, spacing as int),
        0 <= r,
{
    proof {
        assert(extent * scale <= 268435456 * 4294967296) by (nonlinear_arith)
            requires 0 <= extent <= 268435456, 0 <= scale <= 4294967296
        ;
    }
    let prod: u64 = (extent as u64) * (scale as u64);
    let q: u64 = prod / 65536;
    (q as i64) + 2 * spacing
}

/// Runs the bounded feasibility search of the atlas packer: starting from a
/// small empirical factor, asks the rectangle packer to place every island
/// (inflated by the spacing margin) at scale `1 / (square_side * factor)`
/// into the unit square, growing the factor after every failed attempt. On
/// a fully successful attempt the search stops; if every attempt fails, the
/// placements of the last attempt are kept, so trailing islands may stay
/// unplaced. Returns the final scale and the placements, one per sorted
/// island position, in sorted order.
pub fn pack_meshes(meshes: &Vec<UvMesh>, order: &Vec<usize>, spacing: i64) -> (r: (i64, Vec<
    RectFx,
>))
    requires
        order@.len() == meshes@.len(),
        forall|p: int| 0 <= p < order@.len() ==> (#[trigger] order@[p]) < meshes@.len(),
        forall|m: int| 0 <= m < meshes@.len() ==> mesh_bounds_wf(&(#[trigger] meshes@[m])),
        0 <= spacing <= SPACING_LIMIT,
    ensures
        0 <= r.0 <= 4294967296,
        r.1@.len() <= order@.len(),
        forall|p: int|
            0 <= p < r.1@.len()
                ==> placement_ok(meshes@, order@, #[trigger] r.1@[p], p, r.0 as int, spacing as int),
        forall|p: int, q: int|
            #![trigger r.1@[p], r.1@[q]]
            0 <= p < q < r.1@.len() ==> rects_disjoint(r.1@[p], r.1@[q]),
        exists|e: int|
            1 <= e <= EMPIRIC_CAP && r.0 as int == #[trigger] scale_of(
                square_side_spec(areas_sum(meshes@), spacing as int, meshes@.len() as int),
                e,
            ),
{
    let n = meshes.len();
    // Total area of all islands, and the derived target square side.
    let mut total_area: u128 = 0;
    let mut m: usize = 0;
    while m < n
        invariant
            m <= n,
            n == meshes@.len(),
            forall|k: int| 0 <= k < n ==> mesh_bounds_wf(&(#[trigger] meshes@[k])),
            total_area <= (m as u128) * 18014398509481984,
            total_area as int == areas_sum(meshes@.take(m as int)),
        decreases n - m,
    {
        let a = meshes[m].area();
        proof {
            assert(mesh_area(&meshes@[m as int]) <= 18014398509481984) by (nonlinear_arith)
                requires mesh_bounds_wf(&meshes@[m as int])
            ;
            assert((m as u128 + 1) * 18014398509481984 == (m as u128) * 18014398509481984
                + 18014398509481984) by (nonlinear_arith);
            assert(meshes@.take(m as int + 1).drop_last() =~= meshes@.take(m as int));
            assert(meshes@.take(m as int + 1).last() == meshes@[m as int]);
        }
        total_area = total_area + (a as u128);
        m = m + 1;
    }
    proof {
        assert(meshes@.take(n as int) =~= meshes@);
    }
    proof {
        lemma_mul_inequality(n as int, 18446744073709551615, 18014398509481984);
        assert(total_area < 1329227995784915872903807060280344576);
    }
    let side_sqrt: u128 = isqrt_u128(total_area);
    proof {
        assert(side_sqrt < 1152921504606846976) by (nonlinear_arith)
            requires
                side_sqrt * side_sqrt <= total_area,
                total_area < 1329227995784915872903807060280344576,
        ;
        assert((spacing as u128) * (n as u128) <= 2305843009213693951 * 18446744073709551615)
            by (nonlinear_arith)
            requires 0 <= spacing <= 2305843009213693951, n <= 18446744073709551615,
        ;
    }
    let square_side: u128 = side_sqrt + (spacing as u128) * (n as u128);
    let ghost side_spec: int = square_side_spec(
        areas_sum(meshes@),
        spacing as int,
        meshes@.len() as int,
    );
    proof {
        assert(square_side as int == side_spec);
    }
    // The iterative feasibility search. The empirical factor starts just
    // above one and grows by about a third after every failed attempt.
    let mut empiric_scale: i64 = 72090;
    let mut scale: i64 = 65536;
    let ghost mut e_used: int = 1;
    let mut rects: Vec<RectFx> = Vec::new();
    let mut packer = packer_new(FP_ONE, FP_ONE);
    let mut attempt: usize = 0;
    let mut done = false;
    while attempt < 100 && !done
        invariant
            n == meshes@.len(),
            order@.len() == n,
            forall|p: int| 0 <= p < order@.len() ==> (#[trigger] order@[p]) < n,
            forall|k: int| 0 <= k < n ==> mesh_bounds_wf(&(#[trigger] meshes@[k])),
            0 <= spacing <= SPACING_LIMIT,
            1 <= empiric_scale <= EMPIRIC_CAP,
            0 <= scale <= 4294967296,
            side_spec == square_side_spec(areas_sum(meshes@), spacing as int, n as int),
            square_side as int == side_spec,
            attempt == 0 ==> !done,
            attempt == 0 || (1 <= e_used <= EMPIRIC_CAP && scale as int == scale_of(
                side_spec,
                e_used,
            )),
            packer_canvas_width(packer) == FP_ONE as int,
            packer_canvas_height(packer) == FP_ONE as int,
            rects@.len() <= n,
            forall|p: int|
                0 <= p < rects@.len() ==> packer_placed(packer).contains(#[trigger] rects@[p]),
            forall|p: int, q: int|
                #![trigger rects@[p], rects@[q]]
                0 <= p < q < rects@.len() ==> rects_disjoint(rects@[p], rects@[q]),
            forall|p: int|
                0 <= p < rects@.len()
                    ==> placement_ok(
                        meshes@,
                        order@,
                        #[trigger] rects@[p],
                        p,
                        scale as int,
                        spacing as int,
                    ),
        decreases 100 - attempt,
    {
        rects.clear();
        // The scale follows `1 / (square_side * empiric_scale)`, in fixed
        // point; a huge or zero denominator collapses the scale to zero,
        // which shrinks every request to its bare spacing margin.
        let denom_big: u128 = if square_side > 1099511627776 {
            4294967297
        } else {
            proof {
                assert(square_side * (empiric_scale as u128)
                    <= 1099511627776 * 288230376151711744) by (nonlinear_arith)
                    requires square_side <= 1099511627776,
                        0 <= empiric_scale <= 288230376151711744
                ;
            }
            (square_side * (empiric_scale as u128)) / 65536
        };
        scale = if denom_big == 0 {
            0
        } else {
            proof {
                assert(4294967296u128 / denom_big <= 4294967296) by (nonlinear_arith)
                    requires denom_big >= 1
                ;
            }
            (4294967296u128 / denom_big) as i64
        };
        proof {
            e_used = empiric_scale as int;
            if square_side > 1099511627776 {
                assert(scale as int == scale_of(side_spec, e_used));
            } else {
                assert(scale as int == scale_of(side_spec, e_used));
            }
        }
        packer_clear(&mut packer);
        let mut p: usize = 0;
        done = true;
        while p < n
            invariant
                n == meshes@.len(),
                order@.len() == n,
                forall|pp: int| 0 <= pp < order@.len() ==> (#[trigger] order@[pp]) < n,
                forall|k: int| 0 <= k < n ==> mesh_bounds_wf(&(#[trigger] meshes@[k])),
                0 <= spacing <= SPACING_LIMIT,
                1 <= empiric_scale <= EMPIRIC_CAP,
                0 <= scale <= 4294967296,
                side_spec == square_side_spec(areas_sum(meshes@), spacing as int, n as int),
                1 <= e_used <= EMPIRIC_CAP,
                scale as int == scale_of(side_spec, e_used),
                packer_canvas_width(packer) == FP_ONE as int,
                packer_canvas_height(packer) == FP_ONE as int,
                p <= n,
                rects@.len() <= p,
                forall|pp: int|
                    0 <= pp < rects@.len() ==> packer_placed(packer).contains(
                        #[trigger] rects@[pp],
                    ),
                forall|pp: int, qq: int|
                    #![trigger rects@[pp], rects@[qq]]
                    0 <= pp < qq < rects@.len() ==> rects_disjoint(rects@[pp], rects@[qq]),
                forall|pp: int|
                    0 <= pp < rects@.len()
                        ==> placement_ok(
                            meshes@,
                            order@,
                            #[trigger] rects@[pp],
                            pp,
                            scale as int,
                            spacing as int,
                        ),
                done ==> rects@.len() == p,
            decreases n - p,
        {
            if done {
                let mesh = &meshes[order[p]];
                let req_w = scaled_edge(mesh.width(), scale, spacing);
                let req_h = scaled_edge(mesh.height(), scale, spacing);
                match packer_find_free(&mut packer, req_w, req_h) {
                    Some(rect) => {
                        rects.push(rect);
                    }
                    None => {
                        // This attempt failed: grow the empirical factor and
                        // retry with a smaller scale.
                        let grown: i128 = (empiric_scale as i128) * 87163 / 65536;
                        proof {
                            assert((empiric_scale as i128) <= grown
                                && grown <= 5 * (empiric_scale as i128)) by (nonlinear_arith)
                                requires 1 <= empiric_scale as i128
                                        <= 288230376151711744i128,
                                    grown == (empiric_scale as i128) * 87163 / 65536
                            ;
                        }
                        empiric_scale = if grown > (EMPIRIC_CAP as i128) {
                            EMPIRIC_CAP
                        } else {
                            grown as i64
                        };
                        done = false;
                    }
                }
            }
            p = p + 1;
        }
        attempt = attempt + 1;
    }
    proof {
        assert(1 <= e_used <= EMPIRIC_CAP && scale as int == scale_of(side_spec, e_used));
    }
    (scale, rects)
}

/// The target square side of the atlas, before the empirical factor: the
/// square root of the total island area plus one spacing margin per island.
pub open spec fn square_side_spec(total_area: int, spacing: int, island_count: int) -> int {
    sqrt_floor(total_area as u128) + spacing * island_count
}

/// Spacing monotonicity: for a fixed mesh, a larger spacing never shrinks
/// the target square side the scale search starts from.
pub proof fn lemma_square_side_monotone(
    total_area: int,
    spacing1: int,
    spacing2: int,
    island_count: int,
)
    requires
        0 <= total_area,
        0 <= spacing1 <= spacing2,
        0 <= island_count,
    ensures
        square_side_spec(total_area, spacing1, island_count) <= square_side_spec(
            total_area,
            spacing2,
            island_count,
        ),
{
    lemma_mul_inequality(spacing1, spacing2, island_count);
}

} // verus!
