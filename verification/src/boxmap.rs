//! Box projection: assigns every triangle to one of six box faces and
//! projects its vertices onto that face's plane.

use vstd::prelude::*;
use crate::math::Fixed2;
use crate::math::Fixed3;
use crate::math::in_coord_range;
use crate::math::COORD_LIMIT;
use crate::classify::classify_ints;
use crate::classify::classify_plane;
use crate::classify::in_normal_range;
use crate::classify::PlaneClass;
use crate::classify::NORMAL_LIMIT;

verus! {

/// One of the six faces of the projection box.
#[derive(Clone, Copy, PartialEq, Eq, Structural, Debug)]
pub enum BoxFace {
    /// The face whose outward normal is +X.
    PositiveX,
    /// The face whose outward normal is -X.
    NegativeX,
    /// The face whose outward normal is +Y.
    PositiveY,
    /// The face whose outward normal is -Y.
    NegativeY,
    /// The face whose outward normal is +Z.
    PositiveZ,
    /// The face whose outward normal is -Z.
    NegativeZ,
}

/// The position a face's triangle bucket has in [`UvBox`], fixing the order
/// in which the seam splitter walks the faces.
pub open spec fn face_index(f: BoxFace) -> int {
    match f {
        BoxFace::PositiveX => 0,
        BoxFace::NegativeX => 1,
        BoxFace::PositiveY => 2,
        BoxFace::NegativeY => 3,
        BoxFace::PositiveZ => 4,
        BoxFace::NegativeZ => 5,
    }
}

/// X component of the cross product `(b - a) x (c - a)`.
pub open spec fn normal_x_of(a: Fixed3, b: Fixed3, c: Fixed3) -> int {
    (b.y - a.y) * (c.z - a.z) - (b.z - a.z) * (c.y - a.y)
}

/// Y component of the cross product `(b - a) x (c - a)`.
pub open spec fn normal_y_of(a: Fixed3, b: Fixed3, c: Fixed3) -> int {
    (b.z - a.z) * (c.x - a.x) - (b.x - a.x) * (c.z - a.z)
}

/// Z component of the cross product `(b - a) x (c - a)`.
pub open spec fn normal_z_of(a: Fixed3, b: Fixed3, c: Fixed3) -> int {
    (b.x - a.x) * (c.y - a.y) - (b.y - a.y) * (c.x - a.x)
}

/// The box face a triangle with corners `a`, `b`, `c` maps to: the dominant
/// axis of its normal picks the plane, the sign of that component the side.
#[verifier::opaque]
pub open spec fn face_of_tri(a: Fixed3, b: Fixed3, c: Fixed3) -> BoxFace {
    let nx = normal_x_of(a, b, c);
    let ny = normal_y_of(a, b, c);
    let nz = normal_z_of(a, b, c);
    match classify_ints(nx, ny, nz) {
        PlaneClass::XY => if nz < 0 { BoxFace::NegativeZ } else { BoxFace::PositiveZ },
        PlaneClass::XZ => if ny < 0 { BoxFace::NegativeY } else { BoxFace::PositiveY },
        PlaneClass::YZ => if nx < 0 { BoxFace::NegativeX } else { BoxFace::PositiveX },
    }
}

/// The face a mesh triangle maps to, read through the vertex buffer.
pub open spec fn tri_face(vs: Seq<Fixed3>, t: [u32; 3]) -> BoxFace {
    face_of_tri(vs[t[0] as int], vs[t[1] as int], vs[t[2] as int])
}

/// Projection of a point onto a face's plane: the dominant axis is dropped
/// and the two remaining coordinates are ordered so that, over all six faces,
/// increasing U and V agree with a consistent winding.
pub open spec fn project_spec(f: BoxFace, v: Fixed3) -> Fixed2 {
    match f {
        BoxFace::PositiveX => Fixed2 { x: v.y, y: v.z },
        BoxFace::NegativeX => Fixed2 { x: v.z, y: v.y },
        BoxFace::PositiveY => Fixed2 { x: v.z, y: v.x },
        BoxFace::NegativeY => Fixed2 { x: v.x, y: v.z },
        BoxFace::PositiveZ => Fixed2 { x: v.x, y: v.y },
        BoxFace::NegativeZ => Fixed2 { x: v.y, y: v.x },
    }
}

/// True when `s` is strictly increasing.
pub open spec fn strictly_inc(s: Seq<usize>) -> bool {
    forall|p: int, q: int| 0 <= p < q < s.len() ==> s[p] < s[q]
}

/// True when every index of every triangle of `ts` is a valid index of `vs`.
pub open spec fn tris_valid(vs: Seq<Fixed3>, ts: Seq<[u32; 3]>) -> bool {
    forall|i: int, k: int|
        0 <= i < ts.len() && 0 <= k < 3 ==> (#[trigger] ts[i][k]) < vs.len()
}

/// The per-face triangle buckets and the per-triangle projections produced by
/// box projection. Bucket `k` (in the order of the fields) holds, in
/// increasing order, the indices of the triangles assigned to face `k`.
pub struct UvBox {
    /// Triangles on the +X face.
    pub px: Vec<usize>,
    /// Triangles on the -X face.
    pub nx: Vec<usize>,
    /// Triangles on the +Y face.
    pub py: Vec<usize>,
    /// Triangles on the -Y face.
    pub ny: Vec<usize>,
    /// Triangles on the +Z face.
    pub pz: Vec<usize>,
    /// Triangles on the -Z face.
    pub nz: Vec<usize>,
    /// For triangle `i`, the projections of its three corners, parallel to
    /// the triangle buffer.
    pub projections: Vec<[Fixed2; 3]>,
}

/// The triangle bucket of face number `f`, as a sequence.
pub open spec fn bucket_at(b: &UvBox, f: int) -> Seq<usize> {
    if f == 0 { b.px@ }
    else if f == 1 { b.nx@ }
    else if f == 2 { b.py@ }
    else if f == 3 { b.ny@ }
    else if f == 4 { b.pz@ }
    else { b.nz@ }
}

/// A well-formed box projection of `ts` over `vs`: buckets are strictly
/// increasing lists of triangle indices, a triangle sits in the bucket of its
/// face and in no other, every triangle sits in some bucket, and projections
/// follow the face assignment.
pub open spec fn uv_box_wf(b: &UvBox, vs: Seq<Fixed3>, ts: Seq<[u32; 3]>) -> bool {
    &&& b.projections@.len() == ts.len()
    &&& forall|i: int, k: int| 0 <= i < ts.len() && 0 <= k < 3
        ==> (#[trigger] b.projections@[i][k]) == project_spec(tri_face(vs, ts[i]), vs[ts[i][k] as int])
    &&& forall|f: int| 0 <= f < 6 ==> strictly_inc(#[trigger] bucket_at(b, f))
    &&& forall|f: int, j: int| 0 <= f < 6 && 0 <= j < bucket_at(b, f).len()
        ==> (#[trigger] bucket_at(b, f)[j]) < ts.len()
            && face_index(tri_face(vs, ts[bucket_at(b, f)[j] as int])) == f
    &&& forall|i: int| 0 <= i < ts.len()
        ==> bucket_at(b, face_index(tri_face(vs, #[trigger] ts[i]))).contains(i as usize)
    &&& b.px@.len() + b.nx@.len() + b.py@.len() + b.ny@.len() + b.pz@.len() + b.nz@.len()
        == ts.len()
}

/// Two strictly increasing index lists with the same members are equal.
proof fn lemma_sorted_unique(s1: Seq<usize>, s2: Seq<usize>)
    requires
        strictly_inc(s1),
        strictly_inc(s2),
        forall|x: usize| s1.contains(x) <==> s2.contains(x),
    ensures
        s1 == s2,
    decreases s1.len(),
{
    if s1.len() == 0 {
        if s2.len() > 0 {
            assert(s2.contains(s2[0]));
            assert(false);
        }
        assert(s1 =~= s2);
    } else {
        assert(s1.contains(s1[0]));
        assert(s2.contains(s1[0]));
        assert(s2.len() > 0);
        assert(s2.contains(s2[0]));
        assert(s1.contains(s2[0]));
        let j1 = choose|j: int| 0 <= j < s2.len() && s2[j] == s1[0];
        let j2 = choose|j: int| 0 <= j < s1.len() && s1[j] == s2[0];
        assert(s2[0] <= s2[j1]);
        assert(s1[0] <= s1[j2]);
        assert(s1[0] == s2[0]);
        let t1 = s1.drop_first();
        let t2 = s2.drop_first();
        assert(forall|p: int| 0 <= p < t1.len() ==> #[trigger] t1[p] == s1[p + 1]);
        assert(forall|p: int| 0 <= p < t2.len() ==> #[trigger] t2[p] == s2[p + 1]);
        assert forall|x: usize| t1.contains(x) <==> t2.contains(x) by {
            if t1.contains(x) {
                let j = choose|j: int| 0 <= j < t1.len() && t1[j] == x;
                assert(s1[j + 1] == x);
                assert(s1.contains(x));
                assert(x > s1[0]);
                assert(s2.contains(x));
                let l = choose|l: int| 0 <= l < s2.len() && s2[l] == x;
                assert(l >= 1);
                assert(t2[l - 1] == x);
                assert(t2.contains(x));
            }
            if t2.contains(x) {
                let j = choose|j: int| 0 <= j < t2.len() && t2[j] == x;
                assert(s2[j + 1] == x);
                assert(s2.contains(x));
                assert(x > s2[0]);
                assert(s1.contains(x));
                let l = choose|l: int| 0 <= l < s1.len() && s1[l] == x;
                assert(l >= 1);
                assert(t1[l - 1] == x);
                assert(t1.contains(x));
            }
        }
        lemma_sorted_unique(t1, t2);
        assert forall|i: int| 0 <= i < s1.len() implies s1[i] == s2[i] by {
            if i >= 1 {
                assert(t1[i - 1] == s1[i]);
                assert(t2[i - 1] == s2[i]);
            }
        }
        assert(s1 =~= s2);
    }
}

/// Determinism of box projection: the contract of [`generate_uv_box`] pins
/// its result, so any two well-formed box projections of the same vertex
/// and triangle buffers have the same face buckets and the same
/// projections.
pub proof fn lemma_uv_box_unique(b1: &UvBox, b2: &UvBox, vs: Seq<Fixed3>, ts: Seq<[u32; 3]>)
    requires
        uv_box_wf(b1, vs, ts),
        uv_box_wf(b2, vs, ts),
    ensures
        forall|f: int| 0 <= f < 6 ==> bucket_at(b1, f) == bucket_at(b2, f),
        forall|i: int, k: int|
            0 <= i < ts.len() && 0 <= k < 3
                ==> (#[trigger] b1.projections@[i][k]) == b2.projections@[i][k],
{
    assert forall|f: int| 0 <= f < 6 implies bucket_at(b1, f) == bucket_at(b2, f) by {
        assert forall|x: usize| bucket_at(b1, f).contains(x) <==> bucket_at(
            b2,
            f,
        ).contains(x) by {
            if bucket_at(b1, f).contains(x) {
                let j = choose|j: int| 0 <= j < bucket_at(b1, f).len() && bucket_at(b1, f)[j] == x;
                assert(face_index(tri_face(vs, ts[x as int])) == f);
                assert(bucket_at(b2, face_index(tri_face(vs, ts[x as int]))).contains(x));
            }
            if bucket_at(b2, f).contains(x) {
                let j = choose|j: int| 0 <= j < bucket_at(b2, f).len() && bucket_at(b2, f)[j] == x;
                assert(face_index(tri_face(vs, ts[x as int])) == f);
                assert(bucket_at(b1, face_index(tri_face(vs, ts[x as int]))).contains(x));
            }
        }
        lemma_sorted_unique(bucket_at(b1, f), bucket_at(b2, f));
    }
}

impl UvBox {
    /// The triangle bucket of face number `f`.
    pub fn bucket(&self, f: usize) -> (r: &Vec<usize>)
        requires
            f < 6,
        ensures
            r@ == bucket_at(self, f as int),
    {
        if f == 0 { &self.px }
        else if f == 1 { &self.nx }
        else if f == 2 { &self.py }
        else if f == 3 { &self.ny }
        else if f == 4 { &self.pz }
        else { &self.nz }
    }
}

/// Computes the cross product `(b - a) x (c - a)` of a triangle's edges, the
/// geometric normal the classifier works on.
fn triangle_normal(a: Fixed3, b: Fixed3, c: Fixed3) -> (n: Fixed3)
    requires
        in_coord_range(a),
        in_coord_range(b),
        in_coord_range(c),
    ensures
        n.x == normal_x_of(a, b, c),
        n.y == normal_y_of(a, b, c),
        n.z == normal_z_of(a, b, c),
        in_normal_range(n),
{
    let dx1: i64 = b.x - a.x;
    let dy1: i64 = b.y - a.y;
    let dz1: i64 = b.z - a.z;
    let dx2: i64 = c.x - a.x;
    let dy2: i64 = c.y - a.y;
    let dz2: i64 = c.z - a.z;
    proof {
        assert(forall|u: int, v: int|
            -2 * COORD_LIMIT <= u <= 2 * COORD_LIMIT && -2 * COORD_LIMIT <= v <= 2 * COORD_LIMIT
                ==> -NORMAL_LIMIT / 2 <= #[trigger] (u * v) <= NORMAL_LIMIT / 2) by (nonlinear_arith);
    }
    Fixed3 {
        x: dy1 * dz2 - dz1 * dy2,
        y: dz1 * dx2 - dx1 * dz2,
        z: dx1 * dy2 - dy1 * dx2,
    }
}

/// Computes the box face of one triangle from its corners.
fn face_of(a: Fixed3, b: Fixed3, c: Fixed3) -> (f: BoxFace)
    requires
        in_coord_range(a),
        in_coord_range(b),
        in_coord_range(c),
    ensures
        f == face_of_tri(a, b, c),
{
    proof {
        reveal(face_of_tri);
    }
    let normal = triangle_normal(a, b, c);
    let class = classify_plane(normal);
    match class {
        PlaneClass::XY => if normal.z < 0 { BoxFace::NegativeZ } else { BoxFace::PositiveZ },
        PlaneClass::XZ => if normal.y < 0 { BoxFace::NegativeY } else { BoxFace::PositiveY },
        PlaneClass::YZ => if normal.x < 0 { BoxFace::NegativeX } else { BoxFace::PositiveX },
    }
}

/// Projects the three corners of a triangle onto its face's plane.
fn project_corners(f: BoxFace, a: Fixed3, b: Fixed3, c: Fixed3) -> (p: [Fixed2; 3])
    ensures
        p[0] == project_spec(f, a),
        p[1] == project_spec(f, b),
        p[2] == project_spec(f, c),
{
    match f {
        BoxFace::PositiveX => [
            Fixed2 { x: a.y, y: a.z },
            Fixed2 { x: b.y, y: b.z },
            Fixed2 { x: c.y, y: c.z },
        ],
        BoxFace::NegativeX => [
            Fixed2 { x: a.z, y: a.y },
            Fixed2 { x: b.z, y: b.y },
            Fixed2 { x: c.z, y: c.y },
        ],
        BoxFace::PositiveY => [
            Fixed2 { x: a.z, y: a.x },
            Fixed2 { x: b.z, y: b.x },
            Fixed2 { x: c.z, y: c.x },
        ],
        BoxFace::NegativeY => [
            Fixed2 { x: a.x, y: a.z },
            Fixed2 { x: b.x, y: b.z },
            Fixed2 { x: c.x, y: c.z },
        ],
        BoxFace::PositiveZ => [
            Fixed2 { x: a.x, y: a.y },
            Fixed2 { x: b.x, y: b.y },
            Fixed2 { x: c.x, y: c.y },
        ],
        BoxFace::NegativeZ => [
            Fixed2 { x: a.y, y: a.x },
            Fixed2 { x: b.y, y: b.x },
            Fixed2 { x: c.y, y: c.x },
        ],
    }
}

/// Maps every triangle to the appropriate side of the box ("box mapping"):
/// classifies its normal, projects its corners onto the chosen face, and
/// buckets the triangle index per face. Returns `None` exactly when some
/// triangle holds a vertex index out of range; no partial result is kept.
#[verifier::rlimit(60)]
pub fn generate_uv_box(vertices: &Vec<Fixed3>, triangles: &Vec<[u32; 3]>) -> (result: Option<
    UvBox,
>)
    requires
        forall|v: int| 0 <= v < vertices@.len() ==> in_coord_range(#[trigger] vertices@[v]),
    ensures
        result is Some <==> tris_valid(vertices@, triangles@),
        match result {
            Some(b) => uv_box_wf(&b, vertices@, triangles@),
            None => true,
        },
{
    let mut uv_box = UvBox {
        px: Vec::new(),
        nx: Vec::new(),
        py: Vec::new(),
        ny: Vec::new(),
        pz: Vec::new(),
        nz: Vec::new(),
        projections: Vec::new(),
    };
    let n = triangles.len();
    let mut i: usize = 0;
    while i < n
        invariant
            n == triangles@.len(),
            i <= n,
            forall|v: int| 0 <= v < vertices@.len() ==> in_coord_range(#[trigger] vertices@[v]),
            forall|t: int, k: int| 0 <= t < i && 0 <= k < 3
                ==> (#[trigger] triangles@[t][k]) < vertices@.len(),
            uv_box.projections@.len() == i,
            forall|t: int, k: int| 0 <= t < i && 0 <= k < 3
                ==> (#[trigger] uv_box.projections@[t][k])
                    == project_spec(tri_face(vertices@, triangles@[t]),
                        vertices@[triangles@[t][k] as int]),
            forall|f: int| 0 <= f < 6 ==> strictly_inc(#[trigger] bucket_at(&uv_box, f)),
            forall|f: int, j: int| 0 <= f < 6 && 0 <= j < bucket_at(&uv_box, f).len()
                ==> (#[trigger] bucket_at(&uv_box, f)[j]) < i
                    && face_index(tri_face(vertices@,
                        triangles@[bucket_at(&uv_box, f)[j] as int])) == f,
            forall|t: int| 0 <= t < i
                ==> bucket_at(&uv_box, face_index(tri_face(vertices@, #[trigger] triangles@[t])))
                    .contains(t as usize),
            uv_box.px@.len() + uv_box.nx@.len() + uv_box.py@.len() + uv_box.ny@.len()
                + uv_box.pz@.len() + uv_box.nz@.len() == i,
        decreases n - i,
    {
        let t = triangles[i];
        let i0 = t[0] as usize;
        let i1 = t[1] as usize;
        let i2 = t[2] as usize;
        if i0 >= vertices.len() || i1 >= vertices.len() || i2 >= vertices.len() {
            return None;
        }
        let a = vertices[i0];
        let b = vertices[i1];
        let c = vertices[i2];
        let ghost prev = uv_box;
        let face = face_of(a, b, c);
        let proj = project_corners(face, a, b, c);
        match face {
            BoxFace::PositiveX => uv_box.px.push(i),
            BoxFace::NegativeX => uv_box.nx.push(i),
            BoxFace::PositiveY => uv_box.py.push(i),
            BoxFace::NegativeY => uv_box.ny.push(i),
            BoxFace::PositiveZ => uv_box.pz.push(i),
            BoxFace::NegativeZ => uv_box.nz.push(i),
        }
        uv_box.projections.push(proj);
        proof {
            let vs = vertices@;
            let ts = triangles@;
            let ii = i as int;
            let f0 = face_index(tri_face(vs, ts[ii]));
            assert(bucket_at(&uv_box, f0) == bucket_at(&prev, f0).push(i));
            assert(forall|f: int|
                0 <= f < 6 && f != f0 ==> #[trigger] bucket_at(&uv_box, f) == bucket_at(
                    &prev,
                    f,
                ));
            let s = bucket_at(&prev, f0);
            let s2 = bucket_at(&uv_box, f0);
            assert forall|p: int, q: int| 0 <= p < q < s2.len() implies s2[p] < s2[q] by {
                if q == s.len() as int {
                    assert(s2[p] == s[p]);
                    assert(s2[q] == i);
                } else {
                    assert(s2[p] == s[p] && s2[q] == s[q]);
                }
            };
            assert(strictly_inc(s2));
            assert forall|t: int|
                0 <= t <= ii implies bucket_at(
                &uv_box,
                face_index(tri_face(vs, #[trigger] ts[t])),
            ).contains(t as usize) by {
                let ft = face_index(tri_face(vs, ts[t]));
                if t == ii {
                    assert(s2[s.len() as int] == i);
                    assert(s2.contains(i));
                } else {
                    let sold = bucket_at(&prev, ft);
                    assert(sold.contains(t as usize));
                    let j = choose|j: int| 0 <= j < sold.len() && sold[j] == t as usize;
                    if ft == f0 {
                        assert(s2[j] == t as usize);
                    } else {
                        assert(bucket_at(&uv_box, ft)[j] == t as usize);
                    }
                }
            };
        }
        i = i + 1;
    }
    Some(uv_box)
}

} // verus!
