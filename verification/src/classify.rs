//! Choice of the box plane a triangle projects onto.

use vstd::prelude::*;
use crate::math::Fixed3;

verus! {

/// Largest normal-component magnitude the classifier accepts. A cross product
/// of in-range coordinate differences always stays inside this bound.
pub const NORMAL_LIMIT: i64 = 36028797018963968;

/// The coordinate plane a triangle is projected onto: the plane normal to the
/// axis on which the triangle's normal is longest.
#[derive(Clone, Copy, PartialEq, Eq, Structural, Debug)]
pub enum PlaneClass {
    /// Project along the Z axis.
    XY,
    /// Project along the X axis.
    YZ,
    /// Project along the Y axis.
    XZ,
}

/// Absolute value of a spec integer.
pub open spec fn abs_i(v: int) -> int {
    if v < 0 { -v } else { v }
}

/// True when every component of `n` has magnitude at most [`NORMAL_LIMIT`].
pub open spec fn in_normal_range(n: Fixed3) -> bool {
    -NORMAL_LIMIT <= n.x <= NORMAL_LIMIT && -NORMAL_LIMIT <= n.y <= NORMAL_LIMIT
        && -NORMAL_LIMIT <= n.z <= NORMAL_LIMIT
}

/// The plane a normal classifies to: the axis of largest magnitude wins, and
/// on ties Z wins over Y and Y wins over X. A zero normal therefore
/// classifies to `XY`; classification is total and needs no error case.
pub open spec fn classify_ints(nx: int, ny: int, nz: int) -> PlaneClass {
    if abs_i(nz) >= abs_i(ny) && abs_i(nz) >= abs_i(nx) {
        PlaneClass::XY
    } else if abs_i(ny) >= abs_i(nx) {
        PlaneClass::XZ
    } else {
        PlaneClass::YZ
    }
}

/// [`classify_ints`] applied to the components of a fixed-point normal.
pub open spec fn classify_spec(n: Fixed3) -> PlaneClass {
    classify_ints(n.x as int, n.y as int, n.z as int)
}

/// Every finite normal classifies to exactly one of the three planes, and the
/// choice depends on the normal alone, so repeated calls agree.
pub proof fn lemma_classify_total(n: Fixed3)
    ensures
        classify_spec(n) == PlaneClass::XY || classify_spec(n) == PlaneClass::XZ
            || classify_spec(n) == PlaneClass::YZ,
        classify_spec(n) == PlaneClass::XY <==> (abs_i(n.z as int) >= abs_i(n.y as int)
            && abs_i(n.z as int) >= abs_i(n.x as int)),
{
}

/// Picks the projection plane for a triangle normal: the axis with the
/// largest absolute component, ties resolved in favor of Z, then Y, then X.
pub fn classify_plane(normal: Fixed3) -> (class: PlaneClass)
    requires
        in_normal_range(normal),
    ensures
        class == classify_spec(normal),
{
    let ax: i64 = if normal.x < 0 { -normal.x } else { normal.x };
    let ay: i64 = if normal.y < 0 { -normal.y } else { normal.y };
    let az: i64 = if normal.z < 0 { -normal.z } else { normal.z };
    if az >= ay && az >= ax {
        PlaneClass::XY
    } else if ay >= ax {
        PlaneClass::XZ
    } else {
        PlaneClass::YZ
    }
}

} // verus!
