use vstd::prelude::*;

verus! {

/// Largest magnitude of a coordinate handled by `squared_distance`.
pub const COORD_LIMIT: i64 = 0x1_0000_0000;

/// Squared Euclidean distance between `(ax, ay)` and `(bx, by)`.
pub open spec fn sq_dist(ax: int, ay: int, bx: int, by: int) -> int {
    (ax - bx) * (ax - bx) + (ay - by) * (ay - by)
}

/// A coordinate small enough for `squared_distance`.
pub open spec fn coord_ok(c: i64) -> bool {
    -COORD_LIMIT < c < COORD_LIMIT
}

/// Squared Euclidean distance, exact.
pub fn squared_distance(ax: i64, ay: i64, bx: i64, by: i64) -> (r: i128)
    requires
        coord_ok(ax),
        coord_ok(ay),
        coord_ok(bx),
        coord_ok(by),
    ensures
        r == sq_dist(ax as int, ay as int, bx as int, by as int),
{
    let dx: i128 = ax as i128 - bx as i128;
    let dy: i128 = ay as i128 - by as i128;
    assert(-0x2_0000_0000 < dx < 0x2_0000_0000);
    assert(0 <= dx * dx <= 0x4_0000_0000_0000_0000) by (nonlinear_arith)
        requires
            -0x2_0000_0000 < dx < 0x2_0000_0000,
    ;
    assert(0 <= dy * dy <= 0x4_0000_0000_0000_0000) by (nonlinear_arith)
        requires
            -0x2_0000_0000 < dy < 0x2_0000_0000,
    ;
    dx * dx + dy * dy
}

/// The square of the distance at which two circles of radius `radius` touch.
pub fn touching_sq(radius: u32) -> (r: i128)
    ensures
        r == 4 * radius * radius,
{
    let d: i128 = 2 * radius as i128;
    assert(d * d <= 0x4_0000_0000_0000_0000) by (nonlinear_arith)
        requires
            0 <= d <= 0x2_0000_0000,
    ;
    assert(d * d == 4 * radius * radius) by (nonlinear_arith)
        requires
            d == 2 * radius,
    ;
    d * d
}

} // verus!
