//! Wrap-around arithmetic for coordinates on a torus.
use vstd::prelude::*;

verus! {

/// The coordinate `v` taken onto the axis `[0, n)`, as a neighbour lookup
/// wraps it: one step past either edge lands on the opposite edge.
pub open spec fn wrap(v: int, n: int) -> int {
    (v + n) % n
}

/// Within one step of the axis, wrapping moves a coordinate by at most one
/// whole turn.
pub proof fn lemma_wrap_near(v: int, n: int)
    requires
        0 < n,
        -1 <= v <= n,
    ensures
        wrap(v, n) == if v < 0 {
            v + n
        } else if v >= n {
            v - n
        } else {
            v
        },
        0 <= wrap(v, n) < n,
{
    assert((v + n) % n == if v < 0 {
        v + n
    } else if v >= n {
        v - n
    } else {
        v
    }) by (nonlinear_arith)
        requires
            0 < n,
            -1 <= v <= n,
    ;
}

/// Wraps the coordinate `val` onto the axis `[0, extent)`: the value of
/// `(val + extent) % extent`.
///
/// This is exact for every `val` that is at least `-extent`, which covers a
/// single step past either edge. The sum is formed only for a negative
/// `val`, where it cannot overflow.
pub fn safe(val: i64, extent: i64) -> (r: i64)
    requires
        0 < extent,
        -extent <= val,
    ensures
        r == wrap(val as int, extent as int),
        r == (val as int) % (extent as int),
        0 <= r < extent,
{
    let r: i64 = if val < 0 {
        (val + extent) % extent
    } else {
        val % extent
    };
    proof {
        let (v, n) = (val as int, extent as int);
        assert((v + n) % n == v % n) by (nonlinear_arith)
            requires
                0 < n,
        ;
    }
    r
}

} // verus!
