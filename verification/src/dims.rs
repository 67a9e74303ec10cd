//! The dimension planner: computes target width and height for a downscale
//! that keeps the aspect ratio, never upscales, and never turns a nonzero
//! side into zero.

use vstd::arithmetic::div_mod::{
    lemma_div_is_ordered, lemma_div_multiples_vanish, lemma_fundamental_div_mod, lemma_mod_bound,
};
use vstd::arithmetic::mul::lemma_mul_inequality;
use vstd::prelude::*;

verus! {

/// The longer of the two sides.
pub open spec fn long_side(w: u32, h: u32) -> int {
    if w >= h {
        w as int
    } else {
        h as int
    }
}

/// One side scaled by `limit / m` with the quotient floored, then held at one
/// so that a nonzero side never collapses to zero.
pub open spec fn scaled_side(d: u32, limit: u32, m: int) -> int
    recommends
        m > 0,
{
    let q = (d as int * limit as int) / m;
    if d > 0 && q == 0 {
        1
    } else {
        q
    }
}

/// Target dimensions: unchanged when the limit is zero or not exceeded,
/// otherwise both sides floor-scaled by `limit / long_side`.
pub open spec fn plan_spec(w: u32, h: u32, limit: u32) -> (int, int) {
    if limit == 0 || limit as int >= long_side(w, h) {
        (w as int, h as int)
    } else {
        (scaled_side(w, limit, long_side(w, h)), scaled_side(h, limit, long_side(w, h)))
    }
}

/// Scale one side, in integer arithmetic, with the floor-at-one guard.
fn scale_side(d: u32, limit: u32, m: u32) -> (r: u32)
    requires
        0 < limit < m,
        d <= m,
    ensures
        r as int == scaled_side(d, limit, m as int),
        r <= d,
{
    proof {
        assert(d as int * limit as int <= u64::MAX as int) by (nonlinear_arith)
            requires
                (d as int) < 0x1_0000_0000,
                (limit as int) < 0x1_0000_0000,
        ;
        lemma_mul_inequality(limit as int, m as int, d as int);
        assert(d as int * limit as int == limit as int * d as int) by (nonlinear_arith);
        assert(d as int * m as int == m as int * d as int) by (nonlinear_arith);
        lemma_div_is_ordered(d as int * limit as int, d as int * m as int, m as int);
        lemma_div_multiples_vanish(d as int, m as int);
        assert(d as int * limit as int >= 0) by (nonlinear_arith);
        lemma_div_is_ordered(0, d as int * limit as int, m as int);
    }
    let q: u64 = (d as u64) * (limit as u64) / (m as u64);
    if d > 0 && q == 0 {
        1
    } else {
        q as u32
    }
}

/// Compute the dimensions a decoded image is resized to before encoding.
///
/// A `long_side_limit` of zero means no limit; a limit at or above the long
/// side leaves the size unchanged (no upscaling); otherwise both sides are
/// scaled down by `long_side_limit / long_side`, floored, with each nonzero
/// side held at one pixel or more.
pub fn calc_new_dimensions(size: (u32, u32), long_side_limit: u32) -> (r: (u32, u32))
    ensures
        r.0 as int == plan_spec(size.0, size.1, long_side_limit).0,
        r.1 as int == plan_spec(size.0, size.1, long_side_limit).1,
        r.0 <= size.0,
        r.1 <= size.1,
{
    if long_side_limit == 0 {
        return size;
    }
    let m: u32 = if size.0 >= size.1 {
        size.0
    } else {
        size.1
    };
    if long_side_limit >= m {
        return size;
    }
    let tw = scale_side(size.0, long_side_limit, m);
    let th = scale_side(size.1, long_side_limit, m);
    (tw, th)
}

/// With no limit, or a limit at or above the long side, the planned
/// dimensions are the original ones.
pub proof fn lemma_plan_identity(w: u32, h: u32, limit: u32)
    requires
        limit == 0 || limit as int >= long_side(w, h),
    ensures
        plan_spec(w, h, limit) == (w as int, h as int),
{
}

/// With a positive limit below the long side, the planned long side equals
/// the limit exactly.
pub proof fn lemma_plan_long_side(w: u32, h: u32, limit: u32)
    requires
        0 < limit,
        long_side(w, h) > limit,
    ensures
        ({
            let (tw, th) = plan_spec(w, h, limit);
            (if tw >= th {
                tw
            } else {
                th
            }) == limit
        }),
{
    let m = long_side(w, h);
    let (tw, th) = plan_spec(w, h, limit);
    lemma_div_multiples_vanish(limit as int, m);
    assert(m * limit as int == limit as int * m) by (nonlinear_arith);
    if w >= h {
        assert(w as int * limit as int == m * limit as int);
        assert(tw == limit);
        lemma_mul_inequality(h as int, w as int, limit as int);
        assert(h as int * limit as int == limit as int * h as int) by (nonlinear_arith);
        assert(w as int * limit as int == limit as int * w as int) by (nonlinear_arith);
        lemma_div_is_ordered(h as int * limit as int, w as int * limit as int, m);
        assert(th <= limit);
    } else {
        assert(h as int * limit as int == m * limit as int);
        assert(th == limit);
        lemma_mul_inequality(w as int, h as int, limit as int);
        assert(w as int * limit as int == limit as int * w as int) by (nonlinear_arith);
        assert(h as int * limit as int == limit as int * h as int) by (nonlinear_arith);
        lemma_div_is_ordered(w as int * limit as int, h as int * limit as int, m);
        assert(tw <= limit);
    }
}

/// With a positive limit below the long side, and neither scaled side hitting
/// the floor-at-one guard, the planned sides keep the aspect ratio to within
/// one pixel: the cross products `tw * h` and `th * w` differ by less than
/// one original side.
pub proof fn lemma_plan_aspect(w: u32, h: u32, limit: u32)
    requires
        0 < limit,
        long_side(w, h) > limit,
        w as int * limit as int >= long_side(w, h),
        h as int * limit as int >= long_side(w, h),
    ensures
        ({
            let (tw, th) = plan_spec(w, h, limit);
            tw * (h as int) < th * (w as int) + (w as int) && th * (w as int) < tw * (h as int)
                + (h as int)
        }),
{
    let m = long_side(w, h);
    assert(w > 0) by (nonlinear_arith)
        requires
            w as int * limit as int >= m,
            m > 0,
    ;
    assert(h > 0) by (nonlinear_arith)
        requires
            h as int * limit as int >= m,
            m > 0,
    ;
    let wl = w as int * limit as int;
    let hl = h as int * limit as int;
    let qw = wl / m;
    let qh = hl / m;
    lemma_div_is_ordered(m, wl, m);
    lemma_div_is_ordered(m, hl, m);
    assert(m / m == 1) by {
        lemma_div_multiples_vanish(1, m);
    }
    assert(qw >= 1 && qh >= 1);
    let (tw, th) = plan_spec(w, h, limit);
    assert(tw == qw && th == qh);
    lemma_fundamental_div_mod(wl, m);
    lemma_fundamental_div_mod(hl, m);
    lemma_mod_bound(wl, m);
    lemma_mod_bound(hl, m);
    let sw = wl % m;
    let sh = hl % m;
    assert(qw * (h as int) < qh * (w as int) + (w as int) && qh * (w as int) < qw * (h as int) + (
    h as int)) by (nonlinear_arith)
        requires
            w as int * limit as int == m * qw + sw,
            h as int * limit as int == m * qh + sh,
            0 <= sw < m,
            0 <= sh < m,
            m > 0,
            w > 0,
            h > 0,
    ;
}

} // verus!
