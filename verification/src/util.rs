//! Small numeric helpers shared by the placement and command arithmetic.

use vstd::prelude::*;

verus! {

/// Clamp an unbounded integer into the `i64` range.
pub open spec fn sat64(v: int) -> i64 {
    if v > i64::MAX {
        i64::MAX
    } else if v < i64::MIN {
        i64::MIN
    } else {
        v as i64
    }
}

/// Sum of two coordinates, saturating at the representable range.
pub fn clamp_add(a: i64, b: i64) -> (r: i64)
    ensures
        r == sat64(a + b),
{
    let s: i128 = a as i128 + b as i128;
    if s > i64::MAX as i128 {
        i64::MAX
    } else if s < i64::MIN as i128 {
        i64::MIN
    } else {
        s as i64
    }
}

/// `a + b - c`, saturating at the representable range.
pub fn clamp_add_sub(a: i64, b: i64, c: i64) -> (r: i64)
    ensures
        r == sat64(a + b - c),
{
    let s: i128 = a as i128 + b as i128 - c as i128;
    if s > i64::MAX as i128 {
        i64::MAX
    } else if s < i64::MIN as i128 {
        i64::MIN
    } else {
        s as i64
    }
}

/// Division truncated toward zero, the semantics of the executable `/`.
pub open spec fn tdiv(a: int, b: int) -> int {
    if a >= 0 {
        a / b
    } else {
        -((-a) / b)
    }
}

/// Linear rescaling of `s` from one range onto another, in integer
/// arithmetic: the offset into the source range is scaled by the ratio of
/// the two range widths, the quotient truncated toward zero.
pub fn map_range(
    from_start: i64,
    from_end: i64,
    to_start: i64,
    to_end: i64,
    s: i64,
) -> (r: i64)
    requires
        from_start < from_end,
        -1_000_000_000 <= from_start <= 1_000_000_000,
        -1_000_000_000 <= from_end <= 1_000_000_000,
        -1_000_000_000 <= to_start <= 1_000_000_000,
        -1_000_000_000 <= to_end <= 1_000_000_000,
        -1_000_000_000 <= s <= 1_000_000_000,
    ensures
        r == to_start + tdiv((s - from_start) * (to_end - to_start), from_end - from_start),
{
    proof {
        assert(-4_000_000_000_000_000_000 <= (s - from_start) * (to_end - to_start)
            <= 4_000_000_000_000_000_000) by (nonlinear_arith)
            requires
                -2_000_000_000 <= s - from_start <= 2_000_000_000,
                -2_000_000_000 <= to_end - to_start <= 2_000_000_000,
        ;
    }
    let num: i128 = (s as i128 - from_start as i128) * (to_end as i128 - to_start as i128);
    let den: i128 = from_end as i128 - from_start as i128;
    let neg = num < 0;
    let absnum: i128 = if neg {
        -num
    } else {
        num
    };
    let qa: i128 = absnum / den;
    proof {
        assert(0 <= qa <= absnum) by (nonlinear_arith)
            requires
                qa == absnum / den,
                den >= 1,
                absnum >= 0,
        ;
    }
    let q: i128 = if neg {
        -qa
    } else {
        qa
    };
    let r: i128 = to_start as i128 + q;
    r as i64
}

} // verus!
