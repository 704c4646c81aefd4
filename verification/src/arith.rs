//! Integer helpers for the geometry kernels: Rust division, square roots,
//! clamps and dot products, each with its exact meaning.
use vstd::prelude::*;

use crate::space::IVec3;

verus! {

/// Quotient of Rust's `/` on signed integers: rounds toward zero.
pub open spec fn tdiv(x: int, d: int) -> int {
    if x == 0 {
        0
    } else if x > 0 && d > 0 {
        x / d
    } else if x < 0 && d < 0 {
        (-x) / (-d)
    } else if x < 0 {
        -((-x) / d)
    } else {
        -(x / (-d))
    }
}

/// `x` limited to `lo..=hi`.
pub open spec fn clamp_int(x: int, lo: int, hi: int) -> int {
    if x < lo {
        lo
    } else if x > hi {
        hi
    } else {
        x
    }
}

/// Absolute value.
pub open spec fn abs_int(x: int) -> int {
    if x < 0 {
        -x
    } else {
        x
    }
}

/// `r` is the integer square root of `n`.
pub open spec fn is_root(n: int, r: int) -> bool {
    0 <= r && r * r <= n && n < (r + 1) * (r + 1)
}

/// Floor of the square root; zero for non-positive `n`.
pub open spec fn spec_isqrt(n: int) -> int {
    if n <= 0 {
        0
    } else {
        choose|r: int| is_root(n, r)
    }
}

/// Integer dot product.
pub open spec fn dot(a: IVec3, b: IVec3) -> int {
    a.x * b.x + a.y * b.y + a.z * b.z
}

/// Rust's truncating division never leaves `i64` for these operands.
proof fn lemma_tdiv_range(x: int, d: int)
    requires
        d != 0,
        i64::MIN <= x <= i64::MAX,
        i64::MIN <= d <= i64::MAX,
        !(x == i64::MIN && d == -1),
    ensures
        i64::MIN <= tdiv(x, d) <= i64::MAX,
{
    if x > 0 && d > 0 {
        assert(0 <= x / d <= x) by (nonlinear_arith)
            requires
                x > 0,
                d > 0,
        {
        }
    } else if x < 0 && d < 0 {
        assert(0 <= (-x) / (-d) <= -x) by (nonlinear_arith)
            requires
                x < 0,
                d < 0,
        {
        }
        if d == -1 {
            assert(x > i64::MIN);
        } else {
            assert((-x) / (-d) <= i64::MAX) by (nonlinear_arith)
                requires
                    x < 0,
                    d <= -2,
                    x >= i64::MIN,
            {
            }
        }
    } else if x < 0 {
        assert(0 <= (-x) / d <= -x) by (nonlinear_arith)
            requires
                x < 0,
                d > 0,
        {
        }
    } else if x > 0 {
        assert(0 <= x / (-d) <= x) by (nonlinear_arith)
            requires
                x > 0,
                d < 0,
        {
        }
    }
}

/// Rust's `x / d` on `i64`.
pub fn div_trunc(x: i64, d: i64) -> (r: i64)
    requires
        d != 0,
        !(x == i64::MIN && d == -1),
    ensures
        r == tdiv(x as int, d as int),
{
    proof {
        lemma_tdiv_range(x as int, d as int);
    }
    match x.checked_div(d) {
        Some(q) => q,
        None => 0,
    }
}

/// `x` limited to `lo..=hi`.
pub fn clamp_i64(x: i64, lo: i64, hi: i64) -> (r: i64)
    requires
        lo <= hi,
    ensures
        r == clamp_int(x as int, lo as int, hi as int),
{
    if x < lo {
        lo
    } else if x > hi {
        hi
    } else {
        x
    }
}

/// Two roots of the same number agree.
pub proof fn lemma_root_unique(n: int, a: int, b: int)
    requires
        is_root(n, a),
        is_root(n, b),
    ensures
        a == b,
{
    if a < b {
        assert((a + 1) * (a + 1) <= b * b) by (nonlinear_arith)
            requires
                0 <= a,
                a + 1 <= b,
        {
        }
    } else if b < a {
        assert((b + 1) * (b + 1) <= a * a) by (nonlinear_arith)
            requires
                0 <= b,
                b + 1 <= a,
        {
        }
    }
}

/// Every positive number has its integer square root.
pub proof fn lemma_isqrt_root(n: int)
    requires
        n > 0,
    ensures
        is_root(n, spec_isqrt(n)),
    decreases n,
{
    let r = root_of(n);
    lemma_root_unique(n, r, choose|r: int| is_root(n, r));
}

proof fn root_of(n: int) -> (r: int)
    requires
        n > 0,
    ensures
        is_root(n, r),
    decreases n,
{
    if n == 1 {
        1
    } else {
        let q = root_of(n - 1);
        if (q + 1) * (q + 1) <= n {
            assert(n < (q + 2) * (q + 2)) by (nonlinear_arith)
                requires
                    0 <= q,
                    n - 1 < (q + 1) * (q + 1),
            {
            }
            assert(((q + 1) + 1) * ((q + 1) + 1) == (q + 2) * (q + 2));
            q + 1
        } else {
            assert(q * q <= n);
            q
        }
    }
}

/// Integer square root (floor) of a value below `2^64`.
pub fn isqrt(n: i128) -> (r: i64)
    requires
        n < 0x1_0000_0000_0000_0000,
    ensures
        r == spec_isqrt(n as int),
        n > 0 ==> is_root(n as int, r as int),
        0 <= r <= 0x1_0000_0000,
{
    if n <= 0 {
        return 0;
    }
    let mut lo: i128 = 0;
    let mut hi: i128 = 0x1_0000_0000;
    assert(0x1_0000_0000 * 0x1_0000_0000 == 0x1_0000_0000_0000_0000);
    while hi - lo > 1
        invariant
            0 < n < 0x1_0000_0000_0000_0000,
            0 <= lo < hi <= 0x1_0000_0000,
            lo * lo <= n,
            n < hi * hi,
        decreases hi - lo,
    {
        let mid = lo + (hi - lo) / 2;
        assert(mid * mid <= 0x1_0000_0000_0000_0000) by (nonlinear_arith)
            requires
                0 <= mid <= 0x1_0000_0000,
        {
        }
        if mid * mid <= n {
            lo = mid;
        } else {
            hi = mid;
        }
    }
    proof {
        assert(is_root(n as int, lo as int));
        lemma_root_unique(n as int, lo as int, choose|r: int| is_root(n as int, r));
    }
    lo as i64
}

/// Products of two `i32` values stay within `2^62`.
pub proof fn lemma_i32_product(a: int, b: int)
    requires
        i32::MIN <= a <= i32::MAX,
        i32::MIN <= b <= i32::MAX,
    ensures
        -0x4000_0000_0000_0000 <= a * b <= 0x4000_0000_0000_0000,
{
    assert(-0x4000_0000_0000_0000 <= a * b <= 0x4000_0000_0000_0000) by (nonlinear_arith)
        requires
            i32::MIN <= a <= i32::MAX,
            i32::MIN <= b <= i32::MAX,
    {
    }
}

/// Exact dot product of two `i32` vectors.
pub fn dot_wide(a: IVec3, b: IVec3) -> (r: i128)
    ensures
        r == dot(a, b),
        -0xC000_0000_0000_0000 <= r <= 0xC000_0000_0000_0000,
{
    proof {
        lemma_i32_product(a.x as int, b.x as int);
        lemma_i32_product(a.y as int, b.y as int);
        lemma_i32_product(a.z as int, b.z as int);
    }
    (a.x as i128) * (b.x as i128) + (a.y as i128) * (b.y as i128) + (a.z as i128) * (b.z as i128)
}

/// A self dot product of an `i32` vector is below `2^64`.
pub proof fn lemma_dot_self_range(a: IVec3)
    ensures
        0 <= dot(a, a) < 0x1_0000_0000_0000_0000,
{
    assert(0 <= a.x * a.x <= 0x4000_0000_0000_0000) by (nonlinear_arith)
        requires
            i32::MIN <= a.x <= i32::MAX,
    {
    }
    assert(0 <= a.y * a.y <= 0x4000_0000_0000_0000) by (nonlinear_arith)
        requires
            i32::MIN <= a.y <= i32::MAX,
    {
    }
    assert(0 <= a.z * a.z <= 0x4000_0000_0000_0000) by (nonlinear_arith)
        requires
            i32::MIN <= a.z <= i32::MAX,
    {
    }
}

/// Floor of `x / 2^16` for a wide value.
pub fn floor_fx(x: i128) -> (r: i128)
    ensures
        r == x as int / 65536,
{
    match x.checked_div_euclid(65536) {
        Some(q) => q,
        None => 0,
    }
}

} // verus!
