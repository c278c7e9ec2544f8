//! Scalars in 8.24 fixed point.
//!
//! A coordinate, a colour channel or an interpolation weight is an `i32`
//! that counts units of 2^-24, so `ONE` stands for 1.0 and values range from
//! -128 to just under 128. One unit is about 0.00000006: sixteen units stay
//! below one millionth. Every operation is specified over `int` and computed
//! without overflow in wider integers.

use vstd::prelude::*;

verus! {

/// The fixed-point representation of 1.0.
pub const ONE: i32 = 16777216;

/// The fixed-point representation of 0.5.
pub const HALF: i32 = 8388608;

/// The largest whole number of units that stays within one millionth.
pub const MILLIONTH: i32 = 16;

/// `true` when `x` can be stored in an `i32`.
pub open spec fn fits_i32(x: int) -> bool {
    -0x8000_0000 <= x <= 0x7fff_ffff
}

/// The affine blend `t * u + (1 - t) * v` of two fixed-point values with a
/// fixed-point weight, rounded down to the next representable value.
pub open spec fn blend(u: int, v: int, t: int) -> int {
    (t * u + (ONE - t) * v) / (ONE as int)
}

/// `r` is the floor of the square root of `n`.
pub open spec fn is_floor_sqrt(n: nat, r: nat) -> bool {
    r * r <= n < (r + 1) * (r + 1)
}

/// The floor of the square root of `n`: the largest `r` with `r * r <= n`.
pub open spec fn isqrt(n: nat) -> nat {
    choose|r: nat| is_floor_sqrt(n, r)
}

/// The squared Euclidean length of the vector `(x, y, z)`.
pub open spec fn norm_sq(x: int, y: int, z: int) -> int {
    x * x + y * y + z * z
}

/// The length of the raw vector `(x, y, z)`, scaled by `ONE` and rounded
/// down: the fixed-point length carried to twenty-four further fractional bits.
pub open spec fn scaled_length(x: int, y: int, z: int) -> nat {
    isqrt((norm_sq(x, y, z) * ONE * ONE) as nat)
}

/// The component `c` of a vector divided by the vector's length, as a
/// fixed-point value rounded toward zero. `len` is the vector's
/// `scaled_length`.
pub open spec fn unit_component(c: int, len: int) -> int {
    if c >= 0 {
        (c * ONE * ONE) / len
    } else {
        -((-c * ONE * ONE) / len)
    }
}

/// Every natural number has a floor square root, and `isqrt` names it.
pub proof fn lemma_isqrt_exists(n: nat)
    ensures
        is_floor_sqrt(n, isqrt(n)),
    decreases n,
{
    if n == 0 {
        assert(0nat * 0nat <= n < (0nat + 1) * (0nat + 1)) by (nonlinear_arith)
            requires
                n == 0,
        ;
        assert(is_floor_sqrt(n, 0));
    } else {
        let m: nat = (n - 1) as nat;
        lemma_isqrt_exists(m);
        let r0: nat = isqrt(m);
        if n < (r0 + 1) * (r0 + 1) {
            assert(is_floor_sqrt(n, r0));
        } else {
            let r1: nat = r0 + 1;
            assert(n == r1 * r1);
            assert(r1 * r1 < (r1 + 1) * (r1 + 1)) by (nonlinear_arith);
            assert(is_floor_sqrt(n, r1));
        }
    }
}

/// `isqrt(n)` is the one number whose square is at most `n` while the square
/// of its successor is not.
pub proof fn lemma_isqrt_unique(n: nat, r: nat)
    requires
        is_floor_sqrt(n, r),
    ensures
        isqrt(n) == r,
{
    lemma_isqrt_exists(n);
    let s = isqrt(n);
    assert(s == r) by (nonlinear_arith)
        requires
            s * s <= n < (s + 1) * (s + 1),
            r * r <= n < (r + 1) * (r + 1),
    ;
}

/// With a weight between 0 and 1 the blend lies between its two arguments,
/// so it can be stored wherever they can.
pub proof fn lemma_blend_between(u: int, v: int, t: int)
    requires
        0 <= t <= ONE,
    ensures
        u <= v ==> u <= blend(u, v, t) <= v,
        v <= u ==> v <= blend(u, v, t) <= u,
{
    let q = blend(u, v, t);
    assert((u <= v ==> u <= q <= v) && (v <= u ==> v <= q <= u)) by (nonlinear_arith)
        requires
            0 <= t <= 16777216,
            q == (t * u + (16777216 - t) * v) / 16777216,
    ;
}

/// `MILLIONTH` units are at most one millionth, and one unit more is not.
pub proof fn lemma_millionth()
    ensures
        MILLIONTH * 1_000_000 <= ONE < (MILLIONTH + 1) * 1_000_000,
{
}

/// `r` is the exact blend `t * u + (1 - t) * v` rounded down: it lies below
/// the exact blend by less than one unit.
pub open spec fn within_a_unit(r: int, u: int, v: int, t: int) -> bool {
    ONE * r <= t * u + (ONE - t) * v < ONE * r + ONE
}

/// The blend misses the exact value `t * u + (1 - t) * v` by less than one
/// unit, which is less than a millionth, whatever the weight.
pub proof fn lemma_blend_accurate(u: int, v: int, t: int)
    ensures
        within_a_unit(blend(u, v, t), u, v, t),
{
    let exact = t * u + (ONE - t) * v;
    let q = blend(u, v, t);
    assert(16777216 * q <= exact < 16777216 * q + 16777216) by (nonlinear_arith)
        requires
            q == exact / 16777216,
    ;
}

/// The blend of two values with weight one half is their arithmetic mean,
/// rounded down: it misses the exact mean by less than one unit.
pub proof fn lemma_blend_half(u: int, v: int)
    ensures
        blend(u, v, HALF as int) == (u + v) / 2,
        2 * blend(u, v, HALF as int) <= u + v <= 2 * blend(u, v, HALF as int) + 1,
{
    let q = blend(u, v, HALF as int);
    assert(q == (u + v) / 2) by (nonlinear_arith)
        requires
            q == (8388608 * u + (16777216 - 8388608) * v) / 16777216,
    ;
}

/// Blending a value with itself gives the value back, whatever the weight.
pub proof fn lemma_blend_same(u: int, t: int)
    ensures
        blend(u, u, t) == u,
{
    let q = blend(u, u, t);
    assert(q == u) by (nonlinear_arith)
        requires
            q == (t * u + (16777216 - t) * u) / 16777216,
    ;
}

/// Floor division of a possibly negative numerator by a positive divisor.
fn floor_div(a: i128, b: i128) -> (q: i128)
    requires
        0 < b <= 0x1_0000_0000_0000_0000,
        -0x1_0000_0000_0000_0000_0000_0000 <= a <= 0x1_0000_0000_0000_0000_0000_0000,
    ensures
        q == a / b,
{
    if a >= 0 {
        a / b
    } else {
        let m: i128 = -a + (b - 1);
        let c: i128 = m / b;
        proof {
            let ai = a as int;
            let bi = b as int;
            assert(ai / bi == -((-ai + (bi - 1)) / bi)) by (nonlinear_arith)
                requires
                    bi > 0,
                    ai < 0,
            ;
            assert(0 <= c <= m) by (nonlinear_arith)
                requires
                    c == m / b,
                    m >= 0,
                    b > 0,
            ;
        }
        -c
    }
}

/// Blends two fixed-point values: `amount` of `u` and the rest of `v`.
pub fn lerp_scalar(u: i32, v: i32, amount: i32) -> (r: i32)
    requires
        fits_i32(blend(u as int, v as int, amount as int)),
    ensures
        r == blend(u as int, v as int, amount as int),
{
    let t: i128 = amount as i128;
    let rest: i128 = ONE as i128 - t;
    let x: i128 = u as i128;
    let y: i128 = v as i128;
    assert(-0x8000_0000 * 0x8000_0000 <= t * x <= 0x8000_0000 * 0x8000_0000) by (nonlinear_arith)
        requires
            -0x8000_0000 <= t <= 0x8000_0000,
            -0x8000_0000 <= x <= 0x8000_0000,
    ;
    assert(-0x1_0000_0000 * 0x8000_0000 <= rest * y <= 0x1_0000_0000 * 0x8000_0000)
        by (nonlinear_arith)
        requires
            -0x1_0000_0000 <= rest <= 0x1_0000_0000,
            -0x8000_0000 <= y <= 0x8000_0000,
    ;
    let num: i128 = t * x + rest * y;
    let q: i128 = floor_div(num, ONE as i128);
    q as i32
}

/// Computes the floor of the square root of `n` by bisection.
pub fn isqrt_u128(n: u128) -> (r: u64)
    ensures
        r == isqrt(n as nat),
{
    let mut lo: u128 = 0;
    let mut hi: u128 = 0x1_0000_0000_0000_0000;
    assert(lo * lo <= n < hi * hi) by (nonlinear_arith)
        requires
            lo == 0,
            hi == 0x1_0000_0000_0000_0000,
            n <= 0xffff_ffff_ffff_ffff_ffff_ffff_ffff_ffff,
    ;
    while hi - lo > 1
        invariant
            lo < hi <= 0x1_0000_0000_0000_0000,
            lo * lo <= n < hi * hi,
        decreases hi - lo,
    {
        let mid: u128 = lo + (hi - lo) / 2;
        assert(mid * mid <= 0xffff_ffff_ffff_ffff * 0xffff_ffff_ffff_ffff) by (nonlinear_arith)
            requires
                0 <= mid <= 0xffff_ffff_ffff_ffff,
        ;
        if mid * mid <= n {
            lo = mid;
        } else {
            hi = mid;
        }
    }
    proof {
        assert(is_floor_sqrt(n as nat, lo as nat));
        lemma_isqrt_unique(n as nat, lo as nat);
    }
    lo as u64
}

/// The scaled length of a vector is at least `ONE` times the magnitude of
/// each of its components, so no unit component exceeds `ONE` in magnitude.
pub proof fn lemma_unit_component_bounds(x: int, y: int, z: int)
    requires
        (x, y, z) != (0int, 0int, 0int),
    ensures
        scaled_length(x, y, z) >= ONE,
        -ONE <= unit_component(x, scaled_length(x, y, z) as int) <= ONE,
        -ONE <= unit_component(y, scaled_length(x, y, z) as int) <= ONE,
        -ONE <= unit_component(z, scaled_length(x, y, z) as int) <= ONE,
{
    let len = scaled_length(x, y, z) as int;
    let n = norm_sq(x, y, z) * ONE * ONE;
    assert(n >= ONE * ONE && n >= x * ONE * (x * ONE) && n >= y * ONE * (y * ONE) && n >= z * ONE
        * (z * ONE)) by (nonlinear_arith)
        requires
            n == (x * x + y * y + z * z) * ONE * ONE,
            x != 0 || y != 0 || z != 0,
    ;
    lemma_isqrt_exists(n as nat);
    lemma_scaled_component(x, len, n);
    lemma_scaled_component(y, len, n);
    lemma_scaled_component(z, len, n);
    assert(len >= ONE) by (nonlinear_arith)
        requires
            n < (len + 1) * (len + 1),
            n >= ONE * ONE,
            len >= 0,
    ;
}

/// A component whose scaled square is at most `n` has a unit component of
/// magnitude at most `ONE` with respect to the floor square root of `n`.
proof fn lemma_scaled_component(c: int, len: int, n: int)
    requires
        len >= 0,
        len * len <= n < (len + 1) * (len + 1),
        n >= c * ONE * (c * ONE),
        n >= 1,
    ensures
        len >= 1,
        -ONE <= unit_component(c, len) <= ONE,
{
    let m: int = if c >= 0 { c } else { -c };
    assert(len >= m * ONE && len >= 1) by (nonlinear_arith)
        requires
            n < (len + 1) * (len + 1),
            n >= c * ONE * (c * ONE),
            n >= 1,
            len >= 0,
            m == c || m == -c,
            m >= 0,
    ;
    let q = (m * ONE * ONE) / len;
    assert(0 <= q <= ONE) by (nonlinear_arith)
        requires
            q == (m * ONE * ONE) / len,
            len >= m * ONE,
            len >= 1,
            m >= 0,
    ;
}

/// Divides the component `c` of a vector by the vector's length, given the
/// vector's scaled length.
pub(crate) fn unit_component_of(c: i32, len: u64) -> (r: i32)
    requires
        len >= 1,
        -ONE <= unit_component(c as int, len as int) <= ONE,
    ensures
        r == unit_component(c as int, len as int),
{
    let wide: i128 = c as i128;
    if wide >= 0 {
        let q: i128 = (wide * 0x1_0000_0000_0000) / (len as i128);
        assert(wide * 0x1_0000_0000_0000 == c * ONE * ONE) by (nonlinear_arith)
            requires
                wide == c,
        ;
        q as i32
    } else {
        let q: i128 = (-wide * 0x1_0000_0000_0000) / (len as i128);
        assert(-wide * 0x1_0000_0000_0000 == -c * ONE * ONE) by (nonlinear_arith)
            requires
                wide == c,
        ;
        (-q) as i32
    }
}

} // verus!
