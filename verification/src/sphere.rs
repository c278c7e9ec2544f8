//! How accurate projection onto the unit sphere is: how close each
//! coordinate comes to the exact quotient, how close the result lies to the
//! sphere, and why projecting a second time barely moves it. All bounds are
//! a few units of 2^-24, well within a millionth.

use crate::fixed::{
    lemma_isqrt_exists, lemma_unit_component_bounds, norm_sq, scaled_length, unit_component, ONE,
};
use crate::quad_mesh::QuadMeshView;
use crate::vertex::{dist_sq, unit_vector, Vertex};
use vstd::prelude::*;

verus! {

/// The largest distance, in units of 2^-24, by which a second projection
/// moves any coordinate of a projected position.
pub const SETTLE_TOLERANCE: i32 = 4;

/// The magnitude of `c`.
pub open spec fn magnitude(c: int) -> int {
    if c >= 0 {
        c
    } else {
        -c
    }
}

/// The positions `p` and `q` differ by at most `SETTLE_TOLERANCE` units in
/// each coordinate.
pub open spec fn settled(p: (i32, i32, i32), q: (i32, i32, i32)) -> bool {
    &&& magnitude(p.0 - q.0) <= SETTLE_TOLERANCE
    &&& magnitude(p.1 - q.1) <= SETTLE_TOLERANCE
    &&& magnitude(p.2 - q.2) <= SETTLE_TOLERANCE
}

/// The position `p` has a length within four units of `ONE`: at least
/// `ONE - 4` and less than `ONE + 1`.
pub open spec fn near_unit(p: (i32, i32, i32)) -> bool {
    (ONE - 4) * (ONE - 4) <= norm_sq(p.0 as int, p.1 as int, p.2 as int) <= ONE * ONE + 2 * ONE
}

/// The coordinate `u` is `c` divided by the length of a position whose
/// squared length is `n`, within two units: `u` has the sign of `c`, and
/// the exact quotient `ONE * |c| / sqrt(n)` lies above `|u| - 2` and below
/// `|u| + 1`.
pub open spec fn component_accurate(c: int, u: int, n: int) -> bool {
    let a = magnitude(c);
    let b = magnitude(u);
    &&& c >= 0 ==> u >= 0
    &&& c <= 0 ==> u <= 0
    &&& (a * a) * (ONE * ONE) < ((b + 1) * (b + 1)) * n
    &&& b >= 2 ==> ((b - 2) * (b - 2)) * n < (a * a) * (ONE * ONE)
}

/// The position `u` points along `p`: each coordinate of `u` is the
/// coordinate of `p` divided by the length of `p`, within two units.
pub open spec fn along(u: (i32, i32, i32), p: (i32, i32, i32)) -> bool {
    let n = norm_sq(p.0 as int, p.1 as int, p.2 as int);
    &&& component_accurate(p.0 as int, u.0 as int, n)
    &&& component_accurate(p.1 as int, u.1 as int, n)
    &&& component_accurate(p.2 as int, u.2 as int, n)
}

/// Projection keeps the direction of a position. A unit component has the
/// sign of the component it is computed from, and its magnitude is the
/// magnitude of that component, carried to 48 fractional bits and divided by
/// the scaled length of the position, rounded down.
pub proof fn lemma_component_floor(c: int, len: int)
    requires
        len >= 1,
    ensures
        c >= 0 ==> unit_component(c, len) >= 0,
        c <= 0 ==> unit_component(c, len) <= 0,
        magnitude(unit_component(c, len)) * len <= magnitude(c) * 0x1_0000_0000_0000,
        magnitude(c) * 0x1_0000_0000_0000 < (magnitude(unit_component(c, len)) + 1) * len,
{
    let a = magnitude(c);
    let t = a * ONE * ONE;
    let b = t / len;
    assert(t == a * 0x1_0000_0000_0000) by (nonlinear_arith)
        requires
            t == a * 16777216 * 16777216,
    ;
    assert(0 <= b && b * len <= t < (b + 1) * len) by (nonlinear_arith)
        requires
            b == t / len,
            len >= 1,
            t >= 0,
    ;
    assert(magnitude(unit_component(c, len)) == b);
}

/// The square of a non-negative number that is at most another is at most
/// the other's square; strictly less where the number is strictly less.
proof fn lemma_square_order(u: int, v: int)
    requires
        0 <= u,
    ensures
        u <= v ==> u * u <= v * v,
        u < v ==> u * u < v * v,
{
    assert((u <= v ==> u * u <= v * v) && (u < v ==> u * u < v * v)) by (nonlinear_arith)
        requires
            0 <= u,
    ;
}

/// A unit component is accurate to two units. `len` is the scaled length of
/// a position whose squared length is `n`, and `c` one of its coordinates.
pub proof fn lemma_unit_component_accurate(c: int, len: int, n: int)
    requires
        n >= 1,
        n >= c * c,
        len >= 0,
        len * len <= n * ONE * ONE < (len + 1) * (len + 1),
    ensures
        component_accurate(c, unit_component(c, len), n),
{
    let s2: int = 0x1_0000_0000_0000;
    let a = magnitude(c);
    let b = magnitude(unit_component(c, len));
    let m = n * ONE * ONE;
    assert(m == n * s2 && m >= c * ONE * (c * ONE) && m >= 1 && ONE * ONE == s2)
        by (nonlinear_arith)
        requires
            m == n * 16777216 * 16777216,
            s2 == 0x1_0000_0000_0000,
            n >= 1,
            n >= c * c,
    ;
    lemma_scaled_bound(c, len, m);
    lemma_component_floor(c, len);
    let t = a * s2;
    let high = (b + 1) * len;
    // The exact quotient lies below |u| + 1.
    lemma_square_order(t, high);
    assert(high * high == ((b + 1) * (b + 1)) * (len * len)) by (nonlinear_arith)
        requires
            high == (b + 1) * len,
    ;
    assert(((b + 1) * (b + 1)) * (len * len) <= ((b + 1) * (b + 1)) * m) by (nonlinear_arith)
        requires
            len * len <= m,
    ;
    assert(t * t == (a * a) * s2 * s2) by (nonlinear_arith)
        requires
            t == a * s2,
    ;
    let w = (b + 1) * (b + 1);
    assert((a * a) * s2 < w * n) by (nonlinear_arith)
        requires
            (a * a) * s2 * s2 < w * m,
            m == n * s2,
            s2 > 0,
    {
        assert(w * m == (w * n) * s2);
    }
    // The exact quotient lies above |u| - 2.
    if b >= 2 {
        assert(a >= 1) by (nonlinear_arith)
            requires
                b * len <= a * s2,
                b >= 2,
                len >= 1,
                s2 > 0,
        ;
        assert(a * ONE >= ONE) by (nonlinear_arith)
            requires
                a >= 1,
        ;
        let low = (b - 2) * (len + 1);
        assert(0 <= low <= b * len) by (nonlinear_arith)
            requires
                low == (b - 2) * (len + 1),
                2 <= b <= len,
        ;
        lemma_square_order(low, t);
        let v = (b - 2) * (b - 2);
        assert(low * low == v * ((len + 1) * (len + 1))) by (nonlinear_arith)
            requires
                low == (b - 2) * (len + 1),
                v == (b - 2) * (b - 2),
        ;
        assert(v * m <= v * ((len + 1) * (len + 1))) by (nonlinear_arith)
            requires
                m < (len + 1) * (len + 1),
                v >= 0,
        ;
        assert(b > 2 ==> v * m < v * ((len + 1) * (len + 1))) by (nonlinear_arith)
            requires
                m < (len + 1) * (len + 1),
                v == (b - 2) * (b - 2),
        ;
        if b == 2 {
            assert(v * m == 0 && 0 < (a * a) * s2 * s2) by (nonlinear_arith)
                requires
                    v == (b - 2) * (b - 2),
                    b == 2,
                    a >= 1,
                    s2 > 0,
            ;
        }
        assert(v * m < (a * a) * s2 * s2);
        assert(v * n < (a * a) * s2) by (nonlinear_arith)
            requires
                v * m < (a * a) * s2 * s2,
                m == n * s2,
                s2 > 0,
        {
            assert(v * m == (v * n) * s2);
        }
    }
}

/// The floor square root of a scaled squared length is at least one, at
/// least `ONE` times each coordinate, and no unit component exceeds it.
proof fn lemma_scaled_bound(c: int, len: int, m: int)
    requires
        len >= 0,
        len * len <= m < (len + 1) * (len + 1),
        m >= c * ONE * (c * ONE),
        m >= 1,
    ensures
        len >= 1,
        len >= magnitude(c) * ONE,
        magnitude(unit_component(c, len)) <= ONE,
{
    let a = magnitude(c);
    assert(len >= a * ONE && len >= 1) by (nonlinear_arith)
        requires
            m < (len + 1) * (len + 1),
            m >= c * ONE * (c * ONE),
            m >= 1,
            len >= 0,
            a == c || a == -c,
            a >= 0,
    ;
    let q = (a * ONE * ONE) / len;
    assert(0 <= q <= ONE) by (nonlinear_arith)
        requires
            q == (a * ONE * ONE) / len,
            len >= a * ONE,
            len >= 1,
            a >= 0,
    ;
}

/// The squares of three multiples of `w` add up to the sum of the squares of
/// the three factors, times the square of `w`.
proof fn lemma_sum_of_scaled_squares(b0: int, b1: int, b2: int, w: int)
    ensures
        (b0 * w) * (b0 * w) + (b1 * w) * (b1 * w) + (b2 * w) * (b2 * w) == (b0 * b0 + b1 * b1 + b2
            * b2) * (w * w),
{
    let ww = w * w;
    assert((b0 * w) * (b0 * w) == (b0 * b0) * ww) by (nonlinear_arith)
        requires
            ww == w * w,
    ;
    assert((b1 * w) * (b1 * w) == (b1 * b1) * ww) by (nonlinear_arith)
        requires
            ww == w * w,
    ;
    assert((b2 * w) * (b2 * w) == (b2 * b2) * ww) by (nonlinear_arith)
        requires
            ww == w * w,
    ;
    let p0 = b0 * b0;
    let p1 = b1 * b1;
    let p2 = b2 * b2;
    assert((p0 + p1 + p2) * ww == p0 * ww + p1 * ww + p2 * ww) by (nonlinear_arith);
}

/// The squared length of a projected position lies within a few units of
/// that of the unit sphere: between `(ONE - 4)^2` and `(ONE + 1)^2 - 1`.
pub proof fn lemma_unit_vector_length(x: int, y: int, z: int)
    requires
        (x, y, z) != (0int, 0int, 0int),
    ensures
        ({
            let len = scaled_length(x, y, z) as int;
            let n = norm_sq(
                unit_component(x, len),
                unit_component(y, len),
                unit_component(z, len),
            );
            (ONE - 4) * (ONE - 4) <= n <= ONE * ONE + 2 * ONE
        }),
{
    let len = scaled_length(x, y, z) as int;
    let m = norm_sq(x, y, z) * ONE * ONE;
    lemma_unit_component_bounds(x, y, z);
    lemma_isqrt_exists(m as nat);
    assert(m >= 0) by (nonlinear_arith)
        requires
            m == (x * x + y * y + z * z) * 16777216 * 16777216,
    ;
    assert(len * len <= m < (len + 1) * (len + 1));
    let s: int = 16777216;
    let s2: int = 0x1_0000_0000_0000;
    let a0 = magnitude(x);
    let a1 = magnitude(y);
    let a2 = magnitude(z);
    let b0 = magnitude(unit_component(x, len));
    let b1 = magnitude(unit_component(y, len));
    let b2 = magnitude(unit_component(z, len));
    lemma_component_floor(x, len);
    lemma_component_floor(y, len);
    lemma_component_floor(z, len);
    let t0 = a0 * s2;
    let t1 = a1 * s2;
    let t2 = a2 * s2;
    // The scaled squares of the components add up to the scaled squared length.
    assert(t0 * t0 + t1 * t1 + t2 * t2 == m * s2) by (nonlinear_arith)
        requires
            m == (x * x + y * y + z * z) * 16777216 * 16777216,
            s2 == 0x1_0000_0000_0000,
            t0 == a0 * s2,
            t1 == a1 * s2,
            t2 == a2 * s2,
            a0 == x || a0 == -x,
            a1 == y || a1 == -y,
            a2 == z || a2 == -z,
    ;
    let n = b0 * b0 + b1 * b1 + b2 * b2;
    assert(n == norm_sq(unit_component(x, len), unit_component(y, len), unit_component(z, len)))
        by (nonlinear_arith)
        requires
            n == b0 * b0 + b1 * b1 + b2 * b2,
            b0 == unit_component(x, len) || b0 == -unit_component(x, len),
            b1 == unit_component(y, len) || b1 == -unit_component(y, len),
            b2 == unit_component(z, len) || b2 == -unit_component(z, len),
            norm_sq(unit_component(x, len), unit_component(y, len), unit_component(z, len))
                == unit_component(x, len) * unit_component(x, len) + unit_component(y, len)
                * unit_component(y, len) + unit_component(z, len) * unit_component(z, len),
    ;
    // Upper bound.
    let l0 = b0 * len;
    let l1 = b1 * len;
    let l2 = b2 * len;
    assert(0 <= l0 && 0 <= l1 && 0 <= l2) by (nonlinear_arith)
        requires
            l0 == b0 * len,
            l1 == b1 * len,
            l2 == b2 * len,
            len >= 1,
            b0 >= 0,
            b1 >= 0,
            b2 >= 0,
    ;
    lemma_square_order(l0, t0);
    lemma_square_order(l1, t1);
    lemma_square_order(l2, t2);
    lemma_sum_of_scaled_squares(b0, b1, b2, len);
    assert(l0 * l0 + l1 * l1 + l2 * l2 == n * (len * len));
    assert(n * (len * len) <= m * s2);
    assert(n <= s * s + 2 * s) by (nonlinear_arith)
        requires
            n * (len * len) <= m * s2,
            m < (len + 1) * (len + 1),
            s2 == s * s,
            s == 16777216,
            len >= s,
            n >= 0,
    {
        if n >= (s + 1) * (s + 1) {
            assert(n * (len * len) >= (s + 1) * (s + 1) * (len * len));
            assert((s + 1) * len >= (len + 1) * s);
            assert(((s + 1) * len) * ((s + 1) * len) >= ((len + 1) * s) * ((len + 1) * s));
            assert(m * s2 < (len + 1) * (len + 1) * (s * s));
            assert(false);
        }
    }
    // Lower bound.
    let h0 = (b0 + 1) * len;
    let h1 = (b1 + 1) * len;
    let h2 = (b2 + 1) * len;
    assert(0 <= t0 && 0 <= t1 && 0 <= t2);
    lemma_square_order(t0, h0);
    lemma_square_order(t1, h1);
    lemma_square_order(t2, h2);
    let k = (b0 + 1) * (b0 + 1) + (b1 + 1) * (b1 + 1) + (b2 + 1) * (b2 + 1);
    lemma_sum_of_scaled_squares(b0 + 1, b1 + 1, b2 + 1, len);
    assert(h0 * h0 + h1 * h1 + h2 * h2 == k * (len * len));
    assert(m * s2 < k * (len * len));
    assert(k > s2) by (nonlinear_arith)
        requires
            m * s2 < k * (len * len),
            len * len <= m,
            len >= 1,
            s2 > 0,
    {
        assert(len * len * s2 <= m * s2);
        assert(len * len > 0);
    }
    assert(k == n + 2 * (b0 + b1 + b2) + 3) by (nonlinear_arith)
        requires
            k == (b0 + 1) * (b0 + 1) + (b1 + 1) * (b1 + 1) + (b2 + 1) * (b2 + 1),
            n == b0 * b0 + b1 * b1 + b2 * b2,
    ;
    assert(b0 <= s && b1 <= s && b2 <= s);
    assert((ONE - 4) * (ONE - 4) <= n);
}

/// Projection is accurate: the projection of a non-zero position points
/// along the position, each coordinate within two units of the exact
/// quotient, and lies within four units of the unit sphere. Both bounds are
/// well within a millionth.
pub proof fn lemma_unit_vector_accurate(p: (i32, i32, i32))
    requires
        p != (0i32, 0i32, 0i32),
    ensures
        along(unit_vector(p), p),
        near_unit(unit_vector(p)),
{
    let x = p.0 as int;
    let y = p.1 as int;
    let z = p.2 as int;
    let n = norm_sq(x, y, z);
    let len = scaled_length(x, y, z) as int;
    lemma_unit_component_bounds(x, y, z);
    lemma_unit_vector_length(x, y, z);
    assert(n >= 1 && n >= x * x && n >= y * y && n >= z * z) by (nonlinear_arith)
        requires
            n == x * x + y * y + z * z,
            x != 0 || y != 0 || z != 0,
    ;
    assert(n * ONE * ONE >= 0) by (nonlinear_arith)
        requires
            n >= 1,
    ;
    lemma_isqrt_exists((n * ONE * ONE) as nat);
    lemma_unit_component_accurate(x, len, n);
    lemma_unit_component_accurate(y, len, n);
    lemma_unit_component_accurate(z, len, n);
}

/// Two positions that differ by at most `SETTLE_TOLERANCE` units in each
/// coordinate are less than seven units apart.
pub proof fn lemma_settled_distance(p: (i32, i32, i32), q: (i32, i32, i32))
    requires
        settled(p, q),
    ensures
        dist_sq(p, q) < 7 * 7,
{
    let dx = p.0 - q.0;
    let dy = p.1 - q.1;
    let dz = p.2 - q.2;
    assert(dx * dx + dy * dy + dz * dz <= 48) by (nonlinear_arith)
        requires
            -4 <= dx <= 4,
            -4 <= dy <= 4,
            -4 <= dz <= 4,
    ;
}

/// Projecting a coordinate of a position that already lies within a few
/// units of the unit sphere changes it by at most `SETTLE_TOLERANCE` units.
proof fn lemma_component_settles(c: int, n: int, len: int)
    requires
        -ONE <= c <= ONE,
        (ONE - 4) * (ONE - 4) <= n <= ONE * ONE + 2 * ONE,
        len >= 0,
        len * len <= n * ONE * ONE < (len + 1) * (len + 1),
    ensures
        len >= 1,
        magnitude(unit_component(c, len) - c) <= SETTLE_TOLERANCE,
{
    let s: int = 16777216;
    let s2: int = 0x1_0000_0000_0000;
    let m = n * ONE * ONE;
    assert(m == n * s2) by (nonlinear_arith)
        requires
            m == n * 16777216 * 16777216,
            s2 == 0x1_0000_0000_0000,
    ;
    // The length is within a few units of ONE, carried to 48 fractional bits.
    let lo: int = (s - 4) * s;
    let hi: int = s * s + s - 1;
    assert(lo <= len <= hi) by (nonlinear_arith)
        requires
            len >= 0,
            len * len <= m < (len + 1) * (len + 1),
            m == n * s2,
            (s - 4) * (s - 4) <= n <= s * s + 2 * s,
            s == 16777216,
            s2 == 0x1_0000_0000_0000,
            lo == (s - 4) * s,
            hi == s * s + s - 1,
    {
        assert(lo * lo <= m);
        assert(m < (hi + 1) * (hi + 1));
        if len < lo {
            assert((len + 1) * (len + 1) <= lo * lo);
        }
        if len > hi {
            assert(len * len >= (hi + 1) * (hi + 1));
        }
    }
    lemma_component_floor(c, len);
    let a = magnitude(c);
    let b = magnitude(unit_component(c, len));
    assert(a - 1 <= b <= a + 4) by (nonlinear_arith)
        requires
            0 <= a <= 16777216,
            0 <= b,
            b * len <= a * 0x1_0000_0000_0000,
            a * 0x1_0000_0000_0000 < (b + 1) * len,
            281474909601792 <= len <= 281474993487871,
    {
        if b >= a + 5 {
            assert(b * len >= (a + 5) * len);
            assert((a + 5) * len >= (a + 5) * 281474909601792);
        }
        if b + 1 <= a - 1 {
            assert((b + 1) * len <= (a - 1) * len);
            assert(a >= 1);
            assert((a - 1) * len <= (a - 1) * 281474993487871);
        }
    }
    if a == 0 {
        assert(b == 0) by (nonlinear_arith)
            requires
                0 <= b,
                b * len <= 0,
                len >= 1,
        ;
    }
}

/// Projection onto the sphere settles. The projection of a non-zero position
/// is itself non-zero, so it can be projected again, and the second
/// projection moves each coordinate by at most `SETTLE_TOLERANCE` units: the
/// position moves by less than seven units, less than half a millionth.
pub proof fn lemma_projection_settles(p: (i32, i32, i32))
    requires
        p != (0i32, 0i32, 0i32),
    ensures
        unit_vector(p) != (0i32, 0i32, 0i32),
        settled(unit_vector(unit_vector(p)), unit_vector(p)),
        dist_sq(unit_vector(unit_vector(p)), unit_vector(p)) < 7 * 7,
{
    let x = p.0 as int;
    let y = p.1 as int;
    let z = p.2 as int;
    let len = scaled_length(x, y, z) as int;
    lemma_unit_component_bounds(x, y, z);
    lemma_unit_vector_length(x, y, z);
    let u = unit_vector(p);
    let ux = unit_component(x, len);
    let uy = unit_component(y, len);
    let uz = unit_component(z, len);
    assert(u.0 == ux && u.1 == uy && u.2 == uz);
    let n = norm_sq(ux, uy, uz);
    assert(n > 0);
    assert(u != (0i32, 0i32, 0i32)) by {
        if u == (0i32, 0i32, 0i32) {
            assert(norm_sq(0, 0, 0) == 0) by (nonlinear_arith)
                requires
                    norm_sq(0, 0, 0) == 0 * 0 + 0 * 0 + 0 * 0,
            ;
        }
    }
    let second = scaled_length(ux, uy, uz) as int;
    lemma_isqrt_exists((n * ONE * ONE) as nat);
    assert(n * ONE * ONE >= 0) by (nonlinear_arith)
        requires
            n > 0,
    ;
    lemma_component_settles(ux, n, second);
    lemma_component_settles(uy, n, second);
    lemma_component_settles(uz, n, second);
    lemma_unit_component_bounds(ux, uy, uz);
    lemma_settled_distance(unit_vector(u), u);
}

/// Projecting a mesh puts every vertex within four units of the unit sphere,
/// along the direction it had, each coordinate within two units of the
/// exact quotient.
pub proof fn lemma_to_sphere_accurate(m: QuadMeshView)
    requires
        !m.has_origin_vertex(),
    ensures
        forall|j: int|
            0 <= j < m.vertices.len() ==> {
                let v: Vertex = #[trigger] m.projected().vertices[j];
                &&& near_unit(v.pos)
                &&& along(v.pos, m.vertices[j].pos)
            },
{
    assert forall|j: int| 0 <= j < m.vertices.len() implies near_unit(
        (#[trigger] m.projected().vertices[j]).pos,
    ) && along(m.projected().vertices[j].pos, m.vertices[j].pos) by {
        assert(m.vertices[j].pos != (0i32, 0i32, 0i32));
        lemma_unit_vector_accurate(m.vertices[j].pos);
    }
}

/// Projecting a mesh onto the sphere twice yields the positions of
/// projecting it once, up to `SETTLE_TOLERANCE` units in each coordinate.
/// The first projection leaves no vertex at the origin, so the second is
/// defined; neither changes the quads, nor a vertex's colour, texture
/// position or layer.
pub proof fn lemma_to_sphere_settles(m: QuadMeshView)
    requires
        !m.has_origin_vertex(),
    ensures
        !m.projected().has_origin_vertex(),
        m.projected().projected().quads == m.quads,
        m.projected().projected().vertices.len() == m.vertices.len(),
        forall|j: int|
            0 <= j < m.vertices.len() ==> {
                let once: Vertex = m.projected().vertices[j];
                let twice: Vertex = #[trigger] m.projected().projected().vertices[j];
                &&& settled(twice.pos, once.pos)
                &&& dist_sq(twice.pos, once.pos) < 7 * 7
                &&& twice.color == m.vertices[j].color
                &&& twice.tex_pos == m.vertices[j].tex_pos
                &&& twice.tex_layer == m.vertices[j].tex_layer
            },
{
    let once = m.projected();
    let twice = once.projected();
    assert forall|j: int| 0 <= j < m.vertices.len() implies (#[trigger] once.vertices[j]).pos != (
        0i32,
        0i32,
        0i32,
    ) && settled(twice.vertices[j].pos, once.vertices[j].pos) && dist_sq(
        twice.vertices[j].pos,
        once.vertices[j].pos,
    ) < 7 * 7 by {
        assert(m.vertices[j].pos != (0i32, 0i32, 0i32));
        lemma_projection_settles(m.vertices[j].pos);
    }
}

} // verus!
