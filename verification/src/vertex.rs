//! Mesh vertices: a position, a colour, a texture position and a texture
//! layer, with interpolation and projection onto the unit sphere.

use crate::fixed::{
    blend, fits_i32, isqrt_u128, lemma_blend_accurate, lemma_blend_between, lemma_blend_half,
    lemma_blend_same, lemma_unit_component_bounds, lerp_scalar, norm_sq, scaled_length,
    unit_component, unit_component_of, within_a_unit, HALF, ONE,
};
use crate::sphere::{along, lemma_unit_vector_accurate, near_unit};
use vstd::prelude::*;

verus! {

/// A point sample of a mesh surface. All scalar fields are 8.24 fixed-point
/// values; `tex_layer` names the face whose texture the vertex addresses.
#[derive(Clone, Copy, Debug, PartialEq, Eq)]
pub struct Vertex {
    pub pos: (i32, i32, i32),
    pub color: (i32, i32, i32),
    pub tex_pos: (i32, i32),
    pub tex_layer: u16,
}

/// The squared Euclidean distance between two positions.
pub open spec fn dist_sq(p: (i32, i32, i32), q: (i32, i32, i32)) -> int {
    norm_sq(p.0 - q.0, p.1 - q.1, p.2 - q.2)
}

/// The position `p` scaled to unit length, each component rounded toward
/// zero.
pub open spec fn unit_vector(p: (i32, i32, i32)) -> (i32, i32, i32) {
    let len = scaled_length(p.0 as int, p.1 as int, p.2 as int) as int;
    (
        unit_component(p.0 as int, len) as i32,
        unit_component(p.1 as int, len) as i32,
        unit_component(p.2 as int, len) as i32,
    )
}

/// Computes the squared Euclidean distance between two positions.
pub fn distance_squared(p: (i32, i32, i32), q: (i32, i32, i32)) -> (r: u128)
    ensures
        r == dist_sq(p, q),
{
    let dx: i128 = p.0 as i128 - q.0 as i128;
    let dy: i128 = p.1 as i128 - q.1 as i128;
    let dz: i128 = p.2 as i128 - q.2 as i128;
    assert(0 <= dx * dx <= 0x1_0000_0000 * 0x1_0000_0000 && 0 <= dy * dy <= 0x1_0000_0000
        * 0x1_0000_0000 && 0 <= dz * dz <= 0x1_0000_0000 * 0x1_0000_0000) by (nonlinear_arith)
        requires
            -0x1_0000_0000 <= dx <= 0x1_0000_0000,
            -0x1_0000_0000 <= dy <= 0x1_0000_0000,
            -0x1_0000_0000 <= dz <= 0x1_0000_0000,
    ;
    let sum: i128 = dx * dx + dy * dy + dz * dz;
    sum as u128
}

/// Scales a non-zero position to unit length. The result points along `p`,
/// each coordinate within two units of the exact quotient, and lies within
/// four units of the unit sphere.
pub fn normalize(p: (i32, i32, i32)) -> (r: (i32, i32, i32))
    requires
        p != (0i32, 0i32, 0i32),
    ensures
        r == unit_vector(p),
        along(r, p),
        near_unit(r),
{
    let x: i128 = p.0 as i128;
    let y: i128 = p.1 as i128;
    let z: i128 = p.2 as i128;
    assert(0 <= x * x <= 0x8000_0000 * 0x8000_0000 && 0 <= y * y <= 0x8000_0000 * 0x8000_0000 && 0
        <= z * z <= 0x8000_0000 * 0x8000_0000) by (nonlinear_arith)
        requires
            -0x8000_0000 <= x <= 0x8000_0000,
            -0x8000_0000 <= y <= 0x8000_0000,
            -0x8000_0000 <= z <= 0x8000_0000,
    ;
    let sq: i128 = x * x + y * y + z * z;
    let scaled: i128 = sq * 0x1_0000_0000_0000;
    assert(scaled == norm_sq(p.0 as int, p.1 as int, p.2 as int) * ONE * ONE) by (nonlinear_arith)
        requires
            scaled == sq * 0x1_0000_0000_0000,
            sq == norm_sq(p.0 as int, p.1 as int, p.2 as int),
    ;
    let len: u64 = isqrt_u128(scaled as u128);
    proof {
        lemma_unit_component_bounds(p.0 as int, p.1 as int, p.2 as int);
        lemma_unit_vector_accurate(p);
    }
    (unit_component_of(p.0, len), unit_component_of(p.1, len), unit_component_of(p.2, len))
}

impl Vertex {
    /// `true` when every blended field of `blended(a, b, amount)` can be
    /// stored: always so for a weight between 0 and `ONE`.
    pub open spec fn lerp_fits(a: Vertex, b: Vertex, amount: int) -> bool {
        &&& fits_i32(blend(a.pos.0 as int, b.pos.0 as int, amount))
        &&& fits_i32(blend(a.pos.1 as int, b.pos.1 as int, amount))
        &&& fits_i32(blend(a.pos.2 as int, b.pos.2 as int, amount))
        &&& fits_i32(blend(a.color.0 as int, b.color.0 as int, amount))
        &&& fits_i32(blend(a.color.1 as int, b.color.1 as int, amount))
        &&& fits_i32(blend(a.color.2 as int, b.color.2 as int, amount))
        &&& fits_i32(blend(a.tex_pos.0 as int, b.tex_pos.0 as int, amount))
        &&& fits_i32(blend(a.tex_pos.1 as int, b.tex_pos.1 as int, amount))
    }

    /// The vertex whose position, colour and texture position are the
    /// componentwise blend `amount * a + (1 - amount) * b`, on the layer of
    /// `a`.
    pub open spec fn blended(a: Vertex, b: Vertex, amount: int) -> Vertex {
        Vertex {
            pos: (
                blend(a.pos.0 as int, b.pos.0 as int, amount) as i32,
                blend(a.pos.1 as int, b.pos.1 as int, amount) as i32,
                blend(a.pos.2 as int, b.pos.2 as int, amount) as i32,
            ),
            color: (
                blend(a.color.0 as int, b.color.0 as int, amount) as i32,
                blend(a.color.1 as int, b.color.1 as int, amount) as i32,
                blend(a.color.2 as int, b.color.2 as int, amount) as i32,
            ),
            tex_pos: (
                blend(a.tex_pos.0 as int, b.tex_pos.0 as int, amount) as i32,
                blend(a.tex_pos.1 as int, b.tex_pos.1 as int, amount) as i32,
            ),
            tex_layer: a.tex_layer,
        }
    }

    /// Every blended field of `r` lies below the exact blend
    /// `amount * a + (1 - amount) * b` by less than one unit.
    pub open spec fn blend_accurate(r: Vertex, a: Vertex, b: Vertex, amount: int) -> bool {
        &&& within_a_unit(r.pos.0 as int, a.pos.0 as int, b.pos.0 as int, amount)
        &&& within_a_unit(r.pos.1 as int, a.pos.1 as int, b.pos.1 as int, amount)
        &&& within_a_unit(r.pos.2 as int, a.pos.2 as int, b.pos.2 as int, amount)
        &&& within_a_unit(r.color.0 as int, a.color.0 as int, b.color.0 as int, amount)
        &&& within_a_unit(r.color.1 as int, a.color.1 as int, b.color.1 as int, amount)
        &&& within_a_unit(r.color.2 as int, a.color.2 as int, b.color.2 as int, amount)
        &&& within_a_unit(r.tex_pos.0 as int, a.tex_pos.0 as int, b.tex_pos.0 as int, amount)
        &&& within_a_unit(r.tex_pos.1 as int, a.tex_pos.1 as int, b.tex_pos.1 as int, amount)
    }

    /// The vertex halfway between `a` and `b`.
    pub open spec fn midpoint(a: Vertex, b: Vertex) -> Vertex {
        Vertex::blended(a, b, HALF as int)
    }

    /// This vertex with its position scaled to unit length.
    pub open spec fn projected(self) -> Vertex {
        Vertex { pos: unit_vector(self.pos), ..self }
    }

    /// Interpolates linearly between two vertices of one texture layer:
    /// `amount` of `a` and the rest of `b`. Every blended field is the exact
    /// blend rounded down, less than one unit below it.
    pub fn lerp(a: Self, b: Self, amount: i32) -> (r: Self)
        requires
            a.tex_layer == b.tex_layer,
            Vertex::lerp_fits(a, b, amount as int),
        ensures
            r == Vertex::blended(a, b, amount as int),
            Vertex::blend_accurate(r, a, b, amount as int),
    {
        proof {
            Vertex::lemma_lerp_accurate(a, b, amount as int);
        }
        Vertex {
            pos: (
                lerp_scalar(a.pos.0, b.pos.0, amount),
                lerp_scalar(a.pos.1, b.pos.1, amount),
                lerp_scalar(a.pos.2, b.pos.2, amount),
            ),
            color: (
                lerp_scalar(a.color.0, b.color.0, amount),
                lerp_scalar(a.color.1, b.color.1, amount),
                lerp_scalar(a.color.2, b.color.2, amount),
            ),
            tex_pos: (
                lerp_scalar(a.tex_pos.0, b.tex_pos.0, amount),
                lerp_scalar(a.tex_pos.1, b.tex_pos.1, amount),
            ),
            tex_layer: a.tex_layer,
        }
    }

    /// A weight between 0 and `ONE` interpolates: every blended field lies
    /// between the two fields it is blended from, and so can be stored.
    pub proof fn lemma_interpolation_fits(a: Vertex, b: Vertex, amount: int)
        requires
            0 <= amount <= ONE,
        ensures
            Vertex::lerp_fits(a, b, amount),
    {
        lemma_blend_between(a.pos.0 as int, b.pos.0 as int, amount);
        lemma_blend_between(a.pos.1 as int, b.pos.1 as int, amount);
        lemma_blend_between(a.pos.2 as int, b.pos.2 as int, amount);
        lemma_blend_between(a.color.0 as int, b.color.0 as int, amount);
        lemma_blend_between(a.color.1 as int, b.color.1 as int, amount);
        lemma_blend_between(a.color.2 as int, b.color.2 as int, amount);
        lemma_blend_between(a.tex_pos.0 as int, b.tex_pos.0 as int, amount);
        lemma_blend_between(a.tex_pos.1 as int, b.tex_pos.1 as int, amount);
    }

    /// Interpolation is accurate to a unit: where the result can be stored,
    /// every field of it lies below the exact blend
    /// `amount * a + (1 - amount) * b` by less than one unit, and so by less
    /// than a millionth.
    pub proof fn lemma_lerp_accurate(a: Vertex, b: Vertex, amount: int)
        requires
            Vertex::lerp_fits(a, b, amount),
        ensures
            Vertex::blend_accurate(Vertex::blended(a, b, amount), a, b, amount),
    {
        lemma_blend_accurate(a.pos.0 as int, b.pos.0 as int, amount);
        lemma_blend_accurate(a.pos.1 as int, b.pos.1 as int, amount);
        lemma_blend_accurate(a.pos.2 as int, b.pos.2 as int, amount);
        lemma_blend_accurate(a.color.0 as int, b.color.0 as int, amount);
        lemma_blend_accurate(a.color.1 as int, b.color.1 as int, amount);
        lemma_blend_accurate(a.color.2 as int, b.color.2 as int, amount);
        lemma_blend_accurate(a.tex_pos.0 as int, b.tex_pos.0 as int, amount);
        lemma_blend_accurate(a.tex_pos.1 as int, b.tex_pos.1 as int, amount);
    }

    /// The position of the vertex halfway between `a` and `b` is the
    /// arithmetic mean of their positions, component by component, rounded
    /// down to the next representable value.
    pub proof fn lemma_midpoint_is_mean(a: Vertex, b: Vertex)
        ensures
            Vertex::lerp_fits(a, b, HALF as int),
            Vertex::midpoint(a, b).pos.0 == (a.pos.0 + b.pos.0) / 2,
            Vertex::midpoint(a, b).pos.1 == (a.pos.1 + b.pos.1) / 2,
            Vertex::midpoint(a, b).pos.2 == (a.pos.2 + b.pos.2) / 2,
            0 <= a.pos.0 + b.pos.0 - 2 * Vertex::midpoint(a, b).pos.0 <= 1,
            0 <= a.pos.1 + b.pos.1 - 2 * Vertex::midpoint(a, b).pos.1 <= 1,
            0 <= a.pos.2 + b.pos.2 - 2 * Vertex::midpoint(a, b).pos.2 <= 1,
    {
        Vertex::lemma_interpolation_fits(a, b, HALF as int);
        lemma_blend_half(a.pos.0 as int, b.pos.0 as int);
        lemma_blend_half(a.pos.1 as int, b.pos.1 as int);
        lemma_blend_half(a.pos.2 as int, b.pos.2 as int);
    }

    /// Interpolating a vertex with itself gives the vertex back.
    pub proof fn lemma_lerp_same(a: Vertex, amount: int)
        ensures
            Vertex::lerp_fits(a, a, amount),
            Vertex::blended(a, a, amount) == a,
    {
        lemma_blend_same(a.pos.0 as int, amount);
        lemma_blend_same(a.pos.1 as int, amount);
        lemma_blend_same(a.pos.2 as int, amount);
        lemma_blend_same(a.color.0 as int, amount);
        lemma_blend_same(a.color.1 as int, amount);
        lemma_blend_same(a.color.2 as int, amount);
        lemma_blend_same(a.tex_pos.0 as int, amount);
        lemma_blend_same(a.tex_pos.1 as int, amount);
    }
}

} // verus!
