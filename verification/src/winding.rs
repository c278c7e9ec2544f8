//! The orientation of faces: in what order a triangle runs through the
//! corners of the quad it was cut from, and how the normals of the triangles
//! relate to the normal of the quad.

use crate::quad_mesh::{quad_in_bounds, QuadMeshView};
use vstd::prelude::*;

verus! {

/// The triangle `t` runs through three corners of the quad `q` in the quad's
/// own cyclic order: it is a cyclic rotation of the quad's boundary with one
/// corner left out, and so faces the way the quad does.
pub open spec fn winds_with(t: (int, int, int), q: (int, int, int, int)) -> bool {
    ||| t == (q.0, q.1, q.2) || t == (q.1, q.2, q.0) || t == (q.2, q.0, q.1)
    ||| t == (q.0, q.1, q.3) || t == (q.1, q.3, q.0) || t == (q.3, q.0, q.1)
    ||| t == (q.0, q.2, q.3) || t == (q.2, q.3, q.0) || t == (q.3, q.0, q.2)
    ||| t == (q.1, q.2, q.3) || t == (q.2, q.3, q.1) || t == (q.3, q.1, q.2)
}

/// The two triangles of quad `i` are triangles `2 * i` and `2 * i + 1` of the
/// triangulated mesh. Each runs through three corners of the quad in the
/// quad's own cyclic order, so it is wound as the quad is. Together they use
/// the ends of the cut twice and the two other corners once.
pub proof fn lemma_triangles_keep_winding(m: QuadMeshView, i: int)
    requires
        0 <= i < m.quads.len(),
    ensures
        winds_with(m.triangulated().triangle(2 * i), m.quads[i]),
        winds_with(m.triangulated().triangle(2 * i + 1), m.quads[i]),
        m.first_diagonal_longer(m.quads[i]) ==> {
            &&& m.triangulated().triangle(2 * i) == (m.quads[i].0, m.quads[i].1, m.quads[i].3)
            &&& m.triangulated().triangle(2 * i + 1) == (m.quads[i].3, m.quads[i].1, m.quads[i].2)
        },
        !m.first_diagonal_longer(m.quads[i]) ==> {
            &&& m.triangulated().triangle(2 * i) == (m.quads[i].0, m.quads[i].1, m.quads[i].2)
            &&& m.triangulated().triangle(2 * i + 1) == (m.quads[i].2, m.quads[i].3, m.quads[i].0)
        },
{
    let t = m.triangulated();
    assert forall|slot: int| 0 <= slot < 6 implies #[trigger] t.indices[6 * i + slot]
        == m.triangle_corner(i, slot) by {
        assert((6 * i + slot) / 6 == i);
        assert((6 * i + slot) % 6 == slot);
    }
    assert(t.indices[3 * (2 * i)] == t.indices[6 * i + 0]);
    assert(t.indices[3 * (2 * i) + 1] == t.indices[6 * i + 1]);
    assert(t.indices[3 * (2 * i) + 2] == t.indices[6 * i + 2]);
    assert(t.indices[3 * (2 * i + 1)] == t.indices[6 * i + 3]);
    assert(t.indices[3 * (2 * i + 1) + 1] == t.indices[6 * i + 4]);
    assert(t.indices[3 * (2 * i + 1) + 2] == t.indices[6 * i + 5]);
}

/// The vector from `q` to `p`.
pub open spec fn offset(p: (i32, i32, i32), q: (i32, i32, i32)) -> (int, int, int) {
    (p.0 - q.0, p.1 - q.1, p.2 - q.2)
}

/// The cross product of `u` and `v`.
pub open spec fn cross(u: (int, int, int), v: (int, int, int)) -> (int, int, int) {
    (u.1 * v.2 - u.2 * v.1, u.2 * v.0 - u.0 * v.2, u.0 * v.1 - u.1 * v.0)
}

/// The sum of `u` and `v`.
pub open spec fn sum(u: (int, int, int), v: (int, int, int)) -> (int, int, int) {
    (u.0 + v.0, u.1 + v.1, u.2 + v.2)
}

/// The normal of the triangle `(a, b, c)`, twice its area long, on the side
/// from which the triangle is seen to wind counter-clockwise.
pub open spec fn triangle_normal(
    a: (i32, i32, i32),
    b: (i32, i32, i32),
    c: (i32, i32, i32),
) -> (int, int, int) {
    cross(offset(b, a), offset(c, a))
}

/// The normal of the quad `(a, b, c, d)`: the cross product of its
/// diagonals, on the side from which the quad is seen to wind
/// counter-clockwise.
pub open spec fn quad_normal(
    a: (i32, i32, i32),
    b: (i32, i32, i32),
    c: (i32, i32, i32),
    d: (i32, i32, i32),
) -> (int, int, int) {
    cross(offset(c, a), offset(d, b))
}

/// Whichever diagonal a quad is cut along, the normals of the two triangles
/// add up to the normal of the quad: the cut keeps the quad's orientation and
/// its area vector, also where the quad is not planar.
pub proof fn lemma_cut_keeps_normal(
    a: (i32, i32, i32),
    b: (i32, i32, i32),
    c: (i32, i32, i32),
    d: (i32, i32, i32),
)
    ensures
        sum(triangle_normal(a, b, c), triangle_normal(c, d, a)) == quad_normal(a, b, c, d),
        sum(triangle_normal(a, b, d), triangle_normal(d, b, c)) == quad_normal(a, b, c, d),
{
    lemma_cut_component(
        (a.1 as int, a.2 as int),
        (b.1 as int, b.2 as int),
        (c.1 as int, c.2 as int),
        (d.1 as int, d.2 as int),
    );
    lemma_cut_component(
        (a.2 as int, a.0 as int),
        (b.2 as int, b.0 as int),
        (c.2 as int, c.0 as int),
        (d.2 as int, d.0 as int),
    );
    lemma_cut_component(
        (a.0 as int, a.1 as int),
        (b.0 as int, b.1 as int),
        (c.0 as int, c.1 as int),
        (d.0 as int, d.1 as int),
    );
}

/// One component of `lemma_cut_keeps_normal`, over the two coordinates of
/// each corner that the component is computed from.
proof fn lemma_cut_component(a: (int, int), b: (int, int), c: (int, int), d: (int, int))
    ensures
        ((b.0 - a.0) * (c.1 - a.1) - (b.1 - a.1) * (c.0 - a.0)) + ((d.0 - c.0) * (a.1 - c.1) - (d.1
            - c.1) * (a.0 - c.0)) == (c.0 - a.0) * (d.1 - b.1) - (c.1 - a.1) * (d.0 - b.0),
        ((b.0 - a.0) * (d.1 - a.1) - (b.1 - a.1) * (d.0 - a.0)) + ((b.0 - d.0) * (c.1 - d.1) - (b.1
            - d.1) * (c.0 - d.0)) == (c.0 - a.0) * (d.1 - b.1) - (c.1 - a.1) * (d.0 - b.0),
{
    let (au, av) = a;
    let (bu, bv) = b;
    let (cu, cv) = c;
    let (du, dv) = d;
    lemma_expand(bu, au, cv, av);
    lemma_expand(bv, av, cu, au);
    lemma_expand(du, cu, av, cv);
    lemma_expand(dv, cv, au, cu);
    lemma_expand(bu, au, dv, av);
    lemma_expand(bv, av, du, au);
    lemma_expand(bu, du, cv, dv);
    lemma_expand(bv, dv, cu, du);
    lemma_expand(cu, au, dv, bv);
    lemma_expand(cv, av, du, bu);
    assert(du * bv == bv * du && dv * bu == bu * dv && du * cv == cv * du && dv * cu == cu * dv
        && du * dv == dv * du && au * av == av * au && au * dv == dv * au && au * bv == bv * au
        && av * du == du * av && av * bu == bu * av && au * cv == cv * au && av * cu == cu * av
        && cu * cv == cv * cu) by (nonlinear_arith);
}

/// The product of two differences, multiplied out.
proof fn lemma_expand(p: int, q: int, r: int, s: int)
    ensures
        (p - q) * (r - s) == p * r - p * s - q * r + q * s,
{
    assert((p - q) * (r - s) == p * r - p * s - q * r + q * s) by (nonlinear_arith);
}

/// The two triangles that triangulating emits for quad `i` have normals that
/// add up to the normal of the quad.
pub proof fn lemma_triangles_keep_normal(m: QuadMeshView, i: int)
    requires
        m.wf(),
        0 <= i < m.quads.len(),
    ensures
        ({
            let q = m.quads[i];
            let first = m.triangulated().triangle(2 * i);
            let second = m.triangulated().triangle(2 * i + 1);
            sum(
                triangle_normal(
                    m.vertices[first.0].pos,
                    m.vertices[first.1].pos,
                    m.vertices[first.2].pos,
                ),
                triangle_normal(
                    m.vertices[second.0].pos,
                    m.vertices[second.1].pos,
                    m.vertices[second.2].pos,
                ),
            ) == quad_normal(
                m.vertices[q.0].pos,
                m.vertices[q.1].pos,
                m.vertices[q.2].pos,
                m.vertices[q.3].pos,
            )
        }),
{
    let q = m.quads[i];
    assert(quad_in_bounds(q, m.vertices.len() as int));
    lemma_triangles_keep_winding(m, i);
    lemma_cut_keeps_normal(
        m.vertices[q.0].pos,
        m.vertices[q.1].pos,
        m.vertices[q.2].pos,
        m.vertices[q.3].pos,
    );
}

} // verus!
