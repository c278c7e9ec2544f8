//! The cube that a cube sphere starts from, and why it survives the whole
//! pipeline: every vertex that subdivision derives from the cube stays on the
//! plane of its face, so none can reach the origin and the projection onto
//! the sphere is defined for all of them.

use crate::fixed::{lemma_blend_same, HALF, ONE};
use crate::quad_mesh::{quad_in_bounds, quad_view, Quad, QuadMesh, QuadMeshView};
use crate::topology::{
    lemma_subdivided_layered, lemma_subdivided_quad_layer, lemma_subdivided_shape,
    lemma_subdivided_times_keeps_vertices, lemma_subdivided_times_shape,
};
use crate::vertex::Vertex;
use crate::winding::{offset, quad_normal};
use vstd::arithmetic::div_mod::lemma_div_denominator;
use vstd::arithmetic::power::{lemma_pow_positive, pow};
use vstd::prelude::*;

verus! {

/// The weaker of the two intensities that the colours of the cube's faces are
/// mixed from: 0.3, rounded to the nearest representable value.
pub const DIM: i32 = 5033165;

/// The position `p` turned a quarter of a turn about the y axis; the z axis
/// goes to where the x axis was.
pub open spec fn quarter_turn_y(p: (i32, i32, i32)) -> (i32, i32, i32) {
    (p.2, p.1, (-p.0) as i32)
}

/// The position `p` turned a quarter of a turn about the x axis; the y axis
/// goes to where the z axis was.
pub open spec fn quarter_turn_x(p: (i32, i32, i32)) -> (i32, i32, i32) {
    (p.0, (-p.2) as i32, p.1)
}

/// The position `p` of the cube's first face, carried to face `face` by that
/// face's rotation: 0, 1, 2 and 3 quarter turns about the y axis for faces 0
/// to 3, then 1 and 3 quarter turns about the x axis for faces 4 and 5.
pub open spec fn face_position(face: int, p: (i32, i32, i32)) -> (i32, i32, i32) {
    if face == 0 {
        p
    } else if face == 1 {
        quarter_turn_y(p)
    } else if face == 2 {
        quarter_turn_y(quarter_turn_y(p))
    } else if face == 3 {
        quarter_turn_y(quarter_turn_y(quarter_turn_y(p)))
    } else if face == 4 {
        quarter_turn_x(p)
    } else {
        quarter_turn_x(quarter_turn_x(quarter_turn_x(p)))
    }
}

/// The flat colour of face `face` of the cube.
pub open spec fn face_color(face: int) -> (i32, i32, i32) {
    if face == 0 {
        (ONE, DIM, DIM)
    } else if face == 1 {
        (DIM, ONE, DIM)
    } else if face == 2 {
        (DIM, DIM, ONE)
    } else if face == 3 {
        (ONE, ONE, DIM)
    } else if face == 4 {
        (ONE, DIM, ONE)
    } else {
        (DIM, ONE, ONE)
    }
}

/// Corner `corner` of the cube's first face, the square at height 1 above
/// the x-y plane, counter-clockwise as seen from above.
pub open spec fn proto_corner(corner: int) -> (i32, i32, i32) {
    if corner == 0 {
        (ONE, ONE, ONE)
    } else if corner == 1 {
        ((-ONE) as i32, ONE, ONE)
    } else if corner == 2 {
        ((-ONE) as i32, (-ONE) as i32, ONE)
    } else {
        (ONE, (-ONE) as i32, ONE)
    }
}

/// The texture position of corner `corner` of a face: the corner's place in
/// the face's own unit square.
pub open spec fn corner_tex_pos(corner: int) -> (i32, i32) {
    if corner == 0 {
        (ONE, ONE)
    } else if corner == 1 {
        (0i32, ONE)
    } else if corner == 2 {
        (0i32, 0i32)
    } else {
        (ONE, 0i32)
    }
}

/// Corner `corner` of face `face` of the cube.
pub open spec fn cube_vertex(face: int, corner: int) -> Vertex {
    Vertex {
        pos: face_position(face, proto_corner(corner)),
        color: face_color(face),
        tex_pos: corner_tex_pos(corner),
        tex_layer: face as u16,
    }
}

impl QuadMeshView {
    /// The cube with corners at (+-1, +-1, +-1), as six quads that share no
    /// vertex: face `i` owns the vertices `4 * i` to `4 * i + 3`, lies on
    /// texture layer `i` and has a colour of its own.
    pub open spec fn cube() -> QuadMeshView {
        QuadMeshView {
            vertices: Seq::new(24, |j: int| cube_vertex(j / 4, j % 4)),
            quads: Seq::new(6, |i: int| (4 * i, 4 * i + 1, 4 * i + 2, 4 * i + 3)),
        }
    }
}

/// Turns a position a quarter of a turn about the y axis.
fn turn_y(p: (i32, i32, i32)) -> (r: (i32, i32, i32))
    requires
        p.0 > i32::MIN,
    ensures
        r == quarter_turn_y(p),
{
    (p.2, p.1, -p.0)
}

/// Turns a position a quarter of a turn about the x axis.
fn turn_x(p: (i32, i32, i32)) -> (r: (i32, i32, i32))
    requires
        p.2 > i32::MIN,
    ensures
        r == quarter_turn_x(p),
{
    (p.0, -p.2, p.1)
}

/// Computes one corner of one face of the cube: the corner of the first
/// face, carried to the face by the face's rotation.
fn make_cube_vertex(face: u16, corner: u16) -> (r: Vertex)
    requires
        face < 6,
        corner < 4,
    ensures
        r == cube_vertex(face as int, corner as int),
{
    let proto: (i32, i32, i32) = if corner == 0 {
        (ONE, ONE, ONE)
    } else if corner == 1 {
        (-ONE, ONE, ONE)
    } else if corner == 2 {
        (-ONE, -ONE, ONE)
    } else {
        (ONE, -ONE, ONE)
    };
    let tex_pos: (i32, i32) = if corner == 0 {
        (ONE, ONE)
    } else if corner == 1 {
        (0, ONE)
    } else if corner == 2 {
        (0, 0)
    } else {
        (ONE, 0)
    };
    let pos: (i32, i32, i32) = if face == 0 {
        proto
    } else if face == 1 {
        turn_y(proto)
    } else if face == 2 {
        turn_y(turn_y(proto))
    } else if face == 3 {
        turn_y(turn_y(turn_y(proto)))
    } else if face == 4 {
        turn_x(proto)
    } else {
        turn_x(turn_x(turn_x(proto)))
    };
    let color: (i32, i32, i32) = if face == 0 {
        (ONE, DIM, DIM)
    } else if face == 1 {
        (DIM, ONE, DIM)
    } else if face == 2 {
        (DIM, DIM, ONE)
    } else if face == 3 {
        (ONE, ONE, DIM)
    } else if face == 4 {
        (ONE, DIM, ONE)
    } else {
        (DIM, ONE, ONE)
    };
    Vertex { pos, color, tex_pos, tex_layer: face }
}

impl QuadMesh {
    /// Builds the cube that every cube sphere starts from.
    pub fn new_cube() -> (r: Self)
        ensures
            r@ == QuadMeshView::cube(),
            r@.vertices.len() == 24,
            r@.quads.len() == 6,
            r@.wf(),
            r@.layered(),
            r@.distinct(),
    {
        let mut vertex_data: Vec<Vertex> = Vec::new();
        let mut index_data: Vec<Quad> = Vec::new();
        let mut face: u16 = 0;
        while face < 6
            invariant
                face <= 6,
                vertex_data@.len() == 4 * face,
                index_data@.len() == face,
                forall|f: int, corner: int|
                    0 <= f < face && 0 <= corner < 4 ==> vertex_data@[4 * f + corner]
                        == #[trigger] cube_vertex(f, corner),
                forall|f: int|
                    0 <= f < face ==> quad_view(#[trigger] index_data@[f]) == (
                        4 * f,
                        4 * f + 1,
                        4 * f + 2,
                        4 * f + 3,
                    ),
            decreases 6 - face,
        {
            let first: usize = vertex_data.len();
            let ghost old_vertices = vertex_data@;
            let v0: Vertex = make_cube_vertex(face, 0);
            let v1: Vertex = make_cube_vertex(face, 1);
            let v2: Vertex = make_cube_vertex(face, 2);
            let v3: Vertex = make_cube_vertex(face, 3);
            vertex_data.push(v0);
            vertex_data.push(v1);
            vertex_data.push(v2);
            vertex_data.push(v3);
            index_data.push((first, first + 1, first + 2, first + 3));
            proof {
                assert forall|f: int, corner: int|
                    0 <= f < face + 1 && 0 <= corner < 4 implies vertex_data@[4 * f + corner]
                    == #[trigger] cube_vertex(f, corner) by {
                    if f < face {
                        assert(vertex_data@[4 * f + corner] == old_vertices[4 * f + corner]);
                    }
                }
            }
            face += 1;
        }
        let r = QuadMesh { vertex_data, index_data };
        proof {
            let target = QuadMeshView::cube();
            assert forall|j: int| 0 <= j < 24 implies r@.vertices[j] == target.vertices[j] by {
                let f = j / 4;
                let corner = j % 4;
                assert(r@.vertices[4 * f + corner] == cube_vertex(f, corner));
            }
            assert(r@.vertices =~= target.vertices);
            assert(r@.quads =~= target.quads);
            lemma_cube_shape();
        }
        r
    }
}

/// The vertex `v` lies on the plane of the cube face that its texture layer
/// names.
pub open spec fn on_layer_plane(v: Vertex) -> bool {
    if v.tex_layer == 0 {
        v.pos.2 == ONE
    } else if v.tex_layer == 1 {
        v.pos.0 == ONE
    } else if v.tex_layer == 2 {
        v.pos.2 == -ONE
    } else if v.tex_layer == 3 {
        v.pos.0 == -ONE
    } else if v.tex_layer == 4 {
        v.pos.1 == -ONE
    } else if v.tex_layer == 5 {
        v.pos.1 == ONE
    } else {
        false
    }
}

/// Every vertex of `m` lies on the plane of its face.
pub open spec fn on_cube_surface(m: QuadMeshView) -> bool {
    forall|j: int| 0 <= j < m.vertices.len() ==> on_layer_plane(#[trigger] m.vertices[j])
}

/// The midpoint of two vertices on the plane of one face lies on that plane.
pub proof fn lemma_midpoint_on_plane(a: Vertex, b: Vertex)
    requires
        a.tex_layer == b.tex_layer,
        on_layer_plane(a),
        on_layer_plane(b),
    ensures
        Vertex::midpoint(a, b).tex_layer == a.tex_layer,
        on_layer_plane(Vertex::midpoint(a, b)),
{
    lemma_blend_same(a.pos.0 as int, HALF as int);
    lemma_blend_same(a.pos.1 as int, HALF as int);
    lemma_blend_same(a.pos.2 as int, HALF as int);
}

/// The cube has 24 vertices and 6 quads. Its indices are within its pool, no
/// quad names a vertex twice, the four corners of quad `i` lie on texture
/// layer `i`, and every vertex lies on the plane of its face.
pub proof fn lemma_cube_shape()
    ensures
        QuadMeshView::cube().vertices.len() == 24,
        QuadMeshView::cube().quads.len() == 6,
        QuadMeshView::cube().wf(),
        QuadMeshView::cube().distinct(),
        QuadMeshView::cube().layered(),
        on_cube_surface(QuadMeshView::cube()),
        forall|i: int, corner: int|
            0 <= i < 6 && 0 <= corner < 4 ==> (#[trigger] QuadMeshView::cube().vertices[4 * i
                + corner]).tex_layer == i,
{
    let m = QuadMeshView::cube();
    assert forall|i: int, corner: int| 0 <= i < 6 && 0 <= corner < 4 implies (
        #[trigger] m.vertices[4 * i + corner]
    ).tex_layer == i by {
        let j = 4 * i + corner;
        assert(m.vertices[j] == cube_vertex(j / 4, j % 4));
    }
    assert forall|i: int| 0 <= i < m.quads.len() implies m.quad_on_one_layer(
        #[trigger] m.quads[i],
    ) by {
        assert(m.vertices[4 * i + 0].tex_layer == i);
        assert(m.vertices[4 * i + 1].tex_layer == i);
        assert(m.vertices[4 * i + 2].tex_layer == i);
        assert(m.vertices[4 * i + 3].tex_layer == i);
    }
    assert forall|j: int| 0 <= j < m.vertices.len() implies on_layer_plane(
        #[trigger] m.vertices[j],
    ) by {
        assert(m.vertices[j] == cube_vertex(j / 4, j % 4));
    }
}

/// The outward normal of face `face` of the cube, twice the area of the
/// face long: faces 0 to 5 look along +z, +x, -z, -x, -y and +y.
pub open spec fn face_normal(face: int) -> (int, int, int) {
    let n: int = 8 * ONE * ONE;
    if face == 0 {
        (0, 0, n)
    } else if face == 1 {
        (n, 0, 0)
    } else if face == 2 {
        (0, 0, -n)
    } else if face == 3 {
        (-n, 0, 0)
    } else if face == 4 {
        (0, -n, 0)
    } else {
        (0, n, 0)
    }
}

/// Every face of the cube winds counter-clockwise as seen from outside: the
/// normal of quad `face` is the outward normal of the face. No two faces
/// have a colour in common.
pub proof fn lemma_cube_faces_outward(face: int)
    requires
        0 <= face < 6,
    ensures
        ({
            let m = QuadMeshView::cube();
            let q = m.quads[face];
            quad_normal(
                m.vertices[q.0].pos,
                m.vertices[q.1].pos,
                m.vertices[q.2].pos,
                m.vertices[q.3].pos,
            ) == face_normal(face)
        }),
        forall|other: int|
            0 <= other < 6 && other != face ==> face_color(other) != face_color(face),
{
    let m = QuadMeshView::cube();
    assert(m.vertices[4 * face] == cube_vertex((4 * face) / 4, (4 * face) % 4));
    assert(m.vertices[4 * face + 1] == cube_vertex((4 * face + 1) / 4, (4 * face + 1) % 4));
    assert(m.vertices[4 * face + 2] == cube_vertex((4 * face + 2) / 4, (4 * face + 2) % 4));
    assert(m.vertices[4 * face + 3] == cube_vertex((4 * face + 3) / 4, (4 * face + 3) % 4));
    let q = m.quads[face];
    let a = m.vertices[q.0].pos;
    let b = m.vertices[q.1].pos;
    let c = m.vertices[q.2].pos;
    let d = m.vertices[q.3].pos;
    let side: int = 2 * ONE;
    assert(side * side == 4 * ONE * ONE && side * 0 == 0 && 0 * side == 0 && (-side) * side == -4
        * ONE * ONE && side * (-side) == -4 * ONE * ONE && (-side) * (-side) == 4 * ONE * ONE
        && (-side) * 0 == 0 && 0 * (-side) == 0) by (nonlinear_arith)
        requires
            side == 2 * 16777216,
    ;
    if face == 0 {
        assert(offset(c, a) == (-side, -side, 0int) && offset(d, b) == (side, -side, 0int));
    } else if face == 1 {
        assert(offset(c, a) == (0int, -side, side) && offset(d, b) == (0int, -side, -side));
    } else if face == 2 {
        assert(offset(c, a) == (side, -side, 0int) && offset(d, b) == (-side, -side, 0int));
    } else if face == 3 {
        assert(offset(c, a) == (0int, -side, -side) && offset(d, b) == (0int, -side, side));
    } else if face == 4 {
        assert(offset(c, a) == (-side, 0int, -side) && offset(d, b) == (side, 0int, -side));
    } else {
        assert(offset(c, a) == (-side, 0int, side) && offset(d, b) == (side, 0int, side));
    }
}

/// Subdividing keeps every vertex on the plane of its face.
pub proof fn lemma_subdivided_on_surface(m: QuadMeshView)
    requires
        m.wf(),
        m.layered(),
        on_cube_surface(m),
    ensures
        on_cube_surface(m.subdivided()),
{
    let s = m.subdivided();
    let n = m.vertices.len() as int;
    assert forall|j: int| 0 <= j < s.vertices.len() implies on_layer_plane(
        #[trigger] s.vertices[j],
    ) by {
        if j >= n {
            let i = (j - n) / 5;
            let q = m.quads[i];
            assert(quad_in_bounds(q, n));
            assert(m.quad_on_one_layer(q));
            let a = m.vertices[q.0];
            let b = m.vertices[q.1];
            let c = m.vertices[q.2];
            let d = m.vertices[q.3];
            lemma_midpoint_on_plane(a, b);
            lemma_midpoint_on_plane(b, c);
            lemma_midpoint_on_plane(c, d);
            lemma_midpoint_on_plane(d, a);
            lemma_midpoint_on_plane(Vertex::midpoint(a, b), Vertex::midpoint(c, d));
            assert(s.vertices[j] == m.fresh_vertex(i, (j - n) % 5));
        } else {
            assert(s.vertices[j] == m.vertices[j]);
        }
    }
}

/// The cube subdivided `k` times over has indices within its pool, quads
/// whose corners share a layer, and every vertex on the plane of its face.
pub proof fn lemma_subdivided_cube(k: nat)
    ensures
        QuadMeshView::cube().subdivided_times(k).wf(),
        QuadMeshView::cube().subdivided_times(k).layered(),
        on_cube_surface(QuadMeshView::cube().subdivided_times(k)),
    decreases k,
{
    lemma_cube_shape();
    if k > 0 {
        let before = QuadMeshView::cube().subdivided_times((k - 1) as nat);
        lemma_subdivided_cube((k - 1) as nat);
        lemma_subdivided_shape(before);
        lemma_subdivided_layered(before);
        lemma_subdivided_on_surface(before);
    }
}

/// Subdividing keeps the faces of the cube together and in order: after
/// `rounds` rounds the quads of face 0 come first, then those of face 1, and
/// so on, `4^rounds` to a face, each on the layer of its face.
pub proof fn lemma_subdivided_cube_layers(rounds: nat, k: int)
    requires
        0 <= k < 6 * pow(4, rounds),
    ensures
        QuadMeshView::cube().subdivided_times(rounds).quads.len() == 6 * pow(4, rounds),
        QuadMeshView::cube().subdivided_times(rounds).quad_layer(k) == k / pow(4, rounds),
    decreases rounds,
{
    let cube = QuadMeshView::cube();
    lemma_cube_shape();
    lemma_subdivided_times_shape(cube, rounds);
    reveal(pow);
    if rounds == 0 {
        assert(pow(4, 0) == 1);
        assert(cube.vertices[4 * k + 0].tex_layer == k);
    } else {
        let before = (rounds - 1) as nat;
        let p = pow(4, before);
        lemma_pow_positive(4, before);
        assert(pow(4, rounds) == 4 * p);
        lemma_subdivided_cube(before);
        lemma_subdivided_times_shape(cube, before);
        assert(cube.subdivided_times(before).quads.len() == 6 * p);
        lemma_subdivided_quad_layer(cube.subdivided_times(before), k);
        lemma_subdivided_cube_layers(before, k / 4);
        lemma_div_denominator(k, 4, p);
    }
}

/// The sphere made of the cube in `rounds` rounds keeps the faces of the
/// cube together: its first 24 vertices are the corners of the cube, four to
/// a layer, and the triangles of layer 0 come first, then those of layer 1,
/// and so on, `6 * 4^rounds` indices to a layer.
pub proof fn lemma_cube_sphere_layers(rounds: nat)
    ensures
        ({
            let sphere = QuadMeshView::cube().subdivided_times(rounds).projected().triangulated();
            let span = 6 * pow(4, rounds);
            &&& sphere.indices.len() == 6 * span
            &&& sphere.vertices.len() >= 24
            &&& forall|i: int| 0 <= i < 24 ==> (#[trigger] sphere.vertices[i]).tex_layer == i / 4
            &&& forall|j: int|
                0 <= j < 6 * span ==> sphere.vertices[#[trigger] sphere.indices[j]].tex_layer == j
                    / span
        }),
{
    let cube = QuadMeshView::cube();
    let flat = cube.subdivided_times(rounds);
    let round = flat.projected();
    let sphere = round.triangulated();
    let p = pow(4, rounds);
    let span = 6 * p;
    lemma_cube_shape();
    lemma_pow_positive(4, rounds);
    lemma_subdivided_cube(rounds);
    lemma_subdivided_times_shape(cube, rounds);
    assert(flat.quads.len() == 6 * p);
    assert forall|i: int| 0 <= i < 24 implies (#[trigger] sphere.vertices[i]).tex_layer == i
        / 4 by {
        lemma_subdivided_times_keeps_vertices(cube, rounds, i);
        let f = i / 4;
        let corner = i % 4;
        assert(cube.vertices[4 * f + corner].tex_layer == f);
    }
    assert forall|j: int| 0 <= j < 6 * span implies sphere.vertices[
        #[trigger] sphere.indices[j]
    ].tex_layer == j / span by {
        let k = j / 6;
        lemma_subdivided_cube_layers(rounds, k);
        lemma_div_denominator(j, 6, p);
        let q = flat.quads[k];
        assert(quad_in_bounds(q, flat.vertices.len() as int));
        assert(flat.quad_on_one_layer(q));
        assert(sphere.indices[j] == round.triangle_corner(k, j % 6));
    }
}

/// A mesh whose vertices all lie on the planes of their faces has no vertex
/// at the origin, so it can be projected onto the sphere.
pub proof fn lemma_surface_avoids_origin(m: QuadMeshView)
    requires
        on_cube_surface(m),
    ensures
        !m.has_origin_vertex(),
{
    assert forall|j: int| 0 <= j < m.vertices.len() implies (#[trigger] m.vertices[j]).pos != (
        0i32,
        0i32,
        0i32,
    ) by {
        assert(on_layer_plane(m.vertices[j]));
    }
}

} // verus!
