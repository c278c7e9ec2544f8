//! What subdivision and triangulation do to the shape of a mesh: how many
//! quads, vertices and triangles there are, and that indices stay within the
//! pool.

use crate::mesh::MeshView;
use crate::quad_mesh::{quad_distinct, quad_in_bounds, QuadMeshView};
use crate::vertex::Vertex;
use vstd::arithmetic::power::pow;
use vstd::prelude::*;

verus! {

/// Subdividing a mesh whose indices are within its pool gives four quads for
/// each quad and five more vertices for each quad. The indices of the result
/// are within its pool, and no quad of the result names a vertex twice.
pub proof fn lemma_subdivided_shape(m: QuadMeshView)
    requires
        m.wf(),
    ensures
        m.subdivided().quads.len() == 4 * m.quads.len(),
        m.subdivided().vertices.len() == m.vertices.len() + 5 * m.quads.len(),
        m.subdivided().wf(),
        m.subdivided().distinct(),
{
    let s = m.subdivided();
    assert forall|k: int| 0 <= k < s.quads.len() implies quad_in_bounds(
        #[trigger] s.quads[k],
        s.vertices.len() as int,
    ) && quad_distinct(s.quads[k]) by {
        let i = k / 4;
        assert(quad_in_bounds(m.quads[i], m.vertices.len() as int));
        assert(s.quads[k] == m.child_quad(i, k % 4));
    }
}

/// The coordinate `centre` is the mean of the four coordinates `a`, `b`, `c`
/// and `d` rounded down: it lies below the exact mean by at most one unit.
pub open spec fn mean_of_four(centre: int, a: int, b: int, c: int, d: int) -> bool {
    4 * centre <= a + b + c + d <= 4 * centre + 4
}

/// The centre that subdividing adds for quad `i` is the mean of the
/// positions of the quad's four corners, in each coordinate, up to one unit
/// of rounding.
pub proof fn lemma_centre_is_mean(m: QuadMeshView, i: int)
    requires
        0 <= i < m.quads.len(),
    ensures
        ({
            let q = m.quads[i];
            let a = m.vertices[q.0].pos;
            let b = m.vertices[q.1].pos;
            let c = m.vertices[q.2].pos;
            let d = m.vertices[q.3].pos;
            let centre = m.fresh_vertex(i, 4).pos;
            &&& mean_of_four(centre.0 as int, a.0 as int, b.0 as int, c.0 as int, d.0 as int)
            &&& mean_of_four(centre.1 as int, a.1 as int, b.1 as int, c.1 as int, d.1 as int)
            &&& mean_of_four(centre.2 as int, a.2 as int, b.2 as int, c.2 as int, d.2 as int)
        }),
{
    let q = m.quads[i];
    let a = m.vertices[q.0];
    let b = m.vertices[q.1];
    let c = m.vertices[q.2];
    let d = m.vertices[q.3];
    let ab = Vertex::midpoint(a, b);
    let cd = Vertex::midpoint(c, d);
    Vertex::lemma_midpoint_is_mean(a, b);
    Vertex::lemma_midpoint_is_mean(c, d);
    Vertex::lemma_midpoint_is_mean(ab, cd);
}

/// Subdividing keeps the vertices of a mesh under their indices.
pub proof fn lemma_subdivided_keeps_vertices(m: QuadMeshView, j: int)
    requires
        0 <= j < m.vertices.len(),
    ensures
        m.subdivided().vertices[j] == m.vertices[j],
{
}

/// Where the four corners of every quad lie on one texture layer, the same
/// holds after subdividing: each fresh vertex lies on the layer of the quad it
/// was made for.
pub proof fn lemma_subdivided_layered(m: QuadMeshView)
    requires
        m.wf(),
        m.layered(),
    ensures
        m.subdivided().layered(),
{
    let s = m.subdivided();
    let n = m.vertices.len() as int;
    assert forall|k: int| 0 <= k < s.quads.len() implies s.quad_on_one_layer(
        #[trigger] s.quads[k],
    ) by {
        let i = k / 4;
        let q = m.quads[i];
        assert(quad_in_bounds(q, n));
        assert(m.quad_on_one_layer(q));
        assert(s.quads[k] == m.child_quad(i, k % 4));
        let layer = m.vertices[q.0].tex_layer;
        assert forall|slot: int| 0 <= slot < 5 implies (#[trigger] s.vertices[n + 5 * i
            + slot]).tex_layer == layer by {
            assert(s.vertices[n + 5 * i + slot] == m.fresh_vertex(i, slot));
        }
        assert(s.vertices[n + 5 * i + 0].tex_layer == layer);
        assert(s.vertices[n + 5 * i + 1].tex_layer == layer);
        assert(s.vertices[n + 5 * i + 2].tex_layer == layer);
        assert(s.vertices[n + 5 * i + 3].tex_layer == layer);
        assert(s.vertices[n + 5 * i + 4].tex_layer == layer);
        assert(s.vertices[q.0] == m.vertices[q.0]);
        assert(s.vertices[q.1] == m.vertices[q.1]);
        assert(s.vertices[q.2] == m.vertices[q.2]);
        assert(s.vertices[q.3] == m.vertices[q.3]);
    }
}

/// The four children of a quad lie on the layer of the quad.
pub proof fn lemma_subdivided_quad_layer(m: QuadMeshView, k: int)
    requires
        m.wf(),
        m.layered(),
        0 <= k < 4 * m.quads.len(),
    ensures
        m.subdivided().quad_layer(k) == m.quad_layer(k / 4),
{
    let s = m.subdivided();
    let n = m.vertices.len() as int;
    let i = k / 4;
    let q = m.quads[i];
    assert(quad_in_bounds(q, n));
    assert(m.quad_on_one_layer(q));
    assert(s.quads[k] == m.child_quad(i, k % 4));
    assert(s.vertices[q.0] == m.vertices[q.0]);
    assert(s.vertices[n + 5 * i + 0] == m.fresh_vertex(i, 0));
    assert(s.vertices[n + 5 * i + 3] == m.fresh_vertex(i, 3));
    assert(s.vertices[n + 5 * i + 4] == m.fresh_vertex(i, 4));
}

/// Subdividing an `n`-quad mesh `k` times over gives exactly `n * 4^k` quads,
/// and indices that are within the pool stay so. After at least one round no
/// quad names a vertex twice; where none did at the start, none ever does.
pub proof fn lemma_subdivided_times_shape(m: QuadMeshView, k: nat)
    requires
        m.wf(),
    ensures
        m.subdivided_times(k).quads.len() == m.quads.len() * pow(4, k),
        3 * m.subdivided_times(k).vertices.len() == 3 * m.vertices.len() + 5 * m.quads.len() * (pow(
            4,
            k,
        ) - 1),
        m.subdivided_times(k).wf(),
        k >= 1 || m.distinct() ==> m.subdivided_times(k).distinct(),
    decreases k,
{
    reveal(pow);
    if k == 0 {
        assert(m.quads.len() * pow(4, 0) == m.quads.len()) by (nonlinear_arith)
            requires
                pow(4, 0) == 1,
        ;
        assert(5 * m.quads.len() * (pow(4, 0) - 1) == 0) by (nonlinear_arith)
            requires
                pow(4, 0) == 1,
        ;
    } else {
        let j = (k - 1) as nat;
        let before = m.subdivided_times(j);
        lemma_subdivided_times_shape(m, j);
        lemma_subdivided_shape(before);
        let n = m.quads.len() as int;
        let p = pow(4, j);
        assert(pow(4, k) == 4 * p);
        assert(4 * (n * p) == n * (4 * p)) by (nonlinear_arith);
        assert(3 * (5 * (n * p)) + 5 * n * (p - 1) == 5 * n * (4 * p - 1)) by (nonlinear_arith);
    }
}

/// However often a mesh is subdivided, its vertices stay under their
/// indices.
pub proof fn lemma_subdivided_times_keeps_vertices(m: QuadMeshView, k: nat, j: int)
    requires
        0 <= j < m.vertices.len(),
    ensures
        j < m.subdivided_times(k).vertices.len(),
        m.subdivided_times(k).vertices[j] == m.vertices[j],
    decreases k,
{
    if k > 0 {
        lemma_subdivided_times_keeps_vertices(m, (k - 1) as nat, j);
    }
}

/// Where the four corners of every quad lie on one texture layer, the same
/// holds however often the mesh is subdivided.
pub proof fn lemma_subdivided_times_layered(m: QuadMeshView, k: nat)
    requires
        m.wf(),
        m.layered(),
    ensures
        m.subdivided_times(k).layered(),
    decreases k,
{
    if k > 0 {
        let j = (k - 1) as nat;
        lemma_subdivided_times_shape(m, j);
        lemma_subdivided_times_layered(m, j);
        lemma_subdivided_layered(m.subdivided_times(j));
    }
}

/// Triangulating an `m`-quad mesh gives exactly `2 * m` triangles, that is
/// `6 * m` indices, each of which names a vertex of the mesh.
pub proof fn lemma_triangulated_shape(m: QuadMeshView)
    requires
        m.wf(),
    ensures
        m.triangulated().indices.len() == 6 * m.quads.len(),
        m.triangulated().triangle_count() == 2 * m.quads.len(),
        m.triangulated().vertices == m.vertices,
        m.triangulated().wf(),
{
    let t = m.triangulated();
    assert forall|k: int| 0 <= k < t.indices.len() implies 0 <= #[trigger] t.indices[k]
        < t.vertices.len() by {
        let i = k / 6;
        assert(quad_in_bounds(m.quads[i], m.vertices.len() as int));
        assert(t.indices[k] == m.triangle_corner(i, k % 6));
    }
}

} // verus!
