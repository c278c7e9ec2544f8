//! Quad meshes: a vertex pool and a list of quads that index into it.
//!
//! A quad names its four corners in cyclic boundary order, counter-clockwise
//! as seen from outside, so its diagonals join corners 0 and 2, and corners 1
//! and 3.

use crate::fixed::HALF;
use crate::mesh::{Mesh, MeshError, MeshView, MAX_VERTICES};
use crate::sphere::{along, lemma_to_sphere_accurate, near_unit};
use crate::topology::{
    lemma_subdivided_layered, lemma_subdivided_shape, lemma_triangulated_shape,
};
use crate::vertex::{dist_sq, distance_squared, normalize, Vertex};
use vstd::prelude::*;

verus! {

/// Four indices into a vertex pool, in cyclic boundary order.
pub type Quad = (usize, usize, usize, usize);

/// A mesh of quads over a pool of vertices. The pool only ever grows, so an
/// index is a vertex's identity within one mesh.
#[derive(Clone, Debug, PartialEq, Eq)]
pub struct QuadMesh {
    pub vertex_data: Vec<Vertex>,
    pub index_data: Vec<Quad>,
}

/// The mathematical content of a `QuadMesh`: its vertices, and its quads with
/// unbounded indices.
pub struct QuadMeshView {
    pub vertices: Seq<Vertex>,
    pub quads: Seq<(int, int, int, int)>,
}

/// The quad `q` with its indices read as mathematical integers.
pub open spec fn quad_view(q: Quad) -> (int, int, int, int) {
    (q.0 as int, q.1 as int, q.2 as int, q.3 as int)
}

/// Every index of `q` names one of `len` vertices.
pub open spec fn quad_in_bounds(q: (int, int, int, int), len: int) -> bool {
    &&& 0 <= q.0 < len
    &&& 0 <= q.1 < len
    &&& 0 <= q.2 < len
    &&& 0 <= q.3 < len
}

/// The four indices of `q` name four different vertices.
pub open spec fn quad_distinct(q: (int, int, int, int)) -> bool {
    &&& q.0 != q.1
    &&& q.0 != q.2
    &&& q.0 != q.3
    &&& q.1 != q.2
    &&& q.1 != q.3
    &&& q.2 != q.3
}

impl QuadMeshView {
    /// Every index of every quad is within the vertex pool.
    pub open spec fn wf(self) -> bool {
        forall|i: int|
            0 <= i < self.quads.len() ==> quad_in_bounds(
                #[trigger] self.quads[i],
                self.vertices.len() as int,
            )
    }

    /// The four corners of the quad `q` lie on one texture layer.
    pub open spec fn quad_on_one_layer(self, q: (int, int, int, int)) -> bool {
        &&& self.vertices[q.0].tex_layer == self.vertices[q.1].tex_layer
        &&& self.vertices[q.1].tex_layer == self.vertices[q.2].tex_layer
        &&& self.vertices[q.2].tex_layer == self.vertices[q.3].tex_layer
    }

    /// The four corners of every quad lie on one texture layer, so that any
    /// two of them may be interpolated.
    pub open spec fn layered(self) -> bool {
        forall|i: int|
            0 <= i < self.quads.len() ==> self.quad_on_one_layer(#[trigger] self.quads[i])
    }

    /// The texture layer of quad `k`: the layer of its first corner, which
    /// in a layered mesh is the layer of all four.
    pub open spec fn quad_layer(self, k: int) -> u16 {
        self.vertices[self.quads[k].0].tex_layer
    }

    /// No quad names a vertex twice.
    pub open spec fn distinct(self) -> bool {
        forall|i: int| 0 <= i < self.quads.len() ==> quad_distinct(#[trigger] self.quads[i])
    }

    /// One of the five vertices that subdividing adds for quad `i`: the
    /// midpoints of its edges 0-1, 1-2, 2-3 and 3-0 in slots 0 to 3, and in
    /// slot 4 its centre, the midpoint of the first and third of those.
    pub open spec fn fresh_vertex(self, i: int, slot: int) -> Vertex {
        let q = self.quads[i];
        let a = self.vertices[q.0];
        let b = self.vertices[q.1];
        let c = self.vertices[q.2];
        let d = self.vertices[q.3];
        if slot == 0 {
            Vertex::midpoint(a, b)
        } else if slot == 1 {
            Vertex::midpoint(b, c)
        } else if slot == 2 {
            Vertex::midpoint(c, d)
        } else if slot == 3 {
            Vertex::midpoint(d, a)
        } else {
            Vertex::midpoint(Vertex::midpoint(a, b), Vertex::midpoint(c, d))
        }
    }

    /// Vertex `j` of the subdivided mesh. The vertices of this mesh come
    /// first, unchanged; the five fresh vertices of quad 0 follow, then those
    /// of quad 1, and so on.
    pub open spec fn subdivided_vertex(self, j: int) -> Vertex {
        let n = self.vertices.len() as int;
        if j < n {
            self.vertices[j]
        } else {
            self.fresh_vertex((j - n) / 5, (j - n) % 5)
        }
    }

    /// One of the four quads that replace quad `i`. With corners
    /// `(a, b, c, d)`, edge midpoints `ab`, `bc`, `cd`, `da` and centre `mid`,
    /// they are `(a, ab, mid, da)`, `(ab, b, bc, mid)`, `(mid, bc, c, cd)` and
    /// `(da, mid, cd, d)`, in this order.
    pub open spec fn child_quad(self, i: int, child: int) -> (int, int, int, int) {
        let q = self.quads[i];
        let ab = self.vertices.len() + 5 * i;
        let bc = ab + 1;
        let cd = ab + 2;
        let da = ab + 3;
        let mid = ab + 4;
        if child == 0 {
            (q.0, ab, mid, da)
        } else if child == 1 {
            (ab, q.1, bc, mid)
        } else if child == 2 {
            (mid, bc, q.2, cd)
        } else {
            (da, mid, cd, q.3)
        }
    }

    /// Quad `k` of the subdivided mesh: the children of quad 0 come first,
    /// then those of quad 1, and so on.
    pub open spec fn subdivided_quad(self, k: int) -> (int, int, int, int) {
        self.child_quad(k / 4, k % 4)
    }

    /// This mesh with every quad split in four.
    pub open spec fn subdivided(self) -> QuadMeshView {
        QuadMeshView {
            vertices: Seq::new(
                self.vertices.len() + 5 * self.quads.len(),
                |j: int| self.subdivided_vertex(j),
            ),
            quads: Seq::new(4 * self.quads.len(), |k: int| self.subdivided_quad(k)),
        }
    }

    /// This mesh subdivided `k` times over.
    pub open spec fn subdivided_times(self, k: nat) -> QuadMeshView
        decreases k,
    {
        if k == 0 {
            self
        } else {
            self.subdivided_times((k - 1) as nat).subdivided()
        }
    }

    /// Some vertex lies at the origin, where no direction is defined.
    pub open spec fn has_origin_vertex(self) -> bool {
        exists|j: int|
            0 <= j < self.vertices.len() && (#[trigger] self.vertices[j]).pos == (0i32, 0i32, 0i32)
    }

    /// This mesh with every vertex position scaled to unit length: the same
    /// quads and the same colours, texture positions and layers.
    pub open spec fn projected(self) -> QuadMeshView {
        QuadMeshView {
            vertices: self.vertices.map_values(|v: Vertex| v.projected()),
            quads: self.quads,
        }
    }

    /// The diagonal of `q` from corner 0 to corner 2 is strictly longer than
    /// the one from corner 1 to corner 3.
    pub open spec fn first_diagonal_longer(self, q: (int, int, int, int)) -> bool {
        dist_sq(self.vertices[q.0].pos, self.vertices[q.2].pos) > dist_sq(
            self.vertices[q.1].pos,
            self.vertices[q.3].pos,
        )
    }

    /// One of the six indices that triangulating emits for quad `i`. A quad
    /// `(a, b, c, d)` is cut along its shorter diagonal. Where the diagonal
    /// `a`-`c` is the longer one, the cut runs from `b` to `d` and the
    /// triangles are `(a, b, d)` and `(d, b, c)`. Otherwise, and so whenever
    /// the two are equally long, it runs from `a` to `c` and the triangles are
    /// `(a, b, c)` and `(c, d, a)`.
    pub open spec fn triangle_corner(self, i: int, slot: int) -> int {
        let q = self.quads[i];
        if self.first_diagonal_longer(q) {
            if slot == 0 {
                q.0
            } else if slot == 1 {
                q.1
            } else if slot == 2 {
                q.3
            } else if slot == 3 {
                q.3
            } else if slot == 4 {
                q.1
            } else {
                q.2
            }
        } else {
            if slot == 0 {
                q.0
            } else if slot == 1 {
                q.1
            } else if slot == 2 {
                q.2
            } else if slot == 3 {
                q.2
            } else if slot == 4 {
                q.3
            } else {
                q.0
            }
        }
    }

    /// The triangle mesh of this quad mesh: the same vertices under the same
    /// indices, and two triangles for each quad, in the order of the quads.
    pub open spec fn triangulated(self) -> MeshView {
        MeshView {
            vertices: self.vertices,
            indices: Seq::new(6 * self.quads.len(), |k: int| self.triangle_corner(k / 6, k % 6)),
        }
    }
}

impl View for QuadMesh {
    type V = QuadMeshView;

    open spec fn view(&self) -> QuadMeshView {
        QuadMeshView {
            vertices: self.vertex_data@,
            quads: self.index_data@.map_values(|q: Quad| quad_view(q)),
        }
    }
}

/// Copies a list of plain values.
fn copy_of<T: Copy>(source: &Vec<T>) -> (r: Vec<T>)
    ensures
        r@ == source@,
{
    let mut r: Vec<T> = Vec::new();
    let mut i: usize = 0;
    while i < source.len()
        invariant
            i <= source.len(),
            r@ == source@.take(i as int),
        decreases source.len() - i,
    {
        r.push(source[i]);
        i += 1;
    }
    r
}

/// Appends the six indices of two triangles to an index buffer.
fn push_triangles(indices: &mut Vec<u16>, t: (u16, u16, u16), u: (u16, u16, u16))
    ensures
        final(indices)@ == old(indices)@ + seq![t.0, t.1, t.2, u.0, u.1, u.2],
{
    indices.push(t.0);
    indices.push(t.1);
    indices.push(t.2);
    indices.push(u.0);
    indices.push(u.1);
    indices.push(u.2);
    assert(indices@ =~= old(indices)@ + seq![t.0, t.1, t.2, u.0, u.1, u.2]);
}

/// Appends five vertices to a pool.
fn push_five(pool: &mut Vec<Vertex>, v0: Vertex, v1: Vertex, v2: Vertex, v3: Vertex, v4: Vertex)
    ensures
        final(pool)@ == old(pool)@ + seq![v0, v1, v2, v3, v4],
{
    pool.push(v0);
    pool.push(v1);
    pool.push(v2);
    pool.push(v3);
    pool.push(v4);
    assert(pool@ =~= old(pool)@ + seq![v0, v1, v2, v3, v4]);
}

/// Appends four quads to a list.
fn push_four(quads: &mut Vec<Quad>, q0: Quad, q1: Quad, q2: Quad, q3: Quad)
    ensures
        final(quads)@ == old(quads)@ + seq![q0, q1, q2, q3],
{
    quads.push(q0);
    quads.push(q1);
    quads.push(q2);
    quads.push(q3);
    assert(quads@ =~= old(quads)@ + seq![q0, q1, q2, q3]);
}

/// Computes the four edge midpoints and the centre of a quad from its
/// corners.
fn split_points(a: Vertex, b: Vertex, c: Vertex, d: Vertex) -> (r: (
    Vertex,
    Vertex,
    Vertex,
    Vertex,
    Vertex,
))
    requires
        a.tex_layer == b.tex_layer,
        b.tex_layer == c.tex_layer,
        c.tex_layer == d.tex_layer,
    ensures
        r.0 == Vertex::midpoint(a, b),
        r.1 == Vertex::midpoint(b, c),
        r.2 == Vertex::midpoint(c, d),
        r.3 == Vertex::midpoint(d, a),
        r.4 == Vertex::midpoint(Vertex::midpoint(a, b), Vertex::midpoint(c, d)),
{
    proof {
        Vertex::lemma_interpolation_fits(a, b, HALF as int);
        Vertex::lemma_interpolation_fits(b, c, HALF as int);
        Vertex::lemma_interpolation_fits(c, d, HALF as int);
        Vertex::lemma_interpolation_fits(d, a, HALF as int);
    }
    let ab: Vertex = Vertex::lerp(a, b, HALF);
    let bc: Vertex = Vertex::lerp(b, c, HALF);
    let cd: Vertex = Vertex::lerp(c, d, HALF);
    let da: Vertex = Vertex::lerp(d, a, HALF);
    proof {
        Vertex::lemma_interpolation_fits(ab, cd, HALF as int);
    }
    let mid: Vertex = Vertex::lerp(ab, cd, HALF);
    (ab, bc, cd, da, mid)
}

impl QuadMesh {
    /// Tells whether every index of every quad is within the vertex pool.
    pub fn is_well_formed(&self) -> (r: bool)
        ensures
            r == self@.wf(),
    {
        let n: usize = self.vertex_data.len();
        let mut i: usize = 0;
        while i < self.index_data.len()
            invariant
                i <= self.index_data.len(),
                n == self.vertex_data.len(),
                forall|t: int| 0 <= t < i ==> quad_in_bounds(#[trigger] self@.quads[t], n as int),
            decreases self.index_data.len() - i,
        {
            let q: Quad = self.index_data[i];
            assert(self@.quads[i as int] == quad_view(q));
            if q.0 >= n || q.1 >= n || q.2 >= n || q.3 >= n {
                return false;
            }
            i += 1;
        }
        true
    }

    /// Tells whether the four corners of every quad lie on one texture layer.
    pub fn is_layered(&self) -> (r: bool)
        requires
            self@.wf(),
        ensures
            r == self@.layered(),
    {
        let mut i: usize = 0;
        while i < self.index_data.len()
            invariant
                i <= self.index_data.len(),
                self@.wf(),
                forall|t: int| 0 <= t < i ==> self@.quad_on_one_layer(#[trigger] self@.quads[t]),
            decreases self.index_data.len() - i,
        {
            let q: Quad = self.index_data[i];
            proof {
                assert(self@.quads[i as int] == quad_view(q));
                assert(quad_in_bounds(self@.quads[i as int], self.vertex_data.len() as int));
            }
            let layer: u16 = self.vertex_data[q.0].tex_layer;
            if self.vertex_data[q.1].tex_layer != layer || self.vertex_data[q.2].tex_layer != layer
                || self.vertex_data[q.3].tex_layer != layer {
                assert(!self@.quad_on_one_layer(self@.quads[i as int]));
                return false;
            }
            i += 1;
        }
        true
    }

    /// Splits every quad in four. The result keeps the vertices of this mesh
    /// under their indices and appends five fresh ones for each quad; midpoints
    /// on an edge that two quads share are not merged.
    pub fn subdivide(&self) -> (r: Self)
        requires
            self@.wf(),
            self@.layered(),
        ensures
            r@ == self@.subdivided(),
            r@.quads.len() == 4 * self@.quads.len(),
            r@.vertices.len() == self@.vertices.len() + 5 * self@.quads.len(),
            r@.wf(),
            r@.layered(),
            r@.distinct(),
    {
        let n: usize = self.vertex_data.len();
        let mut vertex_data: Vec<Vertex> = copy_of(&self.vertex_data);
        let mut index_data: Vec<Quad> = Vec::new();
        let mut i: usize = 0;
        while i < self.index_data.len()
            invariant
                i <= self.index_data.len(),
                n == self.vertex_data.len(),
                self@.wf(),
                self@.layered(),
                vertex_data@.len() == n + 5 * i,
                index_data@.len() == 4 * i,
                forall|j: int| 0 <= j < n ==> vertex_data@[j] == self.vertex_data@[j],
                forall|t: int, slot: int|
                    0 <= t < i && 0 <= slot < 5 ==> vertex_data@[n + 5 * t + slot]
                        == #[trigger] self@.fresh_vertex(t, slot),
                forall|t: int, child: int|
                    0 <= t < i && 0 <= child < 4 ==> quad_view(index_data@[4 * t + child])
                        == #[trigger] self@.child_quad(t, child),
            decreases self.index_data.len() - i,
        {
            let q: Quad = self.index_data[i];
            proof {
                assert(self@.quads[i as int] == quad_view(q));
                assert(quad_in_bounds(self@.quads[i as int], n as int));
                assert(self@.quad_on_one_layer(self@.quads[i as int]));
            }
            let a: Vertex = self.vertex_data[q.0];
            let b: Vertex = self.vertex_data[q.1];
            let c: Vertex = self.vertex_data[q.2];
            let d: Vertex = self.vertex_data[q.3];
            let (ab, bc, cd, da, mid) = split_points(a, b, c, d);
            let first: usize = vertex_data.len();
            let ghost old_vertices = vertex_data@;
            let ghost old_quads = index_data@;
            push_five(&mut vertex_data, ab, bc, cd, da, mid);
            assert(vertex_data.len() == first + 5);
            let q0: Quad = (q.0, first, first + 4, first + 3);
            let q1: Quad = (first, q.1, first + 1, first + 4);
            let q2: Quad = (first + 4, first + 1, q.2, first + 2);
            let q3: Quad = (first + 3, first + 4, first + 2, q.3);
            push_four(&mut index_data, q0, q1, q2, q3);
            proof {
                assert forall|t: int, slot: int|
                    0 <= t < i + 1 && 0 <= slot < 5 implies vertex_data@[n + 5 * t + slot]
                    == #[trigger] self@.fresh_vertex(t, slot) by {
                    if t < i {
                        assert(vertex_data@[n + 5 * t + slot] == old_vertices[n + 5 * t + slot]);
                    } else {
                        assert(vertex_data@[n + 5 * t + slot] == seq![ab, bc, cd, da, mid][slot]);
                    }
                }
                assert forall|t: int, child: int|
                    0 <= t < i + 1 && 0 <= child < 4 implies quad_view(index_data@[4 * t + child])
                    == #[trigger] self@.child_quad(t, child) by {
                    if t < i {
                        assert(index_data@[4 * t + child] == old_quads[4 * t + child]);
                    } else {
                        assert(index_data@[4 * t + child] == seq![q0, q1, q2, q3][child]);
                    }
                }
            }
            i += 1;
        }
        let r = QuadMesh { vertex_data, index_data };
        proof {
            let target = self@.subdivided();
            assert forall|j: int| 0 <= j < r@.vertices.len() implies r@.vertices[j]
                == target.vertices[j] by {
                if j >= n {
                    let t = (j - n) / 5;
                    let slot = (j - n) % 5;
                    assert(r@.vertices[n + 5 * t + slot] == self@.fresh_vertex(t, slot));
                }
            }
            assert(r@.vertices =~= target.vertices);
            assert forall|k: int| 0 <= k < r@.quads.len() implies r@.quads[k]
                == target.quads[k] by {
                let t = k / 4;
                let child = k % 4;
                assert(quad_view(r.index_data@[4 * t + child]) == self@.child_quad(t, child));
            }
            assert(r@.quads =~= target.quads);
            lemma_subdivided_shape(self@);
            lemma_subdivided_layered(self@);
        }
        r
    }

    /// Projects every vertex onto the unit sphere by scaling its position to
    /// unit length: the new position points along the old one, each
    /// coordinate within two units of the exact quotient, and lies within
    /// four units of the sphere. A vertex at the origin has no direction: the
    /// mesh is then rejected.
    pub fn to_sphere(&self) -> (r: Result<Self, MeshError>)
        ensures
            match r {
                Ok(m) => {
                    &&& !self@.has_origin_vertex()
                    &&& m@ == self@.projected()
                    &&& m@.quads == self@.quads
                    &&& m@.vertices.len() == self@.vertices.len()
                    &&& forall|j: int|
                        0 <= j < self@.vertices.len() ==> {
                            &&& near_unit((#[trigger] m@.vertices[j]).pos)
                            &&& along(m@.vertices[j].pos, self@.vertices[j].pos)
                        }
                },
                Err(e) => e == MeshError::ZeroLengthPosition && self@.has_origin_vertex(),
            },
    {
        let mut vertex_data: Vec<Vertex> = Vec::new();
        let mut i: usize = 0;
        while i < self.vertex_data.len()
            invariant
                i <= self.vertex_data.len(),
                vertex_data@.len() == i,
                forall|j: int| 0 <= j < i ==> self.vertex_data@[j].pos != (0i32, 0i32, 0i32),
                forall|j: int|
                    0 <= j < i ==> #[trigger] vertex_data@[j] == self.vertex_data@[j].projected(),
            decreases self.vertex_data.len() - i,
        {
            let v: Vertex = self.vertex_data[i];
            if v.pos.0 == 0 && v.pos.1 == 0 && v.pos.2 == 0 {
                assert(self@.vertices[i as int].pos == (0i32, 0i32, 0i32));
                return Err(MeshError::ZeroLengthPosition);
            }
            let pos: (i32, i32, i32) = normalize(v.pos);
            vertex_data.push(
                Vertex { pos, color: v.color, tex_pos: v.tex_pos, tex_layer: v.tex_layer },
            );
            i += 1;
        }
        let index_data: Vec<Quad> = copy_of(&self.index_data);
        let r = QuadMesh { vertex_data, index_data };
        proof {
            assert(r@.vertices =~= self@.projected().vertices);
            assert(r@.quads =~= self@.projected().quads);
            lemma_to_sphere_accurate(self@);
        }
        Ok(r)
    }

    /// Cuts every quad into two triangles along its shorter diagonal and
    /// narrows the indices to 16 bits. The vertices are carried over under
    /// their indices. A pool of more than `MAX_VERTICES` vertices is rejected.
    pub fn triangulate(&self) -> (r: Result<Mesh, MeshError>)
        requires
            self@.wf(),
        ensures
            match r {
                Ok(m) => {
                    &&& self@.vertices.len() <= MAX_VERTICES
                    &&& m@ == self@.triangulated()
                    &&& m@.indices.len() == 6 * self@.quads.len()
                    &&& m@.wf()
                },
                Err(e) => e == MeshError::IndexOverflow && self@.vertices.len() > MAX_VERTICES,
            },
    {
        if self.vertex_data.len() > MAX_VERTICES {
            return Err(MeshError::IndexOverflow);
        }
        let vertex_data: Vec<Vertex> = copy_of(&self.vertex_data);
        let mut index_data: Vec<u16> = Vec::new();
        let mut i: usize = 0;
        while i < self.index_data.len()
            invariant
                i <= self.index_data.len(),
                self@.wf(),
                self.vertex_data.len() <= MAX_VERTICES,
                index_data@.len() == 6 * i,
                forall|t: int, slot: int|
                    0 <= t < i && 0 <= slot < 6 ==> index_data@[6 * t + slot]
                        == #[trigger] self@.triangle_corner(t, slot),
            decreases self.index_data.len() - i,
        {
            let q: Quad = self.index_data[i];
            proof {
                assert(self@.quads[i as int] == quad_view(q));
                assert(quad_in_bounds(self@.quads[i as int], self.vertex_data.len() as int));
            }
            let first: u128 = distance_squared(
                self.vertex_data[q.0].pos,
                self.vertex_data[q.2].pos,
            );
            let second: u128 = distance_squared(
                self.vertex_data[q.1].pos,
                self.vertex_data[q.3].pos,
            );
            let a: u16 = q.0 as u16;
            let b: u16 = q.1 as u16;
            let c: u16 = q.2 as u16;
            let d: u16 = q.3 as u16;
            let ghost old_indices = index_data@;
            let ghost added: Seq<u16>;
            if first > second {
                push_triangles(&mut index_data, (a, b, d), (d, b, c));
                proof {
                    added = seq![a, b, d, d, b, c];
                }
            } else {
                push_triangles(&mut index_data, (a, b, c), (c, d, a));
                proof {
                    added = seq![a, b, c, c, d, a];
                }
            }
            proof {
                assert forall|t: int, slot: int|
                    0 <= t < i + 1 && 0 <= slot < 6 implies index_data@[6 * t + slot]
                    == #[trigger] self@.triangle_corner(t, slot) by {
                    if t < i {
                        assert(index_data@[6 * t + slot] == old_indices[6 * t + slot]);
                    } else {
                        assert(index_data@[6 * t + slot] == added[slot]);
                    }
                }
            }
            i += 1;
        }
        let r = Mesh { vertex_data, index_data };
        proof {
            let target = self@.triangulated();
            assert forall|k: int| 0 <= k < r@.indices.len() implies r@.indices[k]
                == target.indices[k] by {
                let t = k / 6;
                let slot = k % 6;
                assert(r.index_data@[6 * t + slot] == self@.triangle_corner(t, slot));
            }
            assert(r@.indices =~= target.indices);
            lemma_triangulated_shape(self@);
        }
        Ok(r)
    }
}

} // verus!
