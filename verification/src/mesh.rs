//! Triangle meshes: the terminal, renderable form of a mesh.

use crate::cube::{
    lemma_cube_shape, lemma_cube_sphere_layers, lemma_subdivided_cube,
    lemma_surface_avoids_origin, on_layer_plane,
};
use crate::fixed::{HALF, ONE};
use crate::quad_mesh::{QuadMesh, QuadMeshView};
use crate::sphere::near_unit;
use crate::topology::{lemma_subdivided_times_shape, lemma_triangulated_shape};
use crate::vertex::Vertex;
use vstd::arithmetic::power::pow;
use vstd::pervasive::unreached;
use vstd::prelude::*;

verus! {

/// The largest number of vertices that 16-bit indices are allowed to address.
pub const MAX_VERTICES: usize = 65535;

/// Why a mesh could not be built.
#[derive(Clone, Copy, Debug, PartialEq, Eq)]
pub enum MeshError {
    /// A vertex lies at the origin and has no direction to project along.
    ZeroLengthPosition,
    /// The vertex pool is too large for 16-bit indices.
    IndexOverflow,
    /// A face names a vertex that the pool does not hold.
    IndexOutOfRange,
}

/// Three indices into a vertex buffer: one triangle.
pub type Face = (usize, usize, usize);

/// The face `f` with its indices read as mathematical integers.
pub open spec fn face_view(f: Face) -> (int, int, int) {
    (f.0 as int, f.1 as int, f.2 as int)
}

/// A list of faces with their indices read as mathematical integers.
pub open spec fn faces_view(faces: Seq<Face>) -> Seq<(int, int, int)> {
    faces.map_values(|f: Face| face_view(f))
}

/// Every index of `f` names one of `len` vertices.
pub open spec fn face_in_bounds(f: (int, int, int), len: int) -> bool {
    &&& 0 <= f.0 < len
    &&& 0 <= f.1 < len
    &&& 0 <= f.2 < len
}

/// Every index of every face names one of `len` vertices.
pub open spec fn faces_in_bounds(faces: Seq<(int, int, int)>, len: int) -> bool {
    forall|i: int| 0 <= i < faces.len() ==> face_in_bounds(#[trigger] faces[i], len)
}

/// Corner `slot` of the face `f`.
pub open spec fn face_corner(f: (int, int, int), slot: int) -> int {
    if slot == 0 {
        f.0
    } else if slot == 1 {
        f.1
    } else {
        f.2
    }
}

/// The number of times that `new_icosphere` subdivides the icosahedron.
pub const ICOSPHERE_ROUNDS: usize = 4;

/// The most rounds of subdivision after which an icosphere, with its
/// `10 * 4^n + 2` vertices, still fits 16-bit indices.
pub const MAX_ICOSPHERE_ROUNDS: usize = 6;

/// The faces of the icosphere after `subdivides` rounds of subdivision, in
/// the generator's order, as indices into the generator's shared vertices.
pub uninterp spec fn icosphere_faces(subdivides: nat) -> Seq<(int, int, int)>;

/// The number of shared vertices that the generator holds for the icosphere
/// after `subdivides` rounds of subdivision: what its `shared_vertex_count`
/// returns, and what its faces index into.
pub uninterp spec fn icosphere_vertex_count(subdivides: nat) -> nat;

/// The vertex that an icosphere has at `pos`: white, on layer 0, in the
/// middle of the texture.
pub open spec fn icosphere_vertex(pos: (i32, i32, i32)) -> Vertex {
    Vertex { pos, color: (ONE, ONE, ONE), tex_pos: (HALF, HALF), tex_layer: 0 }
}

/// Corner `corner` of the plane that `new_plane` builds, in the colour
/// `color`: the corners (1, -1), (1, 1), (-1, 1) and (-1, -1) of a square in
/// the x-y plane, each with its place in the unit square as texture position.
pub open spec fn plane_vertex(corner: int, color: (i32, i32, i32)) -> Vertex {
    let x: i32 = if corner == 0 || corner == 1 {
        ONE
    } else {
        (-ONE) as i32
    };
    let y: i32 = if corner == 1 || corner == 2 {
        ONE
    } else {
        (-ONE) as i32
    };
    Vertex {
        pos: (x, y, 0i32),
        color,
        tex_pos: (((x + ONE) / 2) as i32, ((y + ONE) / 2) as i32),
        tex_layer: 0,
    }
}

/// A triangle list: a vertex buffer and an index buffer that holds three
/// indices for every triangle.
#[derive(Clone, Debug, PartialEq, Eq)]
pub struct Mesh {
    pub vertex_data: Vec<Vertex>,
    pub index_data: Vec<u16>,
}

/// The mathematical content of a `Mesh`.
pub struct MeshView {
    pub vertices: Seq<Vertex>,
    pub indices: Seq<int>,
}

impl MeshView {
    /// The indices come in triples and each names a vertex of the buffer.
    pub open spec fn wf(self) -> bool {
        &&& self.indices.len() % 3 == 0
        &&& forall|k: int|
            0 <= k < self.indices.len() ==> 0 <= #[trigger] self.indices[k] < self.vertices.len()
    }

    /// The number of triangles.
    pub open spec fn triangle_count(self) -> int {
        self.indices.len() as int / 3
    }

    /// The mesh over `vertices` whose triangles are `faces`, in their order.
    pub open spec fn from_faces(vertices: Seq<Vertex>, faces: Seq<(int, int, int)>) -> MeshView {
        MeshView {
            vertices,
            indices: Seq::new(3 * faces.len(), |k: int| face_corner(faces[k / 3], k % 3)),
        }
    }

    /// The square in the x-y plane whose four corners have the colours
    /// `colors`, as the triangles (0, 1, 3) and (1, 3, 2).
    pub open spec fn plane(colors: Seq<(i32, i32, i32)>) -> MeshView {
        MeshView {
            vertices: Seq::new(4, |corner: int| plane_vertex(corner, colors[corner])),
            indices: seq![0int, 1int, 3int, 1int, 3int, 2int],
        }
    }

    /// Triangle `t` as its three vertex indices in order.
    pub open spec fn triangle(self, t: int) -> (int, int, int) {
        (self.indices[3 * t], self.indices[3 * t + 1], self.indices[3 * t + 2])
    }
}

impl View for Mesh {
    type V = MeshView;

    open spec fn view(&self) -> MeshView {
        MeshView {
            vertices: self.vertex_data@,
            indices: self.index_data@.map_values(|i: u16| i as int),
        }
    }
}

/// The faces of an icosphere, from the `genmesh` crate: `IcoSphere::subdivide`
/// builds the sphere and `IndexedPolygon::indexed_polygon_iter` hands out its
/// faces in order. Trusted, not proved: that the faces, and the number of
/// shared vertices, depend on the number of rounds alone, which is what
/// gives them names; that there are `20 * 4^n` faces, as the generator
/// documents; and that every face indexes into the generator's shared
/// vertices, as the trait `IndexedPolygon` documents. The generator's work
/// grows fourfold with each round, so no more rounds are asked of it than a
/// mesh with 16-bit indices can use.
#[verifier::external_body]
fn icosphere_face_list(subdivides: usize) -> (r: Vec<Face>)
    requires
        subdivides <= MAX_ICOSPHERE_ROUNDS,
    ensures
        faces_view(r@) == icosphere_faces(subdivides as nat),
        r@.len() == 20 * pow(4, subdivides as nat),
        faces_in_bounds(faces_view(r@), icosphere_vertex_count(subdivides as nat) as int),
{
    let sphere = genmesh::generators::IcoSphere::subdivide(subdivides);
    genmesh::generators::IndexedPolygon::indexed_polygon_iter(&sphere).map(
        |t: genmesh::Triangle<usize>| (t.x, t.y, t.z),
    ).collect()
}

/// The number of times that `new_cubesphere` subdivides the cube.
pub const CUBESPHERE_ROUNDS: usize = 4;

impl Mesh {
    /// Builds a mesh from a vertex buffer and a list of triangles, narrowing
    /// the indices to 16 bits. A buffer of more than `MAX_VERTICES` vertices
    /// is rejected, and so is, of the others, a list with an index that names
    /// no vertex of the buffer.
    pub fn from_triangles(vertex_data: Vec<Vertex>, faces: &Vec<Face>) -> (r: Result<
        Self,
        MeshError,
    >)
        ensures
            match r {
                Ok(m) => {
                    &&& vertex_data@.len() <= MAX_VERTICES
                    &&& faces_in_bounds(faces_view(faces@), vertex_data@.len() as int)
                    &&& m@ == MeshView::from_faces(vertex_data@, faces_view(faces@))
                },
                Err(MeshError::IndexOverflow) => vertex_data@.len() > MAX_VERTICES,
                Err(MeshError::IndexOutOfRange) => {
                    &&& vertex_data@.len() <= MAX_VERTICES
                    &&& !faces_in_bounds(faces_view(faces@), vertex_data@.len() as int)
                },
                Err(MeshError::ZeroLengthPosition) => false,
            },
    {
        let count: usize = vertex_data.len();
        if count > MAX_VERTICES {
            return Err(MeshError::IndexOverflow);
        }
        let ghost model = faces_view(faces@);
        let mut index_data: Vec<u16> = Vec::new();
        let mut i: usize = 0;
        while i < faces.len()
            invariant
                i <= faces.len(),
                count == vertex_data@.len(),
                count <= MAX_VERTICES,
                model == faces_view(faces@),
                index_data@.len() == 3 * i,
                forall|t: int| 0 <= t < i ==> face_in_bounds(#[trigger] model[t], count as int),
                forall|t: int, slot: int|
                    0 <= t < i && 0 <= slot < 3 ==> index_data@[3 * t + slot]
                        == #[trigger] face_corner(model[t], slot),
            decreases faces.len() - i,
        {
            let f: Face = faces[i];
            assert(model[i as int] == face_view(f));
            if f.0 >= count || f.1 >= count || f.2 >= count {
                assert(!face_in_bounds(model[i as int], count as int));
                return Err(MeshError::IndexOutOfRange);
            }
            let ghost old_indices = index_data@;
            index_data.push(f.0 as u16);
            index_data.push(f.1 as u16);
            index_data.push(f.2 as u16);
            proof {
                assert forall|t: int, slot: int|
                    0 <= t < i + 1 && 0 <= slot < 3 implies index_data@[3 * t + slot]
                    == #[trigger] face_corner(model[t], slot) by {
                    if t < i {
                        assert(index_data@[3 * t + slot] == old_indices[3 * t + slot]);
                    }
                }
            }
            i += 1;
        }
        let r = Mesh { vertex_data, index_data };
        proof {
            let target = MeshView::from_faces(vertex_data@, model);
            assert forall|k: int| 0 <= k < r@.indices.len() implies r@.indices[k]
                == target.indices[k] by {
                let t = k / 3;
                let slot = k % 3;
                assert(r.index_data@[3 * t + slot] == face_corner(model[t], slot));
            }
            assert(r@.indices =~= target.indices);
        }
        Ok(r)
    }

    /// Builds an icosphere over the given vertex positions: the faces are
    /// those of the icosahedron subdivided four times over, and every vertex
    /// is white. The positions are the generator's shared vertices, which the
    /// faces index: as many positions as the generator has shared vertices,
    /// or more, always give a mesh, unless they are too many for 16-bit
    /// indices. Positions that do not match the faces are rejected as
    /// `from_triangles` rejects them.
    pub fn new_icosphere(positions: &Vec<(i32, i32, i32)>) -> (r: Result<Self, MeshError>)
        ensures
            match r {
                Ok(m) => {
                    &&& positions@.len() <= MAX_VERTICES
                    &&& faces_in_bounds(
                        icosphere_faces(ICOSPHERE_ROUNDS as nat),
                        positions@.len() as int,
                    )
                    &&& m@ == MeshView::from_faces(
                        positions@.map_values(|p: (i32, i32, i32)| icosphere_vertex(p)),
                        icosphere_faces(ICOSPHERE_ROUNDS as nat),
                    )
                    &&& m@.indices.len() == 15360
                },
                Err(MeshError::IndexOverflow) => positions@.len() > MAX_VERTICES,
                Err(MeshError::IndexOutOfRange) => {
                    &&& positions@.len() <= MAX_VERTICES
                    &&& !faces_in_bounds(
                        icosphere_faces(ICOSPHERE_ROUNDS as nat),
                        positions@.len() as int,
                    )
                },
                Err(MeshError::ZeroLengthPosition) => false,
            },
            icosphere_vertex_count(ICOSPHERE_ROUNDS as nat) <= positions@.len() <= MAX_VERTICES
                ==> r is Ok,
    {
        let mut vertex_data: Vec<Vertex> = Vec::new();
        let mut i: usize = 0;
        while i < positions.len()
            invariant
                i <= positions.len(),
                vertex_data@.len() == i,
                forall|j: int|
                    0 <= j < i ==> #[trigger] vertex_data@[j] == icosphere_vertex(positions@[j]),
            decreases positions.len() - i,
        {
            vertex_data.push(
                Vertex {
                    pos: positions[i],
                    color: (ONE, ONE, ONE),
                    tex_pos: (HALF, HALF),
                    tex_layer: 0,
                },
            );
            i += 1;
        }
        assert(vertex_data@ =~= positions@.map_values(|p: (i32, i32, i32)| icosphere_vertex(p)));
        let faces: Vec<Face> = icosphere_face_list(ICOSPHERE_ROUNDS);
        proof {
            assert(pow(4, 4) == 256) by {
                reveal_with_fuel(pow, 5);
            }
            let count = icosphere_vertex_count(ICOSPHERE_ROUNDS as nat) as int;
            if count <= positions@.len() {
                assert forall|t: int| 0 <= t < faces_view(faces@).len() implies face_in_bounds(
                    #[trigger] faces_view(faces@)[t],
                    positions@.len() as int,
                ) by {
                    assert(face_in_bounds(faces_view(faces@)[t], count));
                }
            }
        }
        Mesh::from_triangles(vertex_data, &faces)
    }

    /// Builds a square in the x-y plane, two triangles over four vertices
    /// with one colour for each corner.
    pub fn new_plane(colors: &[(i32, i32, i32); 4]) -> (r: Self)
        ensures
            r@ == MeshView::plane(colors@),
    {
        let mut vertex_data: Vec<Vertex> = Vec::new();
        vertex_data.push(
            Vertex { pos: (ONE, -ONE, 0), color: colors[0], tex_pos: (ONE, 0), tex_layer: 0 },
        );
        vertex_data.push(
            Vertex { pos: (ONE, ONE, 0), color: colors[1], tex_pos: (ONE, ONE), tex_layer: 0 },
        );
        vertex_data.push(
            Vertex { pos: (-ONE, ONE, 0), color: colors[2], tex_pos: (0, ONE), tex_layer: 0 },
        );
        vertex_data.push(
            Vertex { pos: (-ONE, -ONE, 0), color: colors[3], tex_pos: (0, 0), tex_layer: 0 },
        );
        let mut index_data: Vec<u16> = Vec::new();
        index_data.push(0);
        index_data.push(1);
        index_data.push(3);
        index_data.push(1);
        index_data.push(3);
        index_data.push(2);
        let r = Mesh { vertex_data, index_data };
        proof {
            assert(r@.vertices =~= MeshView::plane(colors@).vertices);
            assert(r@.indices =~= MeshView::plane(colors@).indices);
        }
        r
    }

    /// Builds a sphere from a cube: the cube is subdivided four times over,
    /// projected onto the unit sphere and triangulated. The result has 1536
    /// quads' worth of triangles over 2574 vertices, each within four units
    /// of the unit sphere and on one of the six layers. The first 24
    /// vertices are the projected corners of the cube, and the triangles of
    /// each layer stand together, 1536 indices to a layer.
    pub fn new_cubesphere() -> (r: Self)
        ensures
            r@ == QuadMeshView::cube().subdivided_times(
                CUBESPHERE_ROUNDS as nat,
            ).projected().triangulated(),
            r@.wf(),
            r@.vertices.len() == 2574,
            r@.indices.len() == 9216,
            forall|j: int|
                0 <= j < 2574 ==> {
                    &&& near_unit((#[trigger] r@.vertices[j]).pos)
                    &&& r@.vertices[j].tex_layer < 6
                },
            forall|i: int| 0 <= i < 24 ==> (#[trigger] r@.vertices[i]).tex_layer == i / 4,
            forall|j: int|
                0 <= j < 9216 ==> r@.vertices[#[trigger] r@.indices[j]].tex_layer == j / 1536,
    {
        let mut mesh: QuadMesh = QuadMesh::new_cube();
        let mut round: usize = 0;
        proof {
            lemma_subdivided_cube(0);
        }
        while round < CUBESPHERE_ROUNDS
            invariant
                round <= CUBESPHERE_ROUNDS,
                mesh@ == QuadMeshView::cube().subdivided_times(round as nat),
                mesh@.wf(),
                mesh@.layered(),
            decreases CUBESPHERE_ROUNDS - round,
        {
            mesh = mesh.subdivide();
            round += 1;
            proof {
                lemma_subdivided_cube(round as nat);
            }
        }
        proof {
            let cube = QuadMeshView::cube();
            lemma_cube_shape();
            lemma_subdivided_cube(4);
            lemma_surface_avoids_origin(mesh@);
            lemma_subdivided_times_shape(cube, 4);
            assert(pow(4, 4) == 256) by {
                reveal_with_fuel(pow, 5);
            }
            let quads = cube.quads.len();
            let factor = pow(4, 4);
            assert(quads * factor == 1536 && 5 * quads * (factor - 1) == 7650) by (nonlinear_arith)
                requires
                    quads == 6,
                    factor == 256,
            ;
            assert(mesh@.quads.len() == 1536);
            assert(mesh@.vertices.len() == 2574);
            let sphere = mesh@.projected();
            assert(sphere.vertices.len() == 2574);
            assert(sphere.wf());
            lemma_triangulated_shape(sphere);
            lemma_cube_sphere_layers(4);
            assert forall|j: int| 0 <= j < 2574 implies (#[trigger] sphere.vertices[j]).tex_layer
                < 6 by {
                assert(on_layer_plane(mesh@.vertices[j]));
            }
        }
        match mesh.to_sphere() {
            Ok(sphere) => match sphere.triangulate() {
                Ok(triangles) => triangles,
                Err(_) => unreached(),
            },
            Err(_) => unreached(),
        }
    }
}

} // verus!
