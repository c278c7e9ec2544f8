//! Procedural meshes for a sphere made from a cube, in 8.24 fixed-point
//! arithmetic.
//!
//! The pipeline builds a cube of six quads, splits every quad in four as
//! often as wanted, projects the vertices onto the unit sphere and cuts each
//! quad into two triangles along its shorter diagonal:
//! `QuadMesh::new_cube`, `QuadMesh::subdivide`, `QuadMesh::to_sphere`,
//! `QuadMesh::triangulate`, or all of it at once in `Mesh::new_cubesphere`.
//!
//! A scalar counts units of 2^-24. Interpolation rounds down by less than
//! one unit; projection is accurate to two units in each coordinate and
//! four in length, and a second projection moves a position by less than
//! seven: all well within a millionth, which is sixteen units.
//!
//! Every function states what it returns over a mathematical view of the
//! meshes (`QuadMeshView`, `MeshView`). The modules `topology`, `winding` and
//! `sphere` prove what follows for whole meshes: how many quads, vertices and
//! triangles there are, that faces keep their orientation, and that
//! projecting twice is projecting once up to a few units of rounding.

pub mod cube;
pub mod fixed;
pub mod mesh;
pub mod quad_mesh;
pub mod sphere;
pub mod topology;
pub mod vertex;
pub mod winding;
