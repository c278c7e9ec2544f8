use cubesphere::fixed::{HALF, ONE};
use cubesphere::mesh::{Mesh, MeshError};
use cubesphere::quad_mesh::QuadMesh;
use cubesphere::vertex::Vertex;
use genmesh::generators::{IcoSphere, IndexedPolygon, SharedVertex};

fn white(pos: (i32, i32, i32)) -> Vertex {
    Vertex { pos, color: (ONE, ONE, ONE), tex_pos: (HALF, HALF), tex_layer: 0 }
}

fn icosphere_positions(subdivides: usize) -> Vec<(i32, i32, i32)> {
    IcoSphere::subdivide(subdivides)
        .shared_vertex_iter()
        .map(|v| {
            (
                (v.pos.x as f64 * ONE as f64).round() as i32,
                (v.pos.y as f64 * ONE as f64).round() as i32,
                (v.pos.z as f64 * ONE as f64).round() as i32,
            )
        })
        .collect()
}

#[test]
fn new_cubesphere_has_the_counts_of_four_rounds() {
    let sphere = Mesh::new_cubesphere();
    assert_eq!(sphere.vertex_data.len(), 2574);
    assert_eq!(sphere.index_data.len(), 9216);
    for index in &sphere.index_data {
        assert!((*index as usize) < 2574);
    }
}

#[test]
fn new_cubesphere_is_the_pipeline() {
    let mut mesh = QuadMesh::new_cube();
    for _ in 0..4 {
        mesh = mesh.subdivide();
    }
    assert_eq!(mesh.index_data.len(), 1536);
    let expected = mesh.to_sphere().unwrap().triangulate().unwrap();
    assert_eq!(Mesh::new_cubesphere(), expected);
}

#[test]
fn new_cubesphere_lies_on_the_unit_sphere() {
    let sphere = Mesh::new_cubesphere();
    for v in &sphere.vertex_data {
        let (x, y, z) =
            (v.pos.0 as f64 / ONE as f64, v.pos.1 as f64 / ONE as f64, v.pos.2 as f64 / ONE as f64);
        assert!(((x * x + y * y + z * z).sqrt() - 1.0).abs() < 1e-6);
        assert!(v.tex_layer < 6);
    }
}

#[test]
fn new_cubesphere_faces_outward() {
    let sphere = Mesh::new_cubesphere();
    for t in sphere.index_data.chunks(3) {
        let p: Vec<(i128, i128, i128)> = t
            .iter()
            .map(|&i| {
                let pos = sphere.vertex_data[i as usize].pos;
                (pos.0 as i128, pos.1 as i128, pos.2 as i128)
            })
            .collect();
        let u = (p[1].0 - p[0].0, p[1].1 - p[0].1, p[1].2 - p[0].2);
        let v = (p[2].0 - p[0].0, p[2].1 - p[0].1, p[2].2 - p[0].2);
        let normal = (u.1 * v.2 - u.2 * v.1, u.2 * v.0 - u.0 * v.2, u.0 * v.1 - u.1 * v.0);
        assert!(normal.0 * p[0].0 + normal.1 * p[0].1 + normal.2 * p[0].2 > 0);
    }
}

#[test]
fn new_plane_is_two_triangles_over_four_corners() {
    let colors = [(ONE, 0, 0), (ONE, 273, 0), (ONE, 546, 0), (ONE, 819, 0)];
    let plane = Mesh::new_plane(&colors);
    assert_eq!(plane.index_data, vec![0, 1, 3, 1, 3, 2]);
    let expected = vec![
        Vertex { pos: (ONE, -ONE, 0), color: colors[0], tex_pos: (ONE, 0), tex_layer: 0 },
        Vertex { pos: (ONE, ONE, 0), color: colors[1], tex_pos: (ONE, ONE), tex_layer: 0 },
        Vertex { pos: (-ONE, ONE, 0), color: colors[2], tex_pos: (0, ONE), tex_layer: 0 },
        Vertex { pos: (-ONE, -ONE, 0), color: colors[3], tex_pos: (0, 0), tex_layer: 0 },
    ];
    assert_eq!(plane.vertex_data, expected);
}

#[test]
fn from_triangles_flattens_the_faces() {
    let vertices = vec![white((ONE, 0, 0)), white((0, ONE, 0)), white((0, 0, ONE)), white((0, 0, -ONE))];
    let faces = vec![(0, 1, 2), (1, 0, 3), (3, 3, 3)];
    let mesh = Mesh::from_triangles(vertices.clone(), &faces).unwrap();
    assert_eq!(mesh.index_data, vec![0, 1, 2, 1, 0, 3, 3, 3, 3]);
    assert_eq!(mesh.vertex_data, vertices);
}

#[test]
fn from_triangles_rejects_an_index_outside_the_buffer() {
    let vertices = vec![white((ONE, 0, 0)), white((0, ONE, 0)), white((0, 0, ONE))];
    assert_eq!(Mesh::from_triangles(vertices.clone(), &vec![(0, 1, 2), (0, 1, 3)]), Err(MeshError::IndexOutOfRange));
    assert_eq!(Mesh::from_triangles(vertices.clone(), &vec![(3, 1, 2)]), Err(MeshError::IndexOutOfRange));
    assert_eq!(Mesh::from_triangles(vertices, &vec![(0, usize::MAX, 2)]), Err(MeshError::IndexOutOfRange));
    assert_eq!(Mesh::from_triangles(vec![], &vec![(0, 0, 0)]), Err(MeshError::IndexOutOfRange));
}

#[test]
fn from_triangles_rejects_a_buffer_too_large_for_the_indices() {
    let vertices = vec![white((ONE, 0, 0)); 65536];
    assert_eq!(Mesh::from_triangles(vertices.clone(), &vec![]), Err(MeshError::IndexOverflow));
    assert_eq!(Mesh::from_triangles(vertices, &vec![(0, 0, 70000)]), Err(MeshError::IndexOverflow));
    let most = vec![white((ONE, 0, 0)); 65535];
    assert_eq!(Mesh::from_triangles(most, &vec![(0, 1, 65534)]).unwrap().index_data, vec![0, 1, 65534]);
}

#[test]
fn new_icosphere_has_the_faces_of_four_rounds() {
    let positions = icosphere_positions(4);
    assert_eq!(positions.len(), 2562);
    let sphere = Mesh::new_icosphere(&positions).unwrap();
    assert_eq!(sphere.index_data.len(), 3 * 20 * 256);
    assert_eq!(sphere.vertex_data.len(), 2562);
    for (v, p) in sphere.vertex_data.iter().zip(positions.iter()) {
        assert_eq!(*v, white(*p));
    }
    assert_eq!(&sphere.index_data[0..3], &[0, 642, 644]);
    let mut used = vec![false; 2562];
    for index in &sphere.index_data {
        used[*index as usize] = true;
    }
    assert!(used.iter().all(|u| *u));
}

#[test]
fn new_icosphere_faces_are_the_generator_s() {
    let positions = icosphere_positions(4);
    let sphere = Mesh::new_icosphere(&positions).unwrap();
    let expected: Vec<u16> = IcoSphere::subdivide(4)
        .indexed_polygon_iter()
        .flat_map(|t| vec![t.x as u16, t.y as u16, t.z as u16])
        .collect();
    assert_eq!(sphere.index_data, expected);
}

#[test]
fn new_icosphere_rejects_positions_of_another_sphere() {
    let positions = icosphere_positions(3);
    assert_eq!(Mesh::new_icosphere(&positions), Err(MeshError::IndexOutOfRange));
    assert_eq!(Mesh::new_icosphere(&vec![]), Err(MeshError::IndexOutOfRange));
    let many = vec![(ONE, 0, 0); 65536];
    assert_eq!(Mesh::new_icosphere(&many), Err(MeshError::IndexOverflow));
}

#[test]
fn new_cubesphere_starts_with_the_projected_cube() {
    let sphere = Mesh::new_cubesphere();
    for (i, v) in sphere.vertex_data[0..24].iter().enumerate() {
        assert_eq!(v.tex_layer as usize, i / 4);
        for c in [v.pos.0, v.pos.1, v.pos.2] {
            assert_eq!(c.abs(), 9686330);
            assert!(((c as f64 / ONE as f64).abs() - 0.57735027).abs() <= 1e-6);
        }
    }
}

#[test]
fn new_cubesphere_keeps_each_layer_together() {
    let sphere = Mesh::new_cubesphere();
    for (t, triangle) in sphere.index_data.chunks(3).enumerate() {
        for index in triangle {
            assert_eq!(sphere.vertex_data[*index as usize].tex_layer as usize, t / 512);
        }
    }
}
