use cgmath::{Deg, Matrix4, Transform, Vector3};
use cubesphere::fixed::{HALF, MILLIONTH, ONE};
use cubesphere::mesh::MeshError;
use cubesphere::cube::DIM;
use cubesphere::quad_mesh::QuadMesh;
use cubesphere::vertex::{distance_squared, Vertex};

fn flat(x: i32, y: i32, z: i32) -> Vertex {
    Vertex { pos: (x, y, z), color: (ONE, ONE, ONE), tex_pos: (0, 0), tex_layer: 0 }
}

fn single_quad(corners: [(i32, i32, i32); 4]) -> QuadMesh {
    QuadMesh {
        vertex_data: corners.iter().map(|&(x, y, z)| flat(x, y, z)).collect(),
        index_data: vec![(0, 1, 2, 3)],
    }
}

fn round_to_fixed(value: f32) -> i32 {
    (value as f64 * ONE as f64).round() as i32
}

#[test]
fn new_cube_has_six_quads_on_six_layers() {
    let cube = QuadMesh::new_cube();
    assert_eq!(cube.index_data.len(), 6);
    assert_eq!(cube.vertex_data.len(), 24);
    for (face, q) in cube.index_data.iter().enumerate() {
        assert_eq!(*q, (4 * face, 4 * face + 1, 4 * face + 2, 4 * face + 3));
        for index in [q.0, q.1, q.2, q.3] {
            assert_eq!(cube.vertex_data[index].tex_layer as usize, face);
        }
    }
    let mut layers: Vec<u16> = cube.index_data.iter().map(|q| cube.vertex_data[q.0].tex_layer).collect();
    layers.sort();
    assert_eq!(layers, vec![0, 1, 2, 3, 4, 5]);
    assert!(cube.is_well_formed());
    assert!(cube.is_layered());
}

#[test]
fn new_cube_first_face_is_the_proto_face() {
    let cube = QuadMesh::new_cube();
    let positions: Vec<(i32, i32, i32)> = cube.vertex_data[0..4].iter().map(|v| v.pos).collect();
    assert_eq!(positions, vec![(ONE, ONE, ONE), (-ONE, ONE, ONE), (-ONE, -ONE, ONE), (ONE, -ONE, ONE)]);
    let tex: Vec<(i32, i32)> = cube.vertex_data[0..4].iter().map(|v| v.tex_pos).collect();
    assert_eq!(tex, vec![(ONE, ONE), (0, ONE), (0, 0), (ONE, 0)]);
}

#[test]
fn new_cube_faces_have_their_colours() {
    let cube = QuadMesh::new_cube();
    let expected = [
        (ONE, DIM, DIM),
        (DIM, ONE, DIM),
        (DIM, DIM, ONE),
        (ONE, ONE, DIM),
        (ONE, DIM, ONE),
        (DIM, ONE, ONE),
    ];
    assert_eq!(DIM, 5033165);
    for (j, v) in cube.vertex_data.iter().enumerate() {
        assert_eq!(v.color, expected[j / 4]);
    }
}

#[test]
fn new_cube_faces_are_the_rotations_of_the_first() {
    let rotations: [Matrix4<f32>; 6] = [
        Matrix4::from_angle_y(Deg(0.0)),
        Matrix4::from_angle_y(Deg(90.0)),
        Matrix4::from_angle_y(Deg(180.0)),
        Matrix4::from_angle_y(Deg(270.0)),
        Matrix4::from_angle_x(Deg(90.0)),
        Matrix4::from_angle_x(Deg(270.0)),
    ];
    let proto = [
        Vector3::new(1.0f32, 1.0, 1.0),
        Vector3::new(-1.0, 1.0, 1.0),
        Vector3::new(-1.0, -1.0, 1.0),
        Vector3::new(1.0, -1.0, 1.0),
    ];
    let cube = QuadMesh::new_cube();
    for face in 0..6 {
        for corner in 0..4 {
            let turned = rotations[face].transform_vector(proto[corner]);
            let expected = (round_to_fixed(turned.x), round_to_fixed(turned.y), round_to_fixed(turned.z));
            let pos = cube.vertex_data[4 * face + corner].pos;
            assert!((pos.0 - expected.0).abs() <= MILLIONTH);
            assert!((pos.1 - expected.1).abs() <= MILLIONTH);
            assert!((pos.2 - expected.2).abs() <= MILLIONTH);
        }
    }
}

#[test]
fn new_cube_corners_are_the_corners_of_the_cube() {
    let cube = QuadMesh::new_cube();
    for v in &cube.vertex_data {
        assert_eq!(v.pos.0.abs(), ONE);
        assert_eq!(v.pos.1.abs(), ONE);
        assert_eq!(v.pos.2.abs(), ONE);
    }
    let mut corners: Vec<(i32, i32, i32)> = cube.vertex_data.iter().map(|v| v.pos).collect();
    corners.sort();
    corners.dedup();
    assert_eq!(corners.len(), 8);
}

#[test]
fn new_cube_faces_wind_counter_clockwise_from_outside() {
    let cube = QuadMesh::new_cube();
    for q in &cube.index_data {
        let a = cube.vertex_data[q.0].pos;
        let b = cube.vertex_data[q.1].pos;
        let c = cube.vertex_data[q.2].pos;
        let d = cube.vertex_data[q.3].pos;
        let u = ((b.0 - a.0) as i128, (b.1 - a.1) as i128, (b.2 - a.2) as i128);
        let v = ((d.0 - a.0) as i128, (d.1 - a.1) as i128, (d.2 - a.2) as i128);
        let normal = (u.1 * v.2 - u.2 * v.1, u.2 * v.0 - u.0 * v.2, u.0 * v.1 - u.1 * v.0);
        let centre = (
            (a.0 + b.0 + c.0 + d.0) as i128,
            (a.1 + b.1 + c.1 + d.1) as i128,
            (a.2 + b.2 + c.2 + d.2) as i128,
        );
        assert!(normal.0 * centre.0 + normal.1 * centre.1 + normal.2 * centre.2 > 0);
    }
}

#[test]
fn subdivide_cube_once() {
    let once = QuadMesh::new_cube().subdivide();
    assert_eq!(once.index_data.len(), 24);
    assert_eq!(once.vertex_data.len(), 54);
    for q in &once.index_data {
        for index in [q.0, q.1, q.2, q.3] {
            assert!(index < 54);
        }
    }
    assert!(once.is_well_formed());
    assert!(once.is_layered());
}

#[test]
fn subdivide_keeps_the_old_vertices_and_appends_five_for_each_quad() {
    let cube = QuadMesh::new_cube();
    let once = cube.subdivide();
    assert_eq!(&once.vertex_data[0..24], &cube.vertex_data[..]);
    let fresh: Vec<(i32, i32, i32)> = once.vertex_data[24..29].iter().map(|v| v.pos).collect();
    assert_eq!(fresh, vec![(0, ONE, ONE), (-ONE, 0, ONE), (0, -ONE, ONE), (ONE, 0, ONE), (0, 0, ONE)]);
    let tex: Vec<(i32, i32)> = once.vertex_data[24..29].iter().map(|v| v.tex_pos).collect();
    assert_eq!(tex, vec![(HALF, ONE), (0, HALF), (HALF, 0), (ONE, HALF), (HALF, HALF)]);
    for v in &once.vertex_data[24..29] {
        assert_eq!(v.color, (ONE, DIM, DIM));
        assert_eq!(v.tex_layer, 0);
    }
}

#[test]
fn subdivide_emits_four_children_in_winding_order() {
    let once = QuadMesh::new_cube().subdivide();
    assert_eq!(once.index_data[0], (0, 24, 28, 27));
    assert_eq!(once.index_data[1], (24, 1, 25, 28));
    assert_eq!(once.index_data[2], (28, 25, 2, 26));
    assert_eq!(once.index_data[3], (27, 28, 26, 3));
    assert_eq!(once.index_data[4], (4, 29, 33, 32));
    assert_eq!(once.index_data[23], (52, 53, 51, 23));
}

#[test]
fn subdivide_does_not_merge_midpoints_of_shared_edges() {
    let once = QuadMesh::new_cube().subdivide();
    let mut positions: Vec<(i32, i32, i32)> = once.vertex_data.iter().map(|v| v.pos).collect();
    positions.sort();
    positions.dedup();
    assert_eq!(positions.len(), 26);
    assert_eq!(once.vertex_data.len(), 54);
}

#[test]
fn subdivide_repeatedly_multiplies_the_quads_by_four() {
    let mut mesh = QuadMesh::new_cube();
    let mut quads = 6;
    let mut vertices = 24;
    for _ in 0..5 {
        mesh = mesh.subdivide();
        vertices += 5 * quads;
        quads *= 4;
        assert_eq!(mesh.index_data.len(), quads);
        assert_eq!(mesh.vertex_data.len(), vertices);
        for q in &mesh.index_data {
            let mut corners = vec![q.0, q.1, q.2, q.3];
            corners.sort();
            corners.dedup();
            assert_eq!(corners.len(), 4);
            assert!(corners[3] < vertices);
        }
    }
    assert_eq!(quads, 6 * 1024);
}

#[test]
fn subdivide_a_quad_with_a_repeated_corner_gives_distinct_corners() {
    let mesh = QuadMesh {
        vertex_data: vec![flat(0, 0, 0), flat(ONE, 0, 0)],
        index_data: vec![(0, 1, 1, 0)],
    };
    let once = mesh.subdivide();
    assert_eq!(once.index_data, vec![(0, 2, 6, 5), (2, 1, 3, 6), (6, 3, 1, 4), (5, 6, 4, 0)]);
    assert_eq!(once.vertex_data.len(), 7);
}

#[test]
fn subdivide_an_empty_mesh() {
    let mesh = QuadMesh { vertex_data: vec![flat(1, 2, 3)], index_data: vec![] };
    let once = mesh.subdivide();
    assert_eq!(once.vertex_data, vec![flat(1, 2, 3)]);
    assert!(once.index_data.is_empty());
}

#[test]
fn is_well_formed_finds_an_index_outside_the_pool() {
    let mut mesh = single_quad([(0, 0, 0), (ONE, 0, 0), (ONE, ONE, 0), (0, ONE, 0)]);
    assert!(mesh.is_well_formed());
    mesh.index_data.push((0, 1, 2, 4));
    assert!(!mesh.is_well_formed());
}

#[test]
fn is_layered_finds_a_quad_across_layers() {
    let mut mesh = single_quad([(0, 0, 0), (ONE, 0, 0), (ONE, ONE, 0), (0, ONE, 0)]);
    assert!(mesh.is_layered());
    mesh.vertex_data[2].tex_layer = 1;
    assert!(!mesh.is_layered());
}

#[test]
fn to_sphere_puts_every_vertex_on_the_unit_sphere() {
    let mesh = QuadMesh::new_cube().subdivide().subdivide();
    let sphere = mesh.to_sphere().unwrap();
    assert_eq!(sphere.index_data, mesh.index_data);
    assert_eq!(sphere.vertex_data.len(), mesh.vertex_data.len());
    for (before, after) in mesh.vertex_data.iter().zip(sphere.vertex_data.iter()) {
        assert_eq!(after.color, before.color);
        assert_eq!(after.tex_pos, before.tex_pos);
        assert_eq!(after.tex_layer, before.tex_layer);
        let (x, y, z) = (after.pos.0 as f64 / ONE as f64,
            after.pos.1 as f64 / ONE as f64,
            after.pos.2 as f64 / ONE as f64,
        );
        assert!(((x * x + y * y + z * z).sqrt() - 1.0).abs() < 1e-6);
        let (bx, by, bz) = (before.pos.0 as f64, before.pos.1 as f64, before.pos.2 as f64);
        let length = (bx * bx + by * by + bz * bz).sqrt();
        assert!((x - bx / length).abs() < 1e-6);
        assert!((y - by / length).abs() < 1e-6);
        assert!((z - bz / length).abs() < 1e-6);
    }
}

#[test]
fn to_sphere_of_the_cube_corners() {
    let sphere = QuadMesh::new_cube().to_sphere().unwrap();
    assert_eq!(sphere.vertex_data[0].pos, (9686330, 9686330, 9686330));
    assert_eq!(sphere.vertex_data[2].pos, (-9686330, -9686330, 9686330));
}

#[test]
fn to_sphere_twice_is_to_sphere_once_within_tolerance() {
    let once = QuadMesh::new_cube().subdivide().subdivide().subdivide().to_sphere().unwrap();
    let twice = once.to_sphere().unwrap();
    assert_eq!(twice.index_data, once.index_data);
    for (a, b) in once.vertex_data.iter().zip(twice.vertex_data.iter()) {
        assert!((a.pos.0 - b.pos.0).abs() <= 4);
        assert!((a.pos.1 - b.pos.1).abs() <= 4);
        assert!((a.pos.2 - b.pos.2).abs() <= 4);
        let moved = distance_squared(a.pos, b.pos) as f64;
        assert!(moved.sqrt() / (ONE as f64) < 1e-6);
        assert_eq!((a.color, a.tex_pos, a.tex_layer), (b.color, b.tex_pos, b.tex_layer));
    }
}

#[test]
fn to_sphere_rejects_a_vertex_at_the_origin() {
    let mesh = single_quad([(0, 0, 0), (ONE, 0, 0), (ONE, ONE, 0), (0, ONE, 0)]);
    assert_eq!(mesh.to_sphere(), Err(MeshError::ZeroLengthPosition));
    let unused = QuadMesh { vertex_data: vec![flat(1, 0, 0), flat(0, 0, 0)], index_data: vec![] };
    assert_eq!(unused.to_sphere(), Err(MeshError::ZeroLengthPosition));
}

#[test]
fn triangulate_cuts_along_the_first_diagonal_when_it_is_shorter() {
    let mesh = single_quad([(0, 0, 0), (2 * ONE, -ONE, 0), (ONE, 0, 0), (2 * ONE, ONE, 0)]);
    let triangles = mesh.triangulate().unwrap();
    assert_eq!(triangles.index_data, vec![0, 1, 2, 2, 3, 0]);
    assert_eq!(triangles.vertex_data, mesh.vertex_data);
}

#[test]
fn triangulate_cuts_along_the_second_diagonal_when_the_first_is_longer() {
    let mesh = single_quad([(0, 0, 0), (2 * ONE, -ONE, 0), (5 * ONE, 0, 0), (2 * ONE, ONE, 0)]);
    let triangles = mesh.triangulate().unwrap();
    assert_eq!(triangles.index_data, vec![0, 1, 3, 3, 1, 2]);
}

#[test]
fn triangulate_square_tie_cuts_along_the_first_diagonal() {
    let mesh = single_quad([(0, 0, 0), (ONE, 0, 0), (ONE, ONE, 0), (0, ONE, 0)]);
    let triangles = mesh.triangulate().unwrap();
    assert_eq!(triangles.index_data, vec![0, 1, 2, 2, 3, 0]);
    assert_eq!(mesh.triangulate().unwrap(), triangles);
}

#[test]
fn triangulate_decides_by_one_unit() {
    let longer = single_quad([(0, 0, 0), (0, -ONE, 0), (2 * ONE + 1, 0, 0), (0, ONE, 0)]);
    assert_eq!(longer.triangulate().unwrap().index_data, vec![0, 1, 3, 3, 1, 2]);
    let shorter = single_quad([(0, 0, 0), (0, -ONE, 0), (2 * ONE - 1, 0, 0), (0, ONE, 0)]);
    assert_eq!(shorter.triangulate().unwrap().index_data, vec![0, 1, 2, 2, 3, 0]);
}

#[test]
fn triangulate_gives_two_triangles_for_each_quad() {
    let mesh = QuadMesh::new_cube().subdivide().subdivide();
    let triangles = mesh.triangulate().unwrap();
    assert_eq!(triangles.index_data.len(), 6 * mesh.index_data.len());
    assert_eq!(triangles.vertex_data, mesh.vertex_data);
    for index in &triangles.index_data {
        assert!((*index as usize) < mesh.vertex_data.len());
    }
}

#[test]
fn triangulate_keeps_the_winding_of_every_quad() {
    let mesh = QuadMesh::new_cube().subdivide().subdivide().to_sphere().unwrap();
    let triangles = mesh.triangulate().unwrap();
    for (i, q) in mesh.index_data.iter().enumerate() {
        let corners = [q.0, q.1, q.2, q.3];
        for t in 0..2 {
            let triangle: Vec<usize> = (0..3).map(|s| triangles.index_data[6 * i + 3 * t + s] as usize).collect();
            let places: Vec<usize> = triangle.iter().map(|v| corners.iter().position(|c| c == v).unwrap()).collect();
            let rising = (0..3).filter(|&s| places[s] < places[(s + 1) % 3]).count();
            assert_eq!(rising, 2);
            let p: Vec<(i128, i128, i128)> = triangle
                .iter()
                .map(|&v| {
                    let pos = mesh.vertex_data[v].pos;
                    (pos.0 as i128, pos.1 as i128, pos.2 as i128)
                })
                .collect();
            let u = (p[1].0 - p[0].0, p[1].1 - p[0].1, p[1].2 - p[0].2);
            let v = (p[2].0 - p[0].0, p[2].1 - p[0].1, p[2].2 - p[0].2);
            let normal = (u.1 * v.2 - u.2 * v.1, u.2 * v.0 - u.0 * v.2, u.0 * v.1 - u.1 * v.0);
            let centre = (p[0].0 + p[1].0 + p[2].0, p[0].1 + p[1].1 + p[2].1, p[0].2 + p[1].2 + p[2].2);
            assert!(normal.0 * centre.0 + normal.1 * centre.1 + normal.2 * centre.2 > 0);
        }
    }
}

#[test]
fn triangulate_rejects_a_pool_too_large_for_the_indices() {
    let mut mesh = QuadMesh { vertex_data: vec![flat(1, 0, 0); 65535], index_data: vec![(0, 1, 2, 65534)] };
    assert_eq!(mesh.triangulate().unwrap().index_data, vec![0, 1, 2, 2, 65534, 0]);
    mesh.vertex_data.push(flat(1, 0, 0));
    assert_eq!(mesh.triangulate(), Err(MeshError::IndexOverflow));
}

#[test]
fn triangulate_an_empty_mesh() {
    let mesh = QuadMesh { vertex_data: vec![], index_data: vec![] };
    let triangles = mesh.triangulate().unwrap();
    assert!(triangles.vertex_data.is_empty());
    assert!(triangles.index_data.is_empty());
}

#[test]
fn to_sphere_of_two_loose_vertices() {
    let mesh = QuadMesh {
        vertex_data: vec![
            Vertex { pos: (0, 0, 2 * ONE), color: (ONE, DIM, DIM), tex_pos: (ONE, ONE), tex_layer: 0 },
            Vertex { pos: (3 * ONE, 0, -4 * ONE), color: (DIM, ONE, DIM), tex_pos: (0, ONE), tex_layer: 1 },
        ],
        index_data: vec![],
    };
    let sphere = mesh.to_sphere().unwrap();
    assert!(sphere.index_data.is_empty());
    assert_eq!(sphere.vertex_data[0].pos, (0, 0, ONE));
    assert_eq!(sphere.vertex_data[1].pos, (10066329, 0, -13421772));
    let expected = [(0.0, 0.0, 1.0), (0.6, 0.0, -0.8)];
    for (v, e) in sphere.vertex_data.iter().zip(expected.iter()) {
        assert!((v.pos.0 as f64 / ONE as f64 - e.0).abs() < 1e-6);
        assert!((v.pos.1 as f64 / ONE as f64 - e.1).abs() < 1e-6);
        assert!((v.pos.2 as f64 / ONE as f64 - e.2).abs() < 1e-6);
    }
    for (before, after) in mesh.vertex_data.iter().zip(sphere.vertex_data.iter()) {
        assert_eq!((after.color, after.tex_pos, after.tex_layer), (before.color, before.tex_pos, before.tex_layer));
    }
}

#[test]
fn to_sphere_of_the_cube_is_within_a_millionth_of_the_exact_corners() {
    let cube = QuadMesh::new_cube();
    let sphere = cube.to_sphere().unwrap();
    assert_eq!(sphere.vertex_data.len(), 24);
    assert_eq!(sphere.index_data, cube.index_data);
    for (before, after) in cube.vertex_data.iter().zip(sphere.vertex_data.iter()) {
        for (b, a) in [(before.pos.0, after.pos.0), (before.pos.1, after.pos.1), (before.pos.2, after.pos.2)] {
            assert!(((a as f64 / ONE as f64).abs() - 0.57735027).abs() <= 1e-6);
            assert_eq!(a.signum(), b.signum());
        }
    }
}

#[test]
fn subdivide_centre_is_the_mean_of_the_four_corners() {
    let mesh = single_quad([(0, 0, 0), (0, 0, 3), (0, 0, 0), (1, 0, 0)]);
    let once = mesh.subdivide();
    let centre = once.vertex_data[8].pos;
    assert_eq!(centre, (0, 0, 0));
    let corners: Vec<(i32, i32, i32)> = mesh.vertex_data.iter().map(|v| v.pos).collect();
    let sums = (
        corners.iter().map(|p| p.0).sum::<i32>(),
        corners.iter().map(|p| p.1).sum::<i32>(),
        corners.iter().map(|p| p.2).sum::<i32>(),
    );
    for (c, s) in [(centre.0, sums.0), (centre.1, sums.1), (centre.2, sums.2)] {
        assert!(4 * c <= s && s <= 4 * c + 4);
        assert!((s as f64 / 4.0 - c as f64) / (ONE as f64) < 1e-6);
    }
    let cube = QuadMesh::new_cube().subdivide();
    assert_eq!(cube.vertex_data[28].pos, (0, 0, ONE));
}
