use cubesphere::fixed::{HALF, ONE};
use cubesphere::vertex::Vertex;

fn vertex(pos: (i32, i32, i32), layer: u16) -> Vertex {
    Vertex { pos, color: (ONE, 0, HALF), tex_pos: (0, ONE), tex_layer: layer }
}

#[test]
fn lerp_midpoint_is_the_mean_of_the_positions() {
    let a = vertex((0, 0, 0), 3);
    let b = vertex((2 * ONE, -4 * ONE, 6), 3);
    let m = Vertex::lerp(a, b, HALF);
    assert_eq!(m.pos, (ONE, -2 * ONE, 3));
    assert_eq!(m.tex_layer, 3);
}

#[test]
fn lerp_midpoint_rounds_the_mean_down() {
    let a = vertex((3, -3, 1), 0);
    let b = vertex((4, -4, 0), 0);
    let m = Vertex::lerp(a, b, HALF);
    assert_eq!(m.pos, (3, -4, 0));
    for (p, q, r) in [(a.pos.0, b.pos.0, m.pos.0), (a.pos.1, b.pos.1, m.pos.1), (a.pos.2, b.pos.2, m.pos.2)] {
        assert!(2 * r <= p + q && p + q <= 2 * r + 1);
    }
}

#[test]
fn lerp_blends_every_field() {
    let a = Vertex { pos: (ONE, ONE, ONE), color: (ONE, 0, 0), tex_pos: (ONE, 0), tex_layer: 2 };
    let b = Vertex { pos: (-ONE, ONE, 0), color: (0, ONE, 0), tex_pos: (0, ONE), tex_layer: 2 };
    let quarter = Vertex::lerp(a, b, ONE / 4);
    assert_eq!(quarter.pos, (-HALF, ONE, ONE / 4));
    assert_eq!(quarter.color, (ONE / 4, 3 * ONE / 4, 0));
    assert_eq!(quarter.tex_pos, (ONE / 4, 3 * ONE / 4));
    assert_eq!(quarter.tex_layer, 2);
}

#[test]
fn lerp_with_weight_one_is_the_first_vertex() {
    let a = vertex((5, 6, 7), 1);
    let b = Vertex { pos: (-9, 0, 11), color: (1, 2, 3), tex_pos: (4, 5), tex_layer: 1 };
    assert_eq!(Vertex::lerp(a, b, ONE), a);
    assert_eq!(Vertex::lerp(a, b, 0), b);
}

#[test]
fn lerp_of_a_vertex_with_itself_is_that_vertex() {
    let a = vertex((19661, -ONE, 3), 4);
    assert_eq!(Vertex::lerp(a, a, HALF), a);
    assert_eq!(Vertex::lerp(a, a, 12345), a);
}
