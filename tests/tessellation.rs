use paper_garden::geometry::{cos_turns, isqrt, screen_to_gl, sin_turns, Vec2, Vec2i, ONE};
use paper_garden::mesh_builder::{DefaultVertex, Mesh, MeshBuilder, Vertex, VertexLayout};
use paper_garden::geometry::Vec3;
use paper_garden::paper::{Color, Paper, PaperVertex};

fn red() -> Color {
    Color::new(255, 0, 0, 255)
}

fn stroke_len(points: &[Vec2], thickness: i64) -> usize {
    let mut paper = Paper::new(1);
    paper.build_line(points, thickness, red());
    paper.verts().len()
}

#[test]
fn stroke_of_two_points_has_body_and_two_caps() {
    let pts = [Vec2::new(0, 0), Vec2::new(ONE, 0)];
    assert_eq!(stroke_len(&pts, ONE / 10), 6 + 2 * 24);
}

#[test]
fn stroke_shallow_turn_adds_three_triangles() {
    let pts = [Vec2::new(0, 0), Vec2::new(ONE, 0), Vec2::new(2 * ONE, ONE / 10)];
    assert_eq!(stroke_len(&pts, ONE / 10), 6 * 2 + 48 + 9);
}

#[test]
fn stroke_sharp_turn_adds_six_triangles() {
    let pts = [Vec2::new(0, 0), Vec2::new(ONE, 0), Vec2::new(0, ONE / 10)];
    assert_eq!(stroke_len(&pts, ONE / 10), 6 * 2 + 48 + 18);
}

#[test]
fn stroke_right_angle_counts_as_sharp() {
    let pts = [Vec2::new(0, 0), Vec2::new(ONE, 0), Vec2::new(ONE, ONE)];
    assert_eq!(stroke_len(&pts, ONE / 10), 6 * 2 + 48 + 18);
}

#[test]
fn stroke_count_mixes_turns() {
    let pts = [
        Vec2::new(0, 0),
        Vec2::new(ONE, 0),
        Vec2::new(2 * ONE, ONE / 10),
        Vec2::new(ONE, ONE / 5),
        Vec2::new(ONE, ONE),
    ];
    // shallow, sharp, shallow
    assert_eq!(stroke_len(&pts, ONE / 10), 6 * 4 + 48 + 9 + 18 + 9);
}

#[test]
fn stroke_segment_body_is_offset_by_half_thickness() {
    let mut paper = Paper::new(1);
    let pts = [Vec2::new(0, 0), Vec2::new(ONE, 0)];
    paper.build_line(&pts, 2000, red());
    let v = paper.verts();
    // normal of a segment along x is +y; half thickness 1000
    assert_eq!(v[0].pos, Vec2::new(0, 1000));
    assert_eq!(v[1].pos, Vec2::new(0, -1000));
    assert_eq!(v[2].pos, Vec2::new(ONE, -1000));
    assert_eq!(v[3].pos, Vec2::new(0, 1000));
    assert_eq!(v[4].pos, Vec2::new(ONE, -1000));
    assert_eq!(v[5].pos, Vec2::new(ONE, 1000));
    // every cap triangle starts at the end point it closes
    assert_eq!(v[6].pos, Vec2::new(0, 0));
    assert_eq!(v[6 + 24].pos, Vec2::new(ONE, 0));
    for t in v.iter() {
        assert_eq!(t.color, red());
    }
}

#[test]
fn stroke_cap_rim_lies_at_half_thickness() {
    let mut paper = Paper::new(1);
    let pts = [Vec2::new(0, 0), Vec2::new(ONE, 0)];
    paper.build_line(&pts, 20000, red());
    let v = paper.verts();
    for k in 0..16 {
        let apex = v[6 + 3 * k].pos;
        let rim = v[6 + 3 * k + 1].pos;
        let dx = (rim.x - apex.x) as f64;
        let dy = (rim.y - apex.y) as f64;
        let d = (dx * dx + dy * dy).sqrt();
        assert!((d - 10000.0).abs() <= 2.0, "rim at {}", d);
    }
}

#[test]
fn oval_has_102_vertices_on_its_ellipse() {
    let mut paper = Paper::new(1);
    let center = Vec2::new(3 * ONE, -2 * ONE);
    let rx = 2 * ONE;
    let ry = ONE / 2;
    paper.build_oval(center, Vec2::new(rx, ry), red());
    let v = paper.verts();
    assert_eq!(v.len(), 34 * 3);
    for p in v.iter() {
        let x = (p.pos.x - center.x) as f64 / rx as f64;
        let y = (p.pos.y - center.y) as f64 / ry as f64;
        let e = x * x + y * y;
        assert!((e - 1.0).abs() < 1e-4, "ellipse equation gives {}", e);
    }
}

#[test]
fn circle_vertices_lie_at_its_radius() {
    let mut paper = Paper::new(1);
    let center = Vec2::new(ONE, ONE);
    paper.build_circle(center, ONE / 2, red());
    for p in paper.verts().iter() {
        let dx = (p.pos.x - center.x) as f64;
        let dy = (p.pos.y - center.y) as f64;
        let d = (dx * dx + dy * dy).sqrt() / ONE as f64;
        assert!((d - 0.5).abs() < 1e-4, "distance {}", d);
    }
    // the sample at 30 degrees
    assert_eq!(paper.verts()[7].pos, Vec2::new(ONE + 28378, ONE + 16384));
}

#[test]
fn short_segment_is_offset_by_half_thickness() {
    let mut paper = Paper::new(1);
    let pts = [Vec2::new(0, 0), Vec2::new(1, 1)];
    paper.build_line(&pts, 2 * ONE, red());
    let v = paper.verts();
    for (k, end) in [(0, pts[0]), (1, pts[0]), (2, pts[1]), (5, pts[1])] {
        let dx = (v[k].pos.x - end.x) as f64;
        let dy = (v[k].pos.y - end.y) as f64;
        let d = (dx * dx + dy * dy).sqrt();
        assert!((d - ONE as f64).abs() <= 2.0, "corner {} at {}", k, d);
    }
}

#[test]
fn oval_fan_starts_at_angle_zero() {
    let mut paper = Paper::new(1);
    paper.build_oval(Vec2::new(0, 0), Vec2::new(1000, 500), red());
    let v = paper.verts();
    assert_eq!(v[0].pos, Vec2::new(1000, 0));
    assert_eq!(v[3].pos, Vec2::new(1000, 0));
}

#[test]
fn circle_is_oval_with_equal_radii() {
    let mut a = Paper::new(1);
    let mut b = Paper::new(2);
    let p = Vec2::new(1234, -5678);
    a.build_circle(p, 4321, red());
    b.build_oval(p, Vec2::new(4321, 4321), red());
    assert_eq!(a.verts(), b.verts());
}

#[test]
fn cleared_frame_uploads_no_stale_geometry() {
    let mut paper = Paper::new(7);
    paper.build_circle(Vec2::new(0, 0), ONE / 10, red());
    paper.draw();
    assert_eq!(paper.mesh().count, 102);
    paper.clear();
    paper.draw();
    assert_eq!(paper.mesh().count, 0);
    assert_eq!(paper.mesh().vbo, 7);
    assert!(paper.verts().is_empty());
}

#[test]
fn paper_upload_records_layout() {
    let mut paper = Paper::new(3);
    paper.build_circle(Vec2::new(0, 0), 100, red());
    paper.draw();
    let mesh = paper.mesh();
    assert_eq!(mesh.layout.size, 24);
    assert_eq!(mesh.layout.attributes.len(), 2);
    assert_eq!(mesh.layout.attributes[1].index, 1);
    assert_eq!(mesh.layout.attributes[1].width, 4);
    assert_eq!(mesh.layout.attributes[1].offset, 8);
    // drawing does not consume the frame
    assert_eq!(paper.verts().len(), 102);
}

#[test]
fn quad_is_two_triangles() {
    let mut b: MeshBuilder<DefaultVertex> = MeshBuilder::new();
    let vs: Vec<DefaultVertex> = (0..4).map(|i| DefaultVertex::new(Vec3::new(i, 0, 0))).collect();
    b.add_quad(&vs);
    let xs: Vec<i64> = b.verts().iter().map(|v| v.pos.x).collect();
    assert_eq!(xs, vec![0, 1, 2, 0, 2, 3]);
}

#[test]
fn convex_poly_is_a_fan() {
    let mut b: MeshBuilder<DefaultVertex> = MeshBuilder::new();
    let vs: Vec<DefaultVertex> = (0..5).map(|i| DefaultVertex::new(Vec3::new(i, 0, 0))).collect();
    b.add_vert(DefaultVertex::new(Vec3::new(9, 9, 9)));
    b.add_convex_poly(&vs);
    let xs: Vec<i64> = b.verts().iter().map(|v| v.pos.x).collect();
    assert_eq!(xs, vec![9, 0, 1, 2, 0, 2, 3, 0, 3, 4]);
    b.clear();
    assert!(b.verts().is_empty());
}

#[test]
fn upload_records_count_and_layout() {
    let mut b: MeshBuilder<DefaultVertex> = MeshBuilder::new();
    b.add_vert(DefaultVertex::new(Vec3::new(1, 2, 3)));
    b.add_vert(DefaultVertex::new(Vec3::new(4, 5, 6)));
    let mut mesh = Mesh::new(5);
    assert_eq!(mesh.layout.size, 0);
    b.upload_to(&mut mesh);
    assert_eq!(mesh.count, 2);
    assert_eq!(mesh.vbo, 5);
    assert_eq!(mesh.layout.size, 12);
    assert_eq!(mesh.layout.attributes[0].width, 3);
    assert_eq!(b.verts().len(), 2);
}

#[test]
fn layout_bindings_keep_their_order() {
    let l = VertexLayout::new(20).add_binding(0, 3, 0).add_binding(1, 2, 12);
    assert_eq!(l.size, 20);
    assert_eq!(l.attributes.len(), 2);
    assert_eq!(l.attributes[0].offset, 0);
    assert_eq!(l.attributes[1].offset, 12);
    assert_eq!(VertexLayout::null().size, 0);
    assert_eq!(PaperVertex::get_layout().size, 24);
}

#[test]
fn integer_square_root_rounds_down() {
    assert_eq!(isqrt(0), 0);
    assert_eq!(isqrt(15), 3);
    assert_eq!(isqrt(16), 4);
    assert_eq!(isqrt(1 << 60), 1 << 30);
}

#[test]
fn sine_and_cosine_at_quarter_turns() {
    assert_eq!(sin_turns(0, 4), 0);
    assert_eq!(sin_turns(1, 4), ONE);
    assert_eq!(sin_turns(3, 4), -ONE);
    assert_eq!(cos_turns(0, 4), ONE);
    assert_eq!(cos_turns(2, 4), -ONE);
    assert_eq!(sin_turns(1, 10), 38479);
}

#[test]
fn screen_center_maps_to_origin() {
    let screen = Vec2i { x: 800, y: 600 };
    assert_eq!(screen_to_gl(screen, Vec2i { x: 400, y: 300 }), Vec2::new(0, 0));
    assert_eq!(screen_to_gl(screen, Vec2i { x: 0, y: 0 }), Vec2::new(-87382, ONE));
    assert_eq!(screen_to_gl(screen, Vec2i { x: 400, y: 600 }), Vec2::new(0, -ONE));
}
