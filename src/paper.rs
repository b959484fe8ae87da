//! The tessellator: strokes along polylines and ovals, as triangles in a
//! mesh builder.
use vstd::prelude::*;
use crate::geometry::{
    add_spec, cos_step, cos_step_spec, cross_spec, dot_spec, floor_div, lemma_mul_within, neg_spec,
    offset, offset_spec, perp_spec, sin_step, sin_step_spec, sub_spec, within,
    Vec2, COORD_MAX, DIR_MAX, ONE, RADIUS_MAX,
};
use crate::mesh_builder::{
    fan_spec, quad_spec, Mesh, MeshBuilder, Vertex, VertexAttributeBinding, VertexLayout,
};

verus! {

/// An 8-bit RGBA color.
#[derive(Clone, Copy, Debug, PartialEq, Eq, Structural)]
pub struct Color {
    pub r: u8,
    pub g: u8,
    pub b: u8,
    pub a: u8,
}

impl Color {
    pub fn new(r: u8, g: u8, b: u8, a: u8) -> (c: Color)
        ensures
            c == (Color { r, g, b, a }),
    {
        Color { r, g, b, a }
    }
}

/// A vertex of the paper: a position and a color.
#[derive(Clone, Copy, Debug, PartialEq, Eq, Structural)]
pub struct PaperVertex {
    pub pos: Vec2,
    pub color: Color,
}

pub open spec fn pv(pos: Vec2, color: Color) -> PaperVertex {
    PaperVertex { pos, color }
}

impl PaperVertex {
    pub fn new(pos: Vec2, color: Color) -> (r: PaperVertex)
        ensures
            r == pv(pos, color),
    {
        PaperVertex { pos, color }
    }
}

impl Vertex for PaperVertex {
    /// Uploaded as two 32-bit position components and four color
    /// components.
    open spec fn layout_spec() -> (u32, Seq<VertexAttributeBinding>) {
        (
            24u32,
            seq![
                VertexAttributeBinding { index: 0, width: 2, offset: 0 },
                VertexAttributeBinding { index: 1, width: 4, offset: 8 },
            ],
        )
    }

    fn get_layout() -> (r: VertexLayout) {
        let r = VertexLayout::new(24).add_binding(0, 2, 0).add_binding(1, 4, 8);
        assert(r@.1 =~= seq![
            VertexAttributeBinding { index: 0, width: 2, offset: 0 },
            VertexAttributeBinding { index: 1, width: 4, offset: 8 },
        ]);
        r
    }
}

/// Number of subdivisions of each half of a stroke's end cap.
pub const CAP_STEPS: i64 = 4;

/// Number of subdivisions of each wedge of an interior join.
pub const JOIN_STEPS: i64 = 3;

/// Number of samples around an oval.
pub const OVAL_STEPS: i64 = 36;

/// The direction `s * (k - i) + e * i`, which runs from `s` to `e` as `i`
/// goes from `0` to `k`.
pub open spec fn wedge_dir_spec(s: Vec2, e: Vec2, i: int, k: int) -> Vec2 {
    Vec2::spec_new(s.x * (k - i) + e.x * i, s.y * (k - i) + e.y * i)
}

/// The point at distance `h` from `vert` in the `i`-th direction of the
/// wedge from `s` to `e` in `k` steps.
pub open spec fn rim_spec(vert: Vec2, s: Vec2, e: Vec2, i: int, k: int, h: int) -> Vec2 {
    add_spec(vert, offset_spec(wedge_dir_spec(s, e, i, k), h))
}

/// The first `m` triangles of the radial fan around `vert` that sweeps from
/// direction `s` to direction `e` in `k` triangles.
pub open spec fn fan_part(
    vert: Vec2,
    s: Vec2,
    e: Vec2,
    k: int,
    h: int,
    c: Color,
    m: int,
) -> Seq<PaperVertex> {
    Seq::new(
        (3 * m) as nat,
        |j: int|
            if j % 3 == 0 {
                pv(vert, c)
            } else if j % 3 == 1 {
                pv(rim_spec(vert, s, e, j / 3, k, h), c)
            } else {
                pv(rim_spec(vert, s, e, j / 3 + 1, k, h), c)
            },
    )
}

/// The whole radial fan: `k` triangles.
pub open spec fn fan(vert: Vec2, s: Vec2, e: Vec2, k: int, h: int, c: Color) -> Seq<PaperVertex> {
    fan_part(vert, s, e, k, h, c, k)
}

/// The offset of half-thickness `h` to the left of the segment from `a`
/// to `b`.
pub open spec fn normal_spec(a: Vec2, b: Vec2, h: int) -> Vec2 {
    offset_spec(perp_spec(sub_spec(b, a)), h)
}

/// The six vertices of the body of the segment from `a` to `b`.
pub open spec fn segment_spec(a: Vec2, b: Vec2, h: int, c: Color) -> Seq<PaperVertex> {
    let n = normal_spec(a, b, h);
    quad_spec(
        seq![
            pv(add_spec(a, n), c),
            pv(sub_spec(a, n), c),
            pv(sub_spec(b, n), c),
            pv(add_spec(b, n), c),
        ],
    )
}

/// The bodies of the first `m` segments of the polyline `vs`.
pub open spec fn segments_part(vs: Seq<Vec2>, h: int, c: Color, m: int) -> Seq<PaperVertex> {
    Seq::new((6 * m) as nat, |j: int| segment_spec(vs[j / 6], vs[j / 6 + 1], h, c)[j % 6])
}

/// The rounded cap at `vert`, a half disc on the side of `n`: two fans of
/// `CAP_STEPS` triangles each.
pub open spec fn cap_spec(vert: Vec2, n: Vec2, h: int, c: Color) -> Seq<PaperVertex> {
    let nm = perp_spec(neg_spec(n));
    fan(vert, n, nm, CAP_STEPS as int, h, c) + fan(vert, nm, neg_spec(n), CAP_STEPS as int, h, c)
}

/// A turn at `vert` is sharp when the two segments meet at a right or
/// acute angle; a right angle, where the normals are exactly
/// perpendicular, is counted as sharp.
pub open spec fn is_sharp_turn(prev: Vec2, vert: Vec2, next: Vec2) -> bool {
    dot_spec(sub_spec(vert, prev), sub_spec(next, vert)) <= 0
}

/// The join at `vert` between the segments from `prev` and to `next`: the
/// wedge on the outer side of the turn, split at the bisector when the
/// turn is sharp.
pub open spec fn join_spec(prev: Vec2, vert: Vec2, next: Vec2, h: int, c: Color) -> Seq<PaperVertex> {
    let d_in = sub_spec(vert, prev);
    let d_out = sub_spec(next, vert);
    let n0 = normal_spec(prev, vert, h);
    let n1 = normal_spec(vert, next, h);
    let under = cross_spec(d_in, d_out) < 0;
    let s = if under { n0 } else { neg_spec(n1) };
    let e = if under { n1 } else { neg_spec(n0) };
    if !is_sharp_turn(prev, vert, next) {
        fan(vert, s, e, JOIN_STEPS as int, h, c)
    } else {
        let nm = offset_spec(sub_spec(d_in, d_out), h);
        fan(vert, s, nm, JOIN_STEPS as int, h, c) + fan(vert, nm, e, JOIN_STEPS as int, h, c)
    }
}

/// The joins at the first `m` interior points of `vs`.
pub open spec fn joins_part(vs: Seq<Vec2>, h: int, c: Color, m: int) -> Seq<PaperVertex>
    decreases m,
{
    if m <= 0 {
        Seq::empty()
    } else {
        joins_part(vs, h, c, m - 1) + join_spec(vs[m - 1], vs[m], vs[m + 1], h, c)
    }
}

/// The whole stroke of thickness `thickness` along `vs`: segment bodies,
/// the cap at the start, the cap at the end, then the interior joins.
pub open spec fn stroke_spec(vs: Seq<Vec2>, thickness: int, c: Color) -> Seq<PaperVertex> {
    let h = thickness / 2;
    let n = vs.len() as int;
    segments_part(vs, h, c, n - 1) + cap_spec(vs[0], neg_spec(normal_spec(vs[0], vs[1], h)), h, c)
        + cap_spec(vs[n - 1], normal_spec(vs[n - 2], vs[n - 1], h), h, c) + joins_part(
        vs,
        h,
        c,
        n - 2,
    )
}

/// The `i`-th of the `OVAL_STEPS` points of the oval of center `p` and
/// radii `rs`, at `i` 36ths of a turn.
pub open spec fn oval_point(p: Vec2, rs: Vec2, i: int) -> Vec2 {
    Vec2::spec_new(
        p.x + (cos_step_spec(i) * rs.x) / (ONE as int),
        p.y + (sin_step_spec(i) * rs.y) / (ONE as int),
    )
}

/// The fan triangulation of the oval of center `p` and radii `rs`.
pub open spec fn oval_spec(p: Vec2, rs: Vec2, c: Color) -> Seq<PaperVertex> {
    fan_spec(Seq::new(OVAL_STEPS as nat, |i: int| pv(oval_point(p, rs, i), c)))
}

/// A point that the tessellator accepts.
pub open spec fn valid_point(p: Vec2) -> bool {
    p.bounded(COORD_MAX as int)
}

pub open spec fn valid_radii(rs: Vec2) -> bool {
    0 <= rs.x <= RADIUS_MAX && 0 <= rs.y <= RADIUS_MAX
}

proof fn lemma_wedge_within(s: int, e: int, i: int, k: int, h: int)
    requires
        within(s, h),
        within(e, h),
        0 <= i <= k <= CAP_STEPS,
        0 <= h <= RADIUS_MAX,
    ensures
        within(s * (k - i) + e * i, DIR_MAX as int),
{
    assert(within(s * (k - i) + e * i, h * k)) by (nonlinear_arith)
        requires
            within(s, h),
            within(e, h),
            0 <= i <= k,
    ;
    assert(h * k <= RADIUS_MAX * CAP_STEPS) by (nonlinear_arith)
        requires
            0 <= h <= RADIUS_MAX,
            0 <= k <= CAP_STEPS,
    ;
}

proof fn lemma_div_within(a: int, d: int, q: int)
    requires
        within(a, d * q),
        d > 0,
        q >= 0,
    ensures
        within(a / d, q),
{
    vstd::arithmetic::div_mod::lemma_fundamental_div_mod(a, d);
    vstd::arithmetic::div_mod::lemma_mod_bound(a, d);
    let r = a % d;
    let t = a / d;
    assert(within(t, q)) by (nonlinear_arith)
        requires
            a == d * t + r,
            0 <= r < d,
            within(a, d * q),
            d > 0,
    ;
}

/// Number of sharp turns among the first `m` interior points of `vs`.
pub open spec fn sharp_turns(vs: Seq<Vec2>, m: int) -> int
    decreases m,
{
    if m <= 0 {
        0
    } else {
        sharp_turns(vs, m - 1) + if is_sharp_turn(vs[m - 1], vs[m], vs[m + 1]) {
            1int
        } else {
            0int
        }
    }
}

proof fn lemma_joins_len(vs: Seq<Vec2>, h: int, c: Color, m: int)
    requires
        0 <= m,
    ensures
        joins_part(vs, h, c, m).len() == 9 * m + 9 * sharp_turns(vs, m),
    decreases m,
{
    if m > 0 {
        lemma_joins_len(vs, h, c, m - 1);
    }
}

/// A stroke along `N >= 2` points has `6 * (N - 1)` vertices of segment
/// bodies, 24 for each of its two caps, and 9 for each interior join, or 18
/// where the turn is sharp: its size depends on `N` and on the turns alone.
pub proof fn lemma_stroke_vertex_count(vs: Seq<Vec2>, thickness: int, c: Color)
    requires
        vs.len() >= 2,
    ensures
        stroke_spec(vs, thickness, c).len() == 6 * (vs.len() - 1) + 2 * 24 + 9 * (vs.len() - 2
            - sharp_turns(vs, vs.len() - 2)) + 18 * sharp_turns(vs, vs.len() - 2),
{
    lemma_joins_len(vs, thickness / 2, c, vs.len() - 2);
}

/// An oval is a fan of 34 triangles: 102 vertices, whatever its radii.
pub proof fn lemma_oval_vertex_count(p: Vec2, rs: Vec2, c: Color)
    ensures
        oval_spec(p, rs, c).len() == 34 * 3,
{
}

/// The direction of sample `i` of an oval has length `ONE` to within half
/// a unit: its squared length is within `ONE` of `ONE * ONE`.
pub open spec fn sample_on_unit_circle(i: int) -> bool {
    let c = cos_step_spec(i);
    let s = sin_step_spec(i);
    ONE * ONE - ONE <= c * c + s * s <= ONE * ONE + ONE
}

/// Sample `i` has cosine `c` and sine `s`, a direction of length `ONE` to
/// within half a unit.
proof fn lemma_sample(i: int, c: int, s: int)
    requires
        cos_step_spec(i) == c,
        sin_step_spec(i) == s,
        65536 * 65536 - 65536 <= c * c + s * s <= 65536 * 65536 + 65536,
    ensures
        sample_on_unit_circle(i),
{
}

/// Every point of an oval lies on its ellipse: it is the center moved by
/// `(c * rx, s * ry) / ONE` (rounded down), where `(c, s)` is the direction
/// of the sample's angle, of length `ONE` to within half a unit.
pub proof fn lemma_oval_points_on_ellipse(p: Vec2, rs: Vec2, i: int)
    requires
        0 <= i < OVAL_STEPS,
    ensures
        sample_on_unit_circle(i),
        oval_point(p, rs, i) == Vec2::spec_new(
            p.x + (cos_step_spec(i) * rs.x) / (ONE as int),
            p.y + (sin_step_spec(i) * rs.y) / (ONE as int),
        ),
{
    lemma_sample(0, 65536, 0);
    lemma_sample(1, 64540, 11380);
    lemma_sample(2, 61584, 22415);
    lemma_sample(3, 56756, 32768);
    lemma_sample(4, 50203, 42126);
    lemma_sample(5, 42126, 50203);
    lemma_sample(6, 32768, 56756);
    lemma_sample(7, 22415, 61584);
    lemma_sample(8, 11380, 64540);
    lemma_sample(9, 0, 65536);
    lemma_sample(10, -11380, 64540);
    lemma_sample(11, -22415, 61584);
    lemma_sample(12, -32768, 56756);
    lemma_sample(13, -42126, 50203);
    lemma_sample(14, -50203, 42126);
    lemma_sample(15, -56756, 32768);
    lemma_sample(16, -61584, 22415);
    lemma_sample(17, -64540, 11380);
    lemma_sample(18, -65536, 0);
    lemma_sample(19, -64540, -11380);
    lemma_sample(20, -61584, -22415);
    lemma_sample(21, -56756, -32768);
    lemma_sample(22, -50203, -42126);
    lemma_sample(23, -42126, -50203);
    lemma_sample(24, -32768, -56756);
    lemma_sample(25, -22415, -61584);
    lemma_sample(26, -11380, -64540);
    lemma_sample(27, 0, -65536);
    lemma_sample(28, 11380, -64540);
    lemma_sample(29, 22415, -61584);
    lemma_sample(30, 32768, -56756);
    lemma_sample(31, 42126, -50203);
    lemma_sample(32, 50203, -42126);
    lemma_sample(33, 56756, -32768);
    lemma_sample(34, 61584, -22415);
    lemma_sample(35, 64540, -11380);
    assert(i == 0 || i == 1 || i == 2 || i == 3 || i == 4 || i == 5 || i == 6 || i == 7 || i == 8 || i == 9 || i == 10 || i == 11 || i == 12 || i == 13 || i == 14 || i == 15 || i == 16 || i == 17 || i == 18 || i == 19 || i == 20 || i == 21 || i == 22 || i == 23 || i == 24 || i == 25 || i == 26 || i == 27 || i == 28 || i == 29 || i == 30 || i == 31 || i == 32 || i == 33 || i == 34 || i == 35);
}

/// The drawing surface of one frame: the builder of its triangles and the
/// mesh that receives them.
pub struct Paper {
    builder: MeshBuilder<PaperVertex>,
    mesh: Mesh,
}

impl View for Paper {
    type V = Seq<PaperVertex>;

    closed spec fn view(&self) -> Seq<PaperVertex> {
        self.builder@
    }
}

impl Paper {
    /// The mesh as last uploaded.
    pub closed spec fn mesh_spec(&self) -> &Mesh {
        &self.mesh
    }

    /// An empty paper drawing into the backend buffer `vbo`.
    pub fn new(vbo: u32) -> (r: Paper)
        ensures
            r@ == Seq::<PaperVertex>::empty(),
            r.mesh_spec().vbo == vbo,
            r.mesh_spec().count == 0,
            r.mesh_spec().layout@ == (0u32, Seq::<VertexAttributeBinding>::empty()),
    {
        Paper { builder: MeshBuilder::new(), mesh: Mesh::new(vbo) }
    }

    /// Starts a new frame: forgets every triangle of the previous one.
    pub fn clear(&mut self)
        ensures
            final(self)@ == Seq::<PaperVertex>::empty(),
            final(self).mesh_spec() == old(self).mesh_spec(),
    {
        self.builder.clear();
    }

    /// Uploads this frame's triangles into the mesh, which then holds their
    /// count and the layout of `PaperVertex`; the triangles stay.
    pub fn draw(&mut self)
        requires
            old(self)@.len() <= u32::MAX,
        ensures
            final(self)@ == old(self)@,
            final(self).mesh_spec().vbo == old(self).mesh_spec().vbo,
            final(self).mesh_spec().count == old(self)@.len(),
            final(self).mesh_spec().layout@ == PaperVertex::layout_spec(),
    {
        self.builder.upload_to(&mut self.mesh);
    }

    /// The triangles of this frame, three vertices each.
    pub fn verts(&self) -> (r: &Vec<PaperVertex>)
        ensures
            r@ == self@,
    {
        self.builder.verts()
    }

    /// The point `rim_spec(vert, s, e, i, k, h)`.
    fn rim(vert: Vec2, s: Vec2, e: Vec2, i: i64, k: i64, h: i64) -> (r: Vec2)
        requires
            valid_point(vert),
            0 <= h <= RADIUS_MAX,
            s.bounded(h as int),
            e.bounded(h as int),
            0 <= i <= k <= CAP_STEPS,
        ensures
            r == rim_spec(vert, s, e, i as int, k as int, h as int),
            r.bounded(COORD_MAX + RADIUS_MAX),
    {
        proof {
            lemma_wedge_within(s.x as int, e.x as int, i as int, k as int, h as int);
            lemma_wedge_within(s.y as int, e.y as int, i as int, k as int, h as int);
        }
        let d = Vec2::new(s.x * (k - i) + e.x * i, s.y * (k - i) + e.y * i);
        let o = offset(d, h);
        vert.add(o)
    }

    /// Appends `fan(vert, s, e, k, h, c)`.
    fn add_fan(&mut self, vert: Vec2, s: Vec2, e: Vec2, k: i64, h: i64, c: Color)
        requires
            valid_point(vert),
            0 <= h <= RADIUS_MAX,
            s.bounded(h as int),
            e.bounded(h as int),
            1 <= k <= CAP_STEPS,
        ensures
            final(self)@ == old(self)@ + fan(vert, s, e, k as int, h as int, c),
            final(self).mesh_spec() == old(self).mesh_spec(),
    {
        let mut i: i64 = 0;
        assert(fan_part(vert, s, e, k as int, h as int, c, 0) =~= Seq::<PaperVertex>::empty());
        assert(self@ =~= old(self)@ + fan_part(vert, s, e, k as int, h as int, c, 0));
        while i < k
            invariant
                0 <= i <= k <= CAP_STEPS,
                valid_point(vert),
                0 <= h <= RADIUS_MAX,
                s.bounded(h as int),
                e.bounded(h as int),
                self@ == old(self)@ + fan_part(vert, s, e, k as int, h as int, c, i as int),
                self.mesh_spec() == old(self).mesh_spec(),
            decreases k - i,
        {
            let v0 = Paper::rim(vert, s, e, i, k, h);
            let v1 = Paper::rim(vert, s, e, i + 1, k, h);
            self.builder.add_vert(PaperVertex::new(vert, c));
            self.builder.add_vert(PaperVertex::new(v0, c));
            self.builder.add_vert(PaperVertex::new(v1, c));
            assert(fan_part(vert, s, e, k as int, h as int, c, i + 1) =~= fan_part(
                vert,
                s,
                e,
                k as int,
                h as int,
                c,
                i as int,
            ) + seq![pv(vert, c), pv(v0, c), pv(v1, c)]);
            i = i + 1;
        }
    }

    /// Appends `cap_spec(vert, n, h, c)`.
    fn add_cap(&mut self, vert: Vec2, n: Vec2, h: i64, c: Color)
        requires
            valid_point(vert),
            0 <= h <= RADIUS_MAX,
            n.bounded(h as int),
        ensures
            final(self)@ == old(self)@ + cap_spec(vert, n, h as int, c),
            final(self).mesh_spec() == old(self).mesh_spec(),
    {
        let nm = n.neg().perp();
        self.add_fan(vert, n, nm, CAP_STEPS, h, c);
        self.add_fan(vert, nm, n.neg(), CAP_STEPS, h, c);
        assert(self@ =~= old(self)@ + cap_spec(vert, n, h as int, c));
    }

    /// Appends `join_spec(prev, vert, next, h, c)`, given the normals of the
    /// two segments.
    fn add_join(
        &mut self,
        prev: Vec2,
        vert: Vec2,
        next: Vec2,
        n0: Vec2,
        n1: Vec2,
        h: i64,
        c: Color,
    )
        requires
            valid_point(prev),
            valid_point(vert),
            valid_point(next),
            0 <= h <= RADIUS_MAX,
            n0 == normal_spec(prev, vert, h as int),
            n1 == normal_spec(vert, next, h as int),
            n0.bounded(h as int),
            n1.bounded(h as int),
        ensures
            final(self)@ == old(self)@ + join_spec(prev, vert, next, h as int, c),
            final(self).mesh_spec() == old(self).mesh_spec(),
    {
        let d_in = vert.sub(prev);
        let d_out = next.sub(vert);
        let under = d_in.cross(d_out) < 0;
        let s = if under {
            n0
        } else {
            n1.neg()
        };
        let e = if under {
            n1
        } else {
            n0.neg()
        };
        if d_in.dot(d_out) > 0 {
            self.add_fan(vert, s, e, JOIN_STEPS, h, c);
        } else {
            let nm = offset(d_in.sub(d_out), h);
            self.add_fan(vert, s, nm, JOIN_STEPS, h, c);
            self.add_fan(vert, nm, e, JOIN_STEPS, h, c);
            assert(self@ =~= old(self)@ + join_spec(prev, vert, next, h as int, c));
        }
    }

    /// Strokes the polyline `vs` with the given thickness: a quad along each
    /// segment, a rounded cap at both ends and a wedge at each interior
    /// point (see `stroke_spec`).
    pub fn build_line(&mut self, vs: &[Vec2], thickness: i64, color: Color)
        requires
            vs@.len() >= 2,
            forall|i: int| 0 <= i < vs@.len() ==> valid_point(#[trigger] vs@[i]),
            0 <= thickness <= 2 * RADIUS_MAX,
        ensures
            final(self)@ == old(self)@ + stroke_spec(vs@, thickness as int, color),
            final(self).mesh_spec() == old(self).mesh_spec(),
    {
        let n: usize = vs.len();
        let h: i64 = thickness / 2;
        let mut ns: Vec<Vec2> = Vec::new();
        let mut i: usize = 0;
        assert(segments_part(vs@, h as int, color, 0) =~= Seq::<PaperVertex>::empty());
        assert(self@ =~= old(self)@ + segments_part(vs@, h as int, color, 0));
        while i + 1 < n
            invariant
                0 <= i < n,
                n == vs@.len(),
                0 <= h <= RADIUS_MAX,
                forall|j: int| 0 <= j < vs@.len() ==> valid_point(#[trigger] vs@[j]),
                ns@.len() == i,
                forall|j: int|
                    0 <= j < i ==> #[trigger] ns@[j] == normal_spec(vs@[j], vs@[j + 1], h as int),
                forall|j: int| 0 <= j < i ==> (#[trigger] ns@[j]).bounded(h as int),
                self@ == old(self)@ + segments_part(vs@, h as int, color, i as int),
                self.mesh_spec() == old(self).mesh_spec(),
            decreases n - i,
        {
            let a = vs[i];
            let b = vs[i + 1];
            let nrm = offset(b.sub(a).perp(), h);
            let q = vec![
                PaperVertex::new(a.add(nrm), color),
                PaperVertex::new(a.sub(nrm), color),
                PaperVertex::new(b.sub(nrm), color),
                PaperVertex::new(b.add(nrm), color),
            ];
            self.builder.add_quad(q.as_slice());
            ns.push(nrm);
            proof {
                let next = segments_part(vs@, h as int, color, i + 1);
                let prev = segments_part(vs@, h as int, color, i as int);
                let seg = segment_spec(a, b, h as int, color);
                assert forall|j: int| 6 * i <= j < 6 * i + 6 implies #[trigger] (j / 6) == i && j % 6
                    == j - 6 * i by {
                    vstd::arithmetic::div_mod::lemma_fundamental_div_mod_converse(
                        j,
                        6,
                        i as int,
                        j - 6 * i,
                    );
                }
                assert(next =~= prev + seg);
            }
            i = i + 1;
        }
        self.add_cap(vs[0], ns[0].neg(), h, color);
        self.add_cap(vs[n - 1], ns[n - 2], h, color);
        let ghost body = self@;
        let mut i: usize = 0;
        assert(self@ =~= body + joins_part(vs@, h as int, color, 0));
        while i + 2 < n
            invariant
                0 <= i <= n - 2,
                n == vs@.len(),
                0 <= h <= RADIUS_MAX,
                forall|j: int| 0 <= j < vs@.len() ==> valid_point(#[trigger] vs@[j]),
                ns@.len() == n - 1,
                forall|j: int|
                    0 <= j < n - 1 ==> #[trigger] ns@[j] == normal_spec(
                        vs@[j],
                        vs@[j + 1],
                        h as int,
                    ),
                forall|j: int| 0 <= j < n - 1 ==> (#[trigger] ns@[j]).bounded(h as int),
                self@ == body + joins_part(vs@, h as int, color, i as int),
                self.mesh_spec() == old(self).mesh_spec(),
            decreases n - i,
        {
            self.add_join(vs[i], vs[i + 1], vs[i + 2], ns[i], ns[i + 1], h, color);
            assert(self@ =~= body + joins_part(vs@, h as int, color, i + 1));
            i = i + 1;
        }
        assert(self@ =~= old(self)@ + stroke_spec(vs@, thickness as int, color));
    }

    /// A disc of radius `r` around `p`: the oval with both radii `r`.
    pub fn build_circle(&mut self, p: Vec2, r: i64, color: Color)
        requires
            valid_point(p),
            0 <= r <= RADIUS_MAX,
        ensures
            final(self)@ == old(self)@ + oval_spec(p, Vec2 { x: r, y: r }, color),
            final(self).mesh_spec() == old(self).mesh_spec(),
    {
        self.build_oval(p, Vec2::new(r, r), color);
    }

    /// The oval of center `p` and radii `rs`, sampled at `OVAL_STEPS` equal
    /// angles and triangulated as a fan.
    pub fn build_oval(&mut self, p: Vec2, rs: Vec2, color: Color)
        requires
            valid_point(p),
            valid_radii(rs),
        ensures
            final(self)@ == old(self)@ + oval_spec(p, rs, color),
            final(self).mesh_spec() == old(self).mesh_spec(),
    {
        let mut pts: Vec<PaperVertex> = Vec::new();
        let mut i: i64 = 0;
        while i < OVAL_STEPS
            invariant
                0 <= i <= OVAL_STEPS,
                valid_point(p),
                valid_radii(rs),
                pts@ =~= Seq::new(i as nat, |j: int| pv(oval_point(p, rs, j), color)),
            decreases OVAL_STEPS - i,
        {
            let cx: i64 = cos_step(i);
            let sy: i64 = sin_step(i);
            proof {
                lemma_mul_within(cx as int, rs.x as int, ONE as int, RADIUS_MAX as int);
                lemma_mul_within(sy as int, rs.y as int, ONE as int, RADIUS_MAX as int);
            }
            let dx: i128 = floor_div((cx as i128) * (rs.x as i128), 65536);
            let dy: i128 = floor_div((sy as i128) * (rs.y as i128), 65536);
            proof {
                lemma_div_within((cx * rs.x) as int, ONE as int, RADIUS_MAX as int);
                lemma_div_within((sy * rs.y) as int, ONE as int, RADIUS_MAX as int);
            }
            let v = Vec2::new(p.x + dx as i64, p.y + dy as i64);
            pts.push(PaperVertex::new(v, color));
            i = i + 1;
        }
        self.builder.add_convex_poly(pts.as_slice());
    }

    /// The mesh as last uploaded.
    pub fn mesh(&self) -> (r: &Mesh)
        ensures
            r == self.mesh_spec(),
    {
        &self.mesh
    }
}

/// A frame cleared after an upload and uploaded again with nothing drawn
/// holds no vertices and uploads none: the mesh never keeps the previous
/// frame's geometry. `cleared` is any paper that `clear` may leave from
/// `uploaded`, and `redrawn` any that `draw` may then leave.
pub proof fn lemma_cleared_frame_uploads_nothing(uploaded: Paper, cleared: Paper, redrawn: Paper)
    requires
        cleared@ == Seq::<PaperVertex>::empty(),
        cleared.mesh_spec() == uploaded.mesh_spec(),
        redrawn@ == cleared@,
        redrawn.mesh_spec().vbo == cleared.mesh_spec().vbo,
        redrawn.mesh_spec().count == cleared@.len(),
        redrawn.mesh_spec().layout@ == PaperVertex::layout_spec(),
    ensures
        redrawn@.len() == 0,
        redrawn.mesh_spec().count == 0,
        redrawn.mesh_spec().vbo == uploaded.mesh_spec().vbo,
{
}

} // verus!
