//! Bursts: short-lived tasks that draw six spokes each frame until their
//! lifetime is over.
use vstd::prelude::*;
use crate::easing::{ease, ease_spec, Easing};
use crate::geometry::{cos_step, cos_step_spec, floor_div, sin_step, sin_step_spec, within, Vec2, ONE};
use crate::paper::{stroke_spec, valid_point, Color, Paper, PaperVertex};
use crate::flower::POS_MAX;

verus! {

/// Frames a burst lives: 0.4 s at 60 frames per second.
pub const POP_FRAMES: u32 = 24;

/// Spokes of a burst.
pub const SPOKES: i64 = 6;

/// Most bursts alive at once: as many as fit the 324 vertices a burst draws
/// into a frame whose vertex count is a `u32`.
pub const POPS_MAX: usize = 0xFFFF_FFFF / 324;

/// A burst at `pos` that has drawn `frame` frames so far.
#[derive(Clone, Copy, Debug, PartialEq, Eq, Structural)]
pub struct Pop {
    pub pos: Vec2,
    pub frame: u32,
}

pub open spec fn white() -> Color {
    Color { r: 255, g: 255, b: 255, a: 255 }
}

/// The distance from the center to the inner end of each spoke.
pub open spec fn inner_radius_spec(f: int) -> int {
    ease_spec(Easing::QuadOut, f, POP_FRAMES as int, 0, 5177)
}

/// The distance from the center to the outer end of each spoke.
pub open spec fn outer_radius_spec(f: int) -> int {
    ease_spec(Easing::QuadOut, f, POP_FRAMES as int, 2621, 5243)
}

/// The thickness of the spokes: thick at the start and the end, thin
/// half way.
pub open spec fn spoke_thickness_spec(f: int) -> int {
    ease_spec(Easing::QuadIn, 2 * f - POP_FRAMES, POP_FRAMES as int, 1311, 66)
}

/// The point at distance `r` from `pos` in the direction of spoke `k`.
pub open spec fn spoke_point(pos: Vec2, k: int, r: int) -> Vec2 {
    Vec2::spec_new(
        pos.x + (cos_step_spec(6 * k) * r) / (ONE as int),
        pos.y + (sin_step_spec(6 * k) * r) / (ONE as int),
    )
}

/// The strokes of the first `m` spokes of a burst at `pos` in frame `f`.
pub open spec fn spokes_part(pos: Vec2, f: int, m: int) -> Seq<PaperVertex>
    decreases m,
{
    if m <= 0 {
        Seq::empty()
    } else {
        spokes_part(pos, f, m - 1) + stroke_spec(
            seq![
                spoke_point(pos, m - 1, inner_radius_spec(f)),
                spoke_point(pos, m - 1, outer_radius_spec(f)),
            ],
            spoke_thickness_spec(f),
            white(),
        )
    }
}

/// What the bursts `ps` draw in one frame, in order.
pub open spec fn pops_frame_spec(ps: Seq<Pop>) -> Seq<PaperVertex>
    decreases ps.len(),
{
    if ps.len() == 0 {
        Seq::empty()
    } else {
        pops_frame_spec(ps.drop_last()) + spokes_part(ps.last().pos, ps.last().frame as int, SPOKES as int)
    }
}

pub open spec fn step_spec(p: Pop) -> Pop {
    Pop { frame: (p.frame + 1) as u32, ..p }
}

pub open spec fn pop_running(p: Pop) -> bool {
    p.frame < POP_FRAMES
}

impl Pop {
    pub open spec fn wf(self) -> bool {
        self.pos.bounded(POS_MAX as int) && self.frame < POP_FRAMES
    }

    /// Whether the burst has frames left to draw.
    pub fn is_valid(&self) -> (r: bool)
        ensures
            r == pop_running(*self),
    {
        self.frame < POP_FRAMES
    }
}

proof fn lemma_radius_bounds(f: int)
    requires
        0 <= f < POP_FRAMES,
    ensures
        0 <= inner_radius_spec(f) <= 0x10000,
        0 <= outer_radius_spec(f) <= 0x10000,
        0 <= spoke_thickness_spec(f) <= 0x10000,
{
    let n = POP_FRAMES as int;
    let q = f * (2 * n - f);
    assert(0 <= q <= n * n) by (nonlinear_arith)
        requires
            q == f * (2 * n - f),
            0 <= f <= n,
    ;
    vstd::arithmetic::div_mod::lemma_div_is_ordered(5177 * q, 5177 * (n * n), n * n);
    vstd::arithmetic::div_mod::lemma_div_pos_is_pos(5177 * q, n * n);
    vstd::arithmetic::div_mod::lemma_div_is_ordered(2622 * q, 2622 * (n * n), n * n);
    vstd::arithmetic::div_mod::lemma_div_pos_is_pos(2622 * q, n * n);
    vstd::arithmetic::div_mod::lemma_div_multiples_vanish(5177, n * n);
    vstd::arithmetic::div_mod::lemma_div_multiples_vanish(2622, n * n);
    let j = 2 * f - n;
    assert(0 <= j * j <= n * n) by (nonlinear_arith)
        requires
            -n <= j <= n,
    ;
    vstd::arithmetic::div_mod::lemma_div_is_ordered(-1245 * (n * n), -1245 * (j * j), n * n);
    vstd::arithmetic::div_mod::lemma_div_is_ordered(-1245 * (j * j), 0, n * n);
    vstd::arithmetic::div_mod::lemma_div_multiples_vanish(-1245, n * n);
}

/// The strokes of one frame of bursts, and the bursts that are left.
pub struct ParticleManager {
    paper: Paper,
    particle_systems: Vec<Pop>,
}

impl ParticleManager {
    pub closed spec fn paper_spec(&self) -> &Paper {
        &self.paper
    }

    pub closed spec fn pops_spec(&self) -> Seq<Pop> {
        self.particle_systems@
    }

    pub open spec fn wf(&self) -> bool {
        &&& self.pops_spec().len() <= POPS_MAX
        &&& forall|i: int| 0 <= i < self.pops_spec().len() ==> (#[trigger] self.pops_spec()[i]).wf()
    }

    /// No bursts yet; they draw into the backend buffer `vbo`.
    pub fn new(vbo: u32) -> (r: ParticleManager)
        ensures
            r.wf(),
            r.pops_spec() == Seq::<Pop>::empty(),
            r.paper_spec()@ == Seq::<PaperVertex>::empty(),
            r.paper_spec().mesh_spec().vbo == vbo,
    {
        ParticleManager { paper: Paper::new(vbo), particle_systems: Vec::new() }
    }

    /// The paper of the last frame.
    pub fn paper(&self) -> (r: &Paper)
        ensures
            r == self.paper_spec(),
    {
        &self.paper
    }

    /// The live bursts, oldest first.
    pub fn pops(&self) -> (r: &Vec<Pop>)
        ensures
            r@ == self.pops_spec(),
    {
        &self.particle_systems
    }

    /// Starts a burst at `pos`; the next `draw` draws its first frame.
    pub fn add_pop(&mut self, pos: Vec2)
        requires
            old(self).wf(),
            pos.bounded(POS_MAX as int),
            old(self).pops_spec().len() < POPS_MAX,
        ensures
            final(self).wf(),
            final(self).pops_spec() == old(self).pops_spec().push(Pop { pos, frame: 0 }),
            final(self).paper_spec() == old(self).paper_spec(),
    {
        self.particle_systems.push(Pop { pos, frame: 0 });
        proof {
            assert forall|i: int| 0 <= i < self.particle_systems@.len() implies (#[trigger] self.particle_systems@[i]).wf() by {
                if i < old(self).pops_spec().len() {
                    assert(self.particle_systems@[i] == old(self).pops_spec()[i]);
                }
            }
        }
    }

    /// The point `spoke_point(pos, k, r)`.
    fn spoke(pos: Vec2, k: i64, r: i64) -> (p: Vec2)
        requires
            pos.bounded(POS_MAX as int),
            0 <= k < SPOKES,
            0 <= r <= 0x10000,
        ensures
            p == spoke_point(pos, k as int, r as int),
            valid_point(p),
    {
        let c: i64 = cos_step(6 * k);
        let s: i64 = sin_step(6 * k);
        proof {
            crate::geometry::lemma_mul_within(c as int, r as int, ONE as int, 0x10000);
            crate::geometry::lemma_mul_within(s as int, r as int, ONE as int, 0x10000);
            lemma_quot_small(c * r, ONE as int);
            lemma_quot_small(s * r, ONE as int);
        }
        let dx: i128 = floor_div((c as i128) * (r as i128), 65536);
        let dy: i128 = floor_div((s as i128) * (r as i128), 65536);
        Vec2::new(pos.x + dx as i64, pos.y + dy as i64)
    }

    /// Draws the six spokes of a burst at `pos` in frame `f`.
    fn draw_spokes(&mut self, pos: Vec2, f: u32)
        requires
            pos.bounded(POS_MAX as int),
            f < POP_FRAMES,
        ensures
            final(self).paper_spec()@ == old(self).paper_spec()@ + spokes_part(pos, f as int, SPOKES as int),
            final(self).paper_spec().mesh_spec() == old(self).paper_spec().mesh_spec(),
            final(self).pops_spec() == old(self).pops_spec(),
    {
        let n: i64 = POP_FRAMES as i64;
        let fi: i64 = f as i64;
        let inner: i64 = ease(Easing::QuadOut, fi, n, 0, 5177);
        let outer: i64 = ease(Easing::QuadOut, fi, n, 2621, 5243);
        let thickness: i64 = ease(Easing::QuadIn, 2 * fi - n, n, 1311, 66);
        proof {
            lemma_radius_bounds(f as int);
        }
        let color = Color::new(255, 255, 255, 255);
        let mut k: i64 = 0;
        while k < SPOKES
            invariant
                0 <= k <= SPOKES,
                pos.bounded(POS_MAX as int),
                f < POP_FRAMES,
                inner == inner_radius_spec(f as int),
                outer == outer_radius_spec(f as int),
                thickness == spoke_thickness_spec(f as int),
                0 <= inner <= 0x10000,
                0 <= outer <= 0x10000,
                0 <= thickness <= 0x10000,
                color == white(),
                self.paper@ == old(self).paper_spec()@ + spokes_part(pos, f as int, k as int),
                self.paper.mesh_spec() == old(self).paper_spec().mesh_spec(),
                self.particle_systems@ == old(self).pops_spec(),
            decreases SPOKES - k,
        {
            let a = ParticleManager::spoke(pos, k, inner);
            let b = ParticleManager::spoke(pos, k, outer);
            let line = vec![a, b];
            self.paper.build_line(line.as_slice(), thickness, color);
            proof {
                assert(line@ =~= seq![spoke_point(pos, k as int, inner as int), spoke_point(pos, k as int, outer as int)]);
            }
            k = k + 1;
        }
    }

    /// One frame of bursts: the paper is cleared, each burst draws its next
    /// frame in order, the paper is uploaded, and the bursts whose lifetime
    /// is over are removed.
    pub fn draw(&mut self)
        requires
            old(self).wf(),
        ensures
            final(self).wf(),
            final(self).paper_spec()@ == pops_frame_spec(old(self).pops_spec()),
            final(self).paper_spec().mesh_spec().count == pops_frame_spec(old(self).pops_spec()).len(),
            final(self).paper_spec().mesh_spec().vbo == old(self).paper_spec().mesh_spec().vbo,
            final(self).pops_spec() == old(self).pops_spec().map_values(|p: Pop| step_spec(p)).filter(
                |p: Pop| pop_running(p),
            ),
    {
        self.paper.clear();
        let ghost ps0 = self.particle_systems@;
        let n: usize = self.particle_systems.len();
        let mut i: usize = 0;
        while i < n
            invariant
                0 <= i <= n <= POPS_MAX,
                n == ps0.len(),
                self.particle_systems@.len() == n,
                forall|j: int| 0 <= j < n ==> (#[trigger] ps0[j]).wf(),
                forall|j: int| i <= j < n ==> self.particle_systems@[j] == ps0[j],
                forall|j: int| 0 <= j < i ==> self.particle_systems@[j] == step_spec(ps0[j]),
                self.paper@ == pops_frame_spec(ps0.take(i as int)),
                self.paper@.len() == 324 * i,
                self.paper.mesh_spec().vbo == old(self).paper_spec().mesh_spec().vbo,
            decreases n - i,
        {
            let p = self.particle_systems[i];
            assert(ps0[i as int].wf());
            self.draw_spokes(p.pos, p.frame);
            proof {
                assert(ps0.take(i + 1).drop_last() =~= ps0.take(i as int));
                assert(ps0.take(i + 1).last() == ps0[i as int]);
                lemma_spokes_len(p.pos, p.frame as int, SPOKES as int);
            }
            self.particle_systems.set(i, Pop { pos: p.pos, frame: p.frame + 1 });
            i = i + 1;
        }
        proof {
            assert(ps0.take(n as int) =~= ps0);
        }
        self.paper.draw();
        let ghost stepped = self.particle_systems@;
        assert(stepped =~= ps0.map_values(|p: Pop| step_spec(p)));
        let mut kept: Vec<Pop> = Vec::new();
        let mut j: usize = 0;
        while j < n
            invariant
                0 <= j <= n <= POPS_MAX,
                n == stepped.len(),
                self.particle_systems@ == stepped,
                forall|k: int| 0 <= k < n ==> (#[trigger] stepped[k]).pos.bounded(POS_MAX as int),
                kept@ == stepped.take(j as int).filter(|p: Pop| pop_running(p)),
                kept@.len() <= j,
                forall|k: int| 0 <= k < kept@.len() ==> (#[trigger] kept@[k]).wf(),
            decreases n - j,
        {
            let p = self.particle_systems[j];
            proof {
                assert(stepped.take(j + 1).drop_last() =~= stepped.take(j as int));
                assert(stepped.take(j + 1).last() == stepped[j as int]);
                reveal_with_fuel(Seq::filter, 1);
            }
            if p.is_valid() {
                kept.push(p);
            }
            j = j + 1;
        }
        proof {
            assert(stepped.take(n as int) =~= stepped);
        }
        self.particle_systems = kept;
    }
}

proof fn lemma_quot_small(a: int, d: int)
    requires
        within(a, d * 0x10000),
        d == ONE,
    ensures
        within(a / d, 0x10000),
{
    vstd::arithmetic::div_mod::lemma_fundamental_div_mod(a, d);
    vstd::arithmetic::div_mod::lemma_mod_bound(a, d);
}

proof fn lemma_spokes_len(pos: Vec2, f: int, m: int)
    requires
        0 <= m,
    ensures
        spokes_part(pos, f, m).len() == 54 * m,
    decreases m,
{
    if m > 0 {
        lemma_spokes_len(pos, f, m - 1);
        let s = seq![
            spoke_point(pos, m - 1, inner_radius_spec(f)),
            spoke_point(pos, m - 1, outer_radius_spec(f)),
        ];
        crate::paper::lemma_stroke_vertex_count(s, spoke_thickness_spec(f), white());
        assert(crate::paper::sharp_turns(s, 0) == 0);
    }
}

} // verus!
