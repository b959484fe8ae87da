//! Flowers that grow in over a few frames: an arena of flower parameters
//! and the tasks that animate them, one step per frame.
use vstd::prelude::*;
use rand::Rng;
use crate::easing::{ease, ease_spec, Easing, STEPS_MAX, VALUE_MAX};
use crate::geometry::{
    cos_spec, cos_turns, floor_div, lemma_mul_within, sin_spec, sin_turns, within, Vec2, ONE,
};
use crate::paper::{oval_spec, stroke_spec, Color, Paper, PaperVertex};

verus! {

/// Frames per second of the animation clock.
pub const FRAME_RATE: i64 = 60;

/// Longest animation, in milliseconds.
pub const DURATION_MAX_MS: i64 = 1_000_000;

/// How a flower's face is drawn.
#[derive(Clone, Copy, Debug, PartialEq, Eq, Structural)]
pub enum FlowerType {
    /// One disc.
    Circle,
    /// `count` discs up the stem, each `face_ratio / ONE` the size of the
    /// one before.
    Fern { count: u32, face_ratio: i64 },
}

/// The parameters of one flower.
#[derive(Clone, Copy, Debug, PartialEq, Eq, Structural)]
pub struct Flower {
    pub pos: Vec2,
    pub color: Color,
    pub stem_length: i64,
    pub stem_width: i64,
    pub face_radius: i64,
    pub variation: FlowerType,
}

/// A parameter of a flower that a task can animate.
#[derive(Clone, Copy, Debug, PartialEq, Eq, Structural)]
pub enum FlowerParam {
    StemLength,
    StemWidth,
    FaceRadius,
}

pub open spec fn param_spec(f: Flower, p: FlowerParam) -> i64 {
    match p {
        FlowerParam::StemLength => f.stem_length,
        FlowerParam::StemWidth => f.stem_width,
        FlowerParam::FaceRadius => f.face_radius,
    }
}

pub open spec fn with_param_spec(f: Flower, p: FlowerParam, v: i64) -> Flower {
    match p {
        FlowerParam::StemLength => Flower { stem_length: v, ..f },
        FlowerParam::StemWidth => Flower { stem_width: v, ..f },
        FlowerParam::FaceRadius => Flower { face_radius: v, ..f },
    }
}

impl Flower {
    /// The current value of `p`.
    pub fn param(&self, p: FlowerParam) -> (r: i64)
        ensures
            r == param_spec(*self, p),
    {
        match p {
            FlowerParam::StemLength => self.stem_length,
            FlowerParam::StemWidth => self.stem_width,
            FlowerParam::FaceRadius => self.face_radius,
        }
    }

    /// Sets `p` to `v`, leaving the other parameters as they are.
    pub fn set_param(&mut self, p: FlowerParam, v: i64)
        ensures
            *final(self) == with_param_spec(*old(self), p, v),
    {
        match p {
            FlowerParam::StemLength => self.stem_length = v,
            FlowerParam::StemWidth => self.stem_width = v,
            FlowerParam::FaceRadius => self.face_radius = v,
        }
    }
}

/// Number of frames an animation of `ms` milliseconds lasts.
pub open spec fn steps_for(ms: int) -> int {
    ms * FRAME_RATE / 1000
}

/// A task that eases one parameter of one flower from the value it had when
/// the task was made toward a target, one step per frame. Step `0` is taken
/// when the task is made; each resumption takes the next step, and the one
/// after the last step finds nothing left and completes the task.
#[derive(Clone, Copy, Debug, PartialEq, Eq, Structural)]
pub struct ParameterLerp {
    pub flower: usize,
    pub param: FlowerParam,
    pub from: i64,
    pub to: i64,
    pub easing: Easing,
    pub num_steps: i64,
    /// The next step to take.
    pub step: i64,
    pub done: bool,
}

impl ParameterLerp {
    /// The task refers to a flower of an arena of `len` flowers and its
    /// steps stay within the easing's bounds.
    pub open spec fn wf(self, len: int) -> bool {
        &&& self.flower < len
        &&& 0 <= self.num_steps <= STEPS_MAX
        &&& 0 <= self.step <= self.num_steps
        &&& within(self.from as int, VALUE_MAX as int)
        &&& within(self.to as int, VALUE_MAX as int)
        &&& self.num_steps == 0 ==> self.done
    }

    /// One resumption: the task and the arena after it.
    pub open spec fn resume_spec(self, fl: Seq<Flower>) -> (ParameterLerp, Seq<Flower>) {
        if self.done {
            (self, fl)
        } else if self.step < self.num_steps {
            let v = ease_spec(self.easing, self.step as int, self.num_steps as int, self.from as int, self.to as int) as i64;
            (
                ParameterLerp { step: (self.step + 1) as i64, ..self },
                fl.update(self.flower as int, with_param_spec(fl[self.flower as int], self.param, v)),
            )
        } else {
            (ParameterLerp { done: true, ..self }, fl)
        }
    }

    /// Whether the task has more to do.
    pub fn is_valid(&self) -> (r: bool)
        ensures
            r == !self.done,
    {
        !self.done
    }

    /// Resumes the task once (see `resume_spec`).
    pub fn resume(&mut self, flowers: &mut Vec<Flower>)
        requires
            old(self).wf(old(flowers)@.len() as int),
        ensures
            (*final(self), final(flowers)@) == old(self).resume_spec(old(flowers)@),
            final(self).wf(final(flowers)@.len() as int),
    {
        if self.done {
        } else if self.step < self.num_steps {
            let v = ease(self.easing, self.step, self.num_steps, self.from, self.to);
            let mut f = flowers[self.flower];
            f.set_param(self.param, v);
            flowers.set(self.flower, f);
            self.step = self.step + 1;
        } else {
            self.done = true;
        }
    }
}

/// Resumes each task of `ts` once, in order: the arena and the tasks after.
pub open spec fn run_tasks(fl: Seq<Flower>, ts: Seq<ParameterLerp>) -> (Seq<Flower>, Seq<ParameterLerp>)
    decreases ts.len(),
{
    if ts.len() == 0 {
        (fl, Seq::empty())
    } else {
        let (fl1, ts1) = run_tasks(fl, ts.drop_last());
        let (t2, fl2) = ts.last().resume_spec(fl1);
        (fl2, ts1.push(t2))
    }
}

pub open spec fn is_running(t: ParameterLerp) -> bool {
    !t.done
}

/// The task list after one frame: every task resumed once, in order, and the
/// completed ones removed.
pub open spec fn tick_spec(fl: Seq<Flower>, ts: Seq<ParameterLerp>) -> (Seq<Flower>, Seq<ParameterLerp>) {
    let (fl1, ts1) = run_tasks(fl, ts);
    (fl1, ts1.filter(|t: ParameterLerp| is_running(t)))
}

/// Resumes every task of `tasks` once, in order, then removes those that
/// completed; the others keep their order.
pub fn tick(flowers: &mut Vec<Flower>, tasks: &mut Vec<ParameterLerp>)
    requires
        forall|i: int| 0 <= i < old(tasks)@.len() ==> (#[trigger] old(tasks)@[i]).wf(old(flowers)@.len() as int),
    ensures
        (final(flowers)@, final(tasks)@) == tick_spec(old(flowers)@, old(tasks)@),
        forall|i: int| 0 <= i < final(tasks)@.len() ==> (#[trigger] final(tasks)@[i]).wf(final(flowers)@.len() as int),
{
    let ghost fl0 = flowers@;
    let ghost ts0 = tasks@;
    let n: usize = tasks.len();
    let mut i: usize = 0;
    while i < n
        invariant
            0 <= i <= n,
            n == tasks@.len(),
            ts0.len() == n,
            flowers@.len() == fl0.len(),
            forall|j: int| i <= j < n ==> tasks@[j] == ts0[j],
            forall|j: int| 0 <= j < n ==> (#[trigger] tasks@[j]).wf(fl0.len() as int),
            (flowers@, tasks@.take(i as int)) == run_tasks(fl0, ts0.take(i as int)),
        decreases n - i,
    {
        let mut t = tasks[i];
        proof {
            assert(ts0.take(i + 1).drop_last() =~= ts0.take(i as int));
            assert(ts0.take(i + 1).last() == ts0[i as int]);
        }
        t.resume(flowers);
        tasks.set(i, t);
        proof {
            assert(tasks@.take(i + 1) =~= tasks@.take(i as int).push(t));
        }
        i = i + 1;
    }
    proof {
        assert(tasks@.take(n as int) =~= tasks@);
        assert(ts0.take(n as int) =~= ts0);
    }
    let ghost stepped = tasks@;
    let mut kept: Vec<ParameterLerp> = Vec::new();
    let mut j: usize = 0;
    while j < n
        invariant
            0 <= j <= n,
            n == tasks@.len(),
            tasks@ == stepped,
            forall|k: int| 0 <= k < n ==> (#[trigger] stepped[k]).wf(flowers@.len() as int),
            kept@ == stepped.take(j as int).filter(|t: ParameterLerp| is_running(t)),
            forall|k: int| 0 <= k < kept@.len() ==> (#[trigger] kept@[k]).wf(flowers@.len() as int),
        decreases n - j,
    {
        let t = tasks[j];
        proof {
            assert(stepped.take(j + 1).drop_last() =~= stepped.take(j as int));
            assert(stepped.take(j + 1).last() == stepped[j as int]);
            reveal_with_fuel(Seq::filter, 1);
        }
        if t.is_valid() {
            kept.push(t);
        }
        j = j + 1;
    }
    proof {
        assert(stepped.take(n as int) =~= stepped);
    }
    *tasks = kept;
}

/// Relies on `rand::thread_rng` and `Rng::gen_range`: a value drawn
/// uniformly from `0..n`, which `gen_range` documents for a half-open
/// integer range; it panics on an empty range, which `n > 0` rules out.
#[verifier::external_body]
fn random_below(n: u32) -> (r: u32)
    requires
        n > 0,
    ensures
        r < n,
{
    rand::thread_rng().gen_range(0..n)
}

/// Largest magnitude of a flower's position.
pub const POS_MAX: i64 = 0x400_0000;

/// Frames of one period of the wind's direction.
pub const WIND_PERIOD: i64 = 420;

/// Frames of one period of the wind's strength.
pub const WIND_STRENGTH_PERIOD: i64 = 780;

/// The colors that a flower's color is mixed from.
pub open spec fn palette_spec(i: int) -> Color {
    if i == 0 {
        Color { r: 235, g: 133, b: 135, a: 255 }
    } else if i == 1 {
        Color { r: 237, g: 217, b: 115, a: 255 }
    } else if i == 2 {
        Color { r: 255, g: 204, b: 128, a: 255 }
    } else if i == 3 {
        Color { r: 222, g: 176, b: 217, a: 255 }
    } else if i == 4 {
        Color { r: 189, g: 176, b: 217, a: 255 }
    } else {
        Color { r: 153, g: 194, b: 217, a: 255 }
    }
}

pub const PALETTE_LEN: usize = 6;

pub fn palette(i: usize) -> (c: Color)
    requires
        i < PALETTE_LEN,
    ensures
        c == palette_spec(i as int),
{
    if i == 0 {
        Color::new(235, 133, 135, 255)
    } else if i == 1 {
        Color::new(237, 217, 115, 255)
    } else if i == 2 {
        Color::new(255, 204, 128, 255)
    } else if i == 3 {
        Color::new(222, 176, 217, 255)
    } else if i == 4 {
        Color::new(189, 176, 217, 255)
    } else {
        Color::new(153, 194, 217, 255)
    }
}

/// The channel `t / 256` of the way from `a` to `b`, rounded down.
pub open spec fn mix_channel_spec(a: u8, b: u8, t: int) -> u8 {
    ((a * (256 - t) + b * t) / 256) as u8
}

pub open spec fn mix_spec(a: Color, b: Color, t: int) -> Color {
    Color {
        r: mix_channel_spec(a.r, b.r, t),
        g: mix_channel_spec(a.g, b.g, t),
        b: mix_channel_spec(a.b, b.b, t),
        a: mix_channel_spec(a.a, b.a, t),
    }
}

fn mix_channel(a: u8, b: u8, t: u32) -> (r: u8)
    requires
        t <= 256,
    ensures
        r == mix_channel_spec(a, b, t as int),
{
    proof {
        assert(a * (256 - t) <= 255 * 256 && b * t <= 255 * 256) by (nonlinear_arith)
            requires
                a <= 255,
                b <= 255,
                t <= 256,
        ;
    }
    let s: u32 = (a as u32) * (256 - t) + (b as u32) * t;
    proof {
        assert(s <= 255 * 256) by (nonlinear_arith)
            requires
                s == a * (256 - t) + b * t,
                a <= 255,
                b <= 255,
                t <= 256,
        ;
    }
    (s / 256) as u8
}

/// The color `t / 256` of the way from `a` to `b`.
pub fn mix(a: Color, b: Color, t: u32) -> (r: Color)
    requires
        t <= 256,
    ensures
        r == mix_spec(a, b, t as int),
{
    Color {
        r: mix_channel(a.r, b.r, t),
        g: mix_channel(a.g, b.g, t),
        b: mix_channel(a.b, b.b, t),
        a: mix_channel(a.a, b.a, t),
    }
}

/// The random choices that make a new flower.
#[derive(Clone, Copy, Debug, PartialEq, Eq, Structural)]
pub struct FlowerSeed {
    pub variation: FlowerType,
    /// Indices into the palette of the two colors mixed.
    pub color_a: usize,
    pub color_b: usize,
    /// How far, out of 256, the color lies from `color_a` toward `color_b`.
    pub mix: u32,
    pub target_stem_length: i64,
    pub target_face_radius: i64,
}

impl FlowerSeed {
    pub open spec fn wf(self) -> bool {
        &&& variation_ok(self.variation)
        &&& self.color_a < PALETTE_LEN
        &&& self.color_b < PALETTE_LEN
        &&& self.mix <= 256
        &&& within(self.target_stem_length as int, VALUE_MAX as int)
        &&& within(self.target_face_radius as int, VALUE_MAX as int)
    }
}

/// A flower's width when it appears.
pub const STEM_WIDTH_START: i64 = 655;

/// The width a flower's stem grows to.
pub const STEM_WIDTH_TARGET: i64 = 3277;

/// How long a flower takes to grow, in milliseconds.
pub const GROW_MS: i64 = 500;

/// A new flower at `pos`: no stem, no face yet.
pub open spec fn seeded_flower(pos: Vec2, seed: FlowerSeed) -> Flower {
    Flower {
        pos,
        color: mix_spec(palette_spec(seed.color_a as int), palette_spec(seed.color_b as int), seed.mix as int),
        stem_length: 0,
        stem_width: STEM_WIDTH_START,
        face_radius: 0,
        variation: seed.variation,
    }
}

/// The task that animates `param` of flower `flower` toward `to` over `ms`
/// milliseconds, and the arena once its step `0` is taken.
pub open spec fn spawn_spec(
    fl: Seq<Flower>,
    flower: int,
    param: FlowerParam,
    to: i64,
    ms: int,
    easing: Easing,
) -> (ParameterLerp, Seq<Flower>) {
    let n = steps_for(ms);
    let from = param_spec(fl[flower], param);
    let t = ParameterLerp { flower: flower as usize, param, from, to, easing, num_steps: n as i64, step: 0, done: n == 0 };
    if n == 0 {
        (t, fl)
    } else {
        t.resume_spec(fl)
    }
}

/// The arena and the three growth tasks after adding the flower of `seed`
/// at `pos` to the arena `fl`: its stem widens, its stem lengthens and its
/// face opens, each over `GROW_MS` with `Easing::BackOut`.
pub open spec fn added_spec(fl: Seq<Flower>, pos: Vec2, seed: FlowerSeed) -> (Seq<Flower>, Seq<ParameterLerp>) {
    let k = fl.len() as int;
    let fl1 = fl.push(seeded_flower(pos, seed));
    let (t1, fl2) = spawn_spec(fl1, k, FlowerParam::StemWidth, STEM_WIDTH_TARGET, GROW_MS as int, Easing::BackOut);
    let (t2, fl3) = spawn_spec(fl2, k, FlowerParam::StemLength, seed.target_stem_length, GROW_MS as int, Easing::BackOut);
    let (t3, fl4) = spawn_spec(fl3, k, FlowerParam::FaceRadius, seed.target_face_radius, GROW_MS as int, Easing::BackOut);
    (fl4, seq![t1, t2, t3])
}

/// The draw order after adding flower `k` at height `y`: it goes after every
/// flower at least as high and before every lower one.
pub open spec fn inserted_order(order: Seq<usize>, fl: Seq<Flower>, k: usize, y: i64, p: int) -> bool {
    &&& 0 <= p <= order.len()
    &&& forall|i: int| 0 <= i < p ==> fl[#[trigger] order[i] as int].pos.y >= y
    &&& forall|i: int| p <= i < order.len() ==> fl[#[trigger] order[i] as int].pos.y < y
}

/// The flower drawn from `seed`'s ranges: a circle, or a fern of 2 to 5
/// discs each 0.7 to 1.0 the size of the one before; a stem of 0.13 to 0.2
/// and a face of 0.08 to 0.11 (a circle) or 0.06 to 0.09 (a fern), in units
/// of `ONE`.
pub open spec fn seed_in_ranges(seed: FlowerSeed) -> bool {
    &&& seed.wf()
    &&& 8520 <= seed.target_stem_length < 13107
    &&& match seed.variation {
        FlowerType::Circle => 5243 <= seed.target_face_radius < 7209,
        FlowerType::Fern { count, face_ratio } => 2 <= count < 6 && 45875 <= face_ratio < 65536
            && 3932 <= seed.target_face_radius < 5898,
    }
}

/// Largest stem length, stem width or face radius that is drawn.
pub const PARAM_MAX: i64 = 0x10_0000;

/// Most discs of a fern that are drawn.
pub const FERN_MAX: u32 = 8;

/// Bound on the points of a drawn flower.
pub const DRAW_MAX: i64 = 0x800_0000;

/// The angle `a`, in fractions of a turn scaled by `ONE`, brought into one
/// turn.
pub open spec fn wrap_spec(a: int) -> int {
    a % (ONE as int)
}

/// The point at distance `len` from `p` in direction `a` (a fraction of a
/// turn scaled by `ONE`).
pub open spec fn dir_point_spec(p: Vec2, a: int, len: int) -> Vec2 {
    Vec2::spec_new(
        p.x + (cos_spec(wrap_spec(a), ONE as int) * len) / (ONE as int),
        p.y + (sin_spec(wrap_spec(a), ONE as int) * len) / (ONE as int),
    )
}

/// A fern has at most `FERN_MAX` discs, each no larger than the one before.
pub open spec fn variation_ok(v: FlowerType) -> bool {
    match v {
        FlowerType::Circle => true,
        FlowerType::Fern { count, face_ratio } => count <= FERN_MAX && 0 <= face_ratio <= ONE,
    }
}

/// A length or radius as drawn: a negative one as zero, one above
/// `PARAM_MAX` as `PARAM_MAX`.
pub open spec fn clamp_spec(v: i64) -> i64 {
    if v < 0 {
        0
    } else if v > PARAM_MAX {
        PARAM_MAX
    } else {
        v
    }
}

/// The flower as drawn: its lengths and radius clamped.
pub open spec fn clamped(f: Flower) -> Flower {
    Flower {
        stem_length: clamp_spec(f.stem_length),
        stem_width: clamp_spec(f.stem_width),
        face_radius: clamp_spec(f.face_radius),
        ..f
    }
}

/// How far along the wind's cycles the flower at `pos` is: the wind reaches
/// flowers further up and right later.
pub open spec fn wind_lag(pos: Vec2) -> int {
    (pos.x + pos.y) / 4
}

/// The angle of the wind's sway at `pos`, as a fraction of a turn scaled by
/// `ONE`.
pub open spec fn omega_spec(pos: Vec2, wp: int) -> int {
    wp * ONE / (WIND_PERIOD as int) - wind_lag(pos)
}

/// How far the wind bends a stem at `pos`: from 1/160 to 1/32 of a turn,
/// scaled by `ONE`.
pub open spec fn sway_spec(pos: Vec2, sp: int) -> int {
    let strength = (cos_spec(wrap_spec(sp * ONE / (WIND_STRENGTH_PERIOD as int) - wind_lag(pos)), ONE as int) + ONE) / 2;
    ease_spec(Easing::Linear, strength, ONE as int, 13107, ONE as int) / 32
}

/// The angle of a stem swaying `delay` behind the wind.
pub open spec fn sway_angle_spec(omega: int, sway: int, delay: int) -> int {
    (sin_spec(wrap_spec(omega - delay), ONE as int) * sway) / (ONE as int)
}

/// Lag of a face behind its stem, 0.3 radian as a fraction of a turn.
pub const FACE_DELAY: i64 = 3129;

/// The sine of a tenth of a turn, the squash of a shadow seen at a slant.
pub open spec fn yskew_spec() -> int {
    sin_spec(1, 10)
}

/// The tip of the stem.
pub open spec fn stem_tip(f: Flower, omega: int, sway: int) -> Vec2 {
    dir_point_spec(f.pos, sway_angle_spec(omega, sway, 0) + ONE / 4, f.stem_length as int)
}

/// The disc `i` of a fern (its center and radius): each is the one before,
/// moved up along the sway by `0.8 + face_ratio` of its radius and shrunk by
/// `face_ratio`.
pub open spec fn fern_disc(tip: Vec2, r0: int, omega: int, sway: int, ratio: int, i: int) -> (Vec2, int)
    decreases i,
{
    if i <= 0 {
        (tip, r0)
    } else {
        let (c, r) = fern_disc(tip, r0, omega, sway, ratio, i - 1);
        let inc = (sway_angle_spec(omega, sway, FACE_DELAY * (i - 1)) * (3 + (i - 1))) / 3;
        (dir_point_spec(c, inc + ONE / 4, (r * (52429 + ratio)) / (ONE as int)), (r * ratio) / (ONE as int))
    }
}

/// The first `m` discs of a fern.
pub open spec fn fern_part(tip: Vec2, r0: int, omega: int, sway: int, ratio: int, c: Color, m: int) -> Seq<PaperVertex>
    decreases m,
{
    if m <= 0 {
        Seq::empty()
    } else {
        let (d, r) = fern_disc(tip, r0, omega, sway, ratio, m - 1);
        fern_part(tip, r0, omega, sway, ratio, c, m - 1) + oval_spec(d, Vec2::spec_new(r, r), c)
    }
}

pub open spec fn stem_color() -> Color {
    Color { r: 158, g: 230, b: 153, a: 255 }
}

pub open spec fn shadow_color() -> Color {
    Color { r: 0, g: 0, b: 0, a: 13 }
}

/// What one flower draws with the wind at phases `wp` and `sp`: its shadow,
/// its stem, then its face, with its lengths and radius clamped into the
/// drawable range.
pub open spec fn flower_draw_spec(f0: Flower, wp: int, sp: int) -> Seq<PaperVertex> {
    let f = clamped(f0);
    {
        let omega = omega_spec(f.pos, wp);
        let sway = sway_spec(f.pos, sp);
        let tip = stem_tip(f, omega, sway);
        let rx = f.face_radius * 4 / 5;
        let shadow = oval_spec(
            Vec2::spec_new(f.pos.x as int, f.pos.y - (f.face_radius * yskew_spec() / (ONE as int)) / 3),
            Vec2::spec_new(rx, rx * yskew_spec() / (ONE as int)),
            shadow_color(),
        );
        let stem = stroke_spec(seq![f.pos, tip], f.stem_width as int, stem_color());
        let color = Color { a: 255, ..f.color };
        let face = match f.variation {
            FlowerType::Circle => oval_spec(
                dir_point_spec(f.pos, sway_angle_spec(omega, sway, FACE_DELAY as int) + ONE / 4, f.stem_length as int),
                Vec2::spec_new(f.face_radius as int, f.face_radius as int),
                color,
            ),
            FlowerType::Fern { count, face_ratio } => fern_part(tip, f.face_radius as int, omega, sway, face_ratio as int, color, count as int),
        };
        shadow + stem + face
    }
}

/// What the flowers draw, in the order `order`, back to front.
pub open spec fn flowers_draw_spec(fl: Seq<Flower>, order: Seq<usize>, wp: int, sp: int) -> Seq<PaperVertex>
    decreases order.len(),
{
    if order.len() == 0 {
        Seq::empty()
    } else {
        flowers_draw_spec(fl, order.drop_last(), wp, sp) + flower_draw_spec(fl[order.last() as int], wp, sp)
    }
}

fn wrap_turn(a: i64) -> (r: i64)
    requires
        within(a as int, 0x1000_0000),
    ensures
        r == wrap_spec(a as int),
        0 <= r < ONE,
{
    let q: i128 = floor_div(a as i128, 65536);
    proof {
        vstd::arithmetic::div_mod::lemma_fundamental_div_mod(a as int, ONE as int);
        vstd::arithmetic::div_mod::lemma_mod_bound(a as int, ONE as int);
    }
    (a as i128 - q * 65536) as i64
}

proof fn lemma_turn_scaled(t: int, r: int, bound: int)
    requires
        within(t, ONE as int),
        0 <= r <= bound,
    ensures
        within((t * r) / (ONE as int), bound),
{
    lemma_mul_within(t, r, ONE as int, bound);
    vstd::arithmetic::div_mod::lemma_fundamental_div_mod(t * r, ONE as int);
    vstd::arithmetic::div_mod::lemma_mod_bound(t * r, ONE as int);
    let q = (t * r) / (ONE as int);
    let m = (t * r) % (ONE as int);
    assert(within(q, bound)) by (nonlinear_arith)
        requires
            t * r == ONE * q + m,
            0 <= m < ONE,
            within(t * r, ONE * bound),
    ;
}

/// The point `dir_point_spec(p, a, len)`.
fn dir_point(p: Vec2, a: i64, len: i64) -> (r: Vec2)
    requires
        p.bounded(DRAW_MAX as int),
        within(a as int, 0x1000_0000),
        0 <= len <= 2 * PARAM_MAX,
    ensures
        r == dir_point_spec(p, a as int, len as int),
        r.x - p.x <= 2 * PARAM_MAX && p.x - r.x <= 2 * PARAM_MAX,
        r.y - p.y <= 2 * PARAM_MAX && p.y - r.y <= 2 * PARAM_MAX,
{
    let w: i64 = wrap_turn(a);
    let c: i64 = cos_turns(w, ONE);
    let s: i64 = sin_turns(w, ONE);
    proof {
        lemma_turn_scaled(c as int, len as int, 2 * PARAM_MAX);
        lemma_turn_scaled(s as int, len as int, 2 * PARAM_MAX);
        lemma_mul_within(c as int, len as int, ONE as int, 2 * PARAM_MAX);
        lemma_mul_within(s as int, len as int, ONE as int, 2 * PARAM_MAX);
    }
    let dx: i128 = floor_div((c as i128) * (len as i128), 65536);
    let dy: i128 = floor_div((s as i128) * (len as i128), 65536);
    Vec2::new(p.x + dx as i64, p.y + dy as i64)
}

/// `sway_angle_spec(omega, sway, delay)`.
fn sway_angle(omega: i64, sway: i64, delay: i64) -> (r: i64)
    requires
        within(omega as int, 0x800_0000),
        0 <= delay <= 0x800_0000,
        0 <= sway <= ONE,
    ensures
        r == sway_angle_spec(omega as int, sway as int, delay as int),
        within(r as int, ONE as int),
{
    let w: i64 = wrap_turn(omega - delay);
    let s: i64 = sin_turns(w, ONE);
    proof {
        lemma_turn_scaled(s as int, sway as int, ONE as int);
        lemma_mul_within(s as int, sway as int, ONE as int, ONE as int);
    }
    floor_div((s as i128) * (sway as i128), 65536) as i64
}

proof fn lemma_yskew()
    ensures
        yskew_spec() == 38479,
{
    assert(16777216int / 436 == 38479);
}

fn clamp(v: i64) -> (r: i64)
    ensures
        r == clamp_spec(v),
{
    if v < 0 {
        0
    } else if v > PARAM_MAX {
        PARAM_MAX
    } else {
        v
    }
}

/// The flower as drawn (see `clamped`).
fn clamp_flower(f: Flower) -> (r: Flower)
    ensures
        r == clamped(f),
{
    Flower {
        stem_length: clamp(f.stem_length),
        stem_width: clamp(f.stem_width),
        face_radius: clamp(f.face_radius),
        ..f
    }
}

/// From disc `i` of a fern to disc `i + 1` (see `fern_disc`).
#[verifier::rlimit(50)]
fn fern_step(tip: Vec2, r0: i64, omega: i64, sway: i64, ratio: i64, i: u32, face: Vec2, r: i64) -> (res: (Vec2, i64))
    requires
        i < FERN_MAX,
        tip.bounded(POS_MAX + 2 * PARAM_MAX),
        within(omega as int, 0x400_0000),
        0 <= sway <= ONE,
        0 <= ratio <= ONE,
        (face, r as int) == fern_disc(tip, r0 as int, omega as int, sway as int, ratio as int, i as int),
        0 <= r <= PARAM_MAX,
        within(face.x - tip.x, 2 * PARAM_MAX * i),
        within(face.y - tip.y, 2 * PARAM_MAX * i),
    ensures
        (res.0, res.1 as int) == fern_disc(tip, r0 as int, omega as int, sway as int, ratio as int, i + 1),
        0 <= res.1 <= PARAM_MAX,
        within(res.0.x - tip.x, 2 * PARAM_MAX * (i + 1)),
        within(res.0.y - tip.y, 2 * PARAM_MAX * (i + 1)),
{
    proof {
        assert(2 * PARAM_MAX * i + 2 * PARAM_MAX == 2 * PARAM_MAX * (i + 1)) by (nonlinear_arith);
        assert(2 * PARAM_MAX * i <= 2 * PARAM_MAX * 8) by (nonlinear_arith)
            requires
                i <= 8,
        ;
    }
    let a: i64 = sway_angle(omega, sway, FACE_DELAY * (i as i64));
    proof {
        assert(within(a * (3 + i), 11 * ONE)) by (nonlinear_arith)
            requires
                within(a as int, ONE as int),
                0 <= i < 8,
        ;
    }
    let inc: i64 = floor_div((a as i128) * (3 + i as i128), 3) as i64;
    proof {
        vstd::arithmetic::div_mod::lemma_fundamental_div_mod(a * (3 + i), 3);
        vstd::arithmetic::div_mod::lemma_mod_bound(a * (3 + i), 3);
        assert(r * (52429 + ratio) <= PARAM_MAX * (2 * ONE)) by (nonlinear_arith)
            requires
                0 <= r <= PARAM_MAX,
                0 <= ratio <= ONE,
        ;
        assert(0 <= r * (52429 + ratio) && 0 <= r * ratio <= r * ONE) by (nonlinear_arith)
            requires
                0 <= r,
                0 <= ratio <= ONE,
        ;
        vstd::arithmetic::div_mod::lemma_div_is_ordered(r * (52429 + ratio), PARAM_MAX * (2 * ONE), ONE as int);
        vstd::arithmetic::div_mod::lemma_div_multiples_vanish(2 * PARAM_MAX, ONE as int);
        vstd::arithmetic::div_mod::lemma_div_pos_is_pos(r * (52429 + ratio), ONE as int);
        vstd::arithmetic::div_mod::lemma_div_pos_is_pos(r * ratio, ONE as int);
        vstd::arithmetic::div_mod::lemma_div_is_ordered(r * ratio, r * ONE, ONE as int);
        vstd::arithmetic::div_mod::lemma_div_multiples_vanish(r as int, ONE as int);
    }
    let len: i64 = (((r as i128) * (52429 + ratio as i128)) / 65536) as i64;
    let next_r: i64 = (((r as i128) * (ratio as i128)) / 65536) as i64;
    let next_face = dir_point(face, inc + ONE / 4, len);
    (next_face, next_r)
}

/// Draws the first `count` discs of a fern (see `fern_part`).
fn draw_fern(
    paper: &mut Paper,
    tip: Vec2,
    r0: i64,
    omega: i64,
    sway: i64,
    ratio: i64,
    color: Color,
    count: u32,
)
    requires
        tip.bounded(POS_MAX + 2 * PARAM_MAX),
        0 <= r0 <= PARAM_MAX,
        within(omega as int, 0x400_0000),
        0 <= sway <= ONE,
        0 <= ratio <= ONE,
        count <= FERN_MAX,
    ensures
        final(paper)@ == old(paper)@ + fern_part(
            tip,
            r0 as int,
            omega as int,
            sway as int,
            ratio as int,
            color,
            count as int,
        ),
        final(paper).mesh_spec() == old(paper).mesh_spec(),
{
    let mut face = tip;
    let mut r = r0;
    let mut i: u32 = 0;
    while i < count
        invariant
            0 <= i <= count <= FERN_MAX,
            tip.bounded(POS_MAX + 2 * PARAM_MAX),
            within(omega as int, 0x400_0000),
            0 <= sway <= ONE,
            0 <= ratio <= ONE,
            (face, r as int) == fern_disc(tip, r0 as int, omega as int, sway as int, ratio as int, i as int),
            0 <= r <= PARAM_MAX,
            within(face.x - tip.x, 2 * PARAM_MAX * i),
            within(face.y - tip.y, 2 * PARAM_MAX * i),
            paper@ == old(paper)@ + fern_part(tip, r0 as int, omega as int, sway as int, ratio as int, color, i as int),
            paper.mesh_spec() == old(paper).mesh_spec(),
        decreases count - i,
    {
        assert(2 * PARAM_MAX * i <= 2 * PARAM_MAX * 8) by (nonlinear_arith)
            requires
                i <= 8,
        ;
        paper.build_circle(face, r, color);
        let (next_face, next_r) = fern_step(tip, r0, omega, sway, ratio, i, face, r);
        face = next_face;
        r = next_r;
        i = i + 1;
    }
}

/// Draws one flower (see `flower_draw_spec`).
fn draw_flower(paper: &mut Paper, f: Flower, wp: i64, sp: i64)
    requires
        f.pos.bounded(POS_MAX as int),
        0 <= wp < WIND_PERIOD,
        0 <= sp < WIND_STRENGTH_PERIOD,
        variation_ok(f.variation),
    ensures
        final(paper)@ == old(paper)@ + flower_draw_spec(f, wp as int, sp as int),
        final(paper).mesh_spec() == old(paper).mesh_spec(),
{
    let ghost f_in = f;
    let f = clamp_flower(f);
    {
        let lag: i64 = floor_div(f.pos.x as i128 + f.pos.y as i128, 4) as i64;
        proof {
            vstd::arithmetic::div_mod::lemma_fundamental_div_mod(f.pos.x + f.pos.y, 4);
            vstd::arithmetic::div_mod::lemma_mod_bound(f.pos.x + f.pos.y, 4);
            vstd::arithmetic::div_mod::lemma_div_is_ordered(wp * ONE, WIND_PERIOD * ONE, WIND_PERIOD as int);
            vstd::arithmetic::div_mod::lemma_div_pos_is_pos(wp * ONE, WIND_PERIOD as int);
            vstd::arithmetic::div_mod::lemma_div_multiples_vanish(ONE as int, WIND_PERIOD as int);
            vstd::arithmetic::div_mod::lemma_div_is_ordered(sp * ONE, WIND_STRENGTH_PERIOD * ONE, WIND_STRENGTH_PERIOD as int);
            vstd::arithmetic::div_mod::lemma_div_pos_is_pos(sp * ONE, WIND_STRENGTH_PERIOD as int);
            vstd::arithmetic::div_mod::lemma_div_multiples_vanish(ONE as int, WIND_STRENGTH_PERIOD as int);
        }
        let omega: i64 = wp * 65536 / WIND_PERIOD - lag;
        let strength_angle: i64 = wrap_turn(sp * 65536 / WIND_STRENGTH_PERIOD - lag);
        let c: i64 = cos_turns(strength_angle, ONE);
        let strength: i64 = (c + ONE) / 2;
        let eased: i64 = ease(Easing::Linear, strength, ONE, 13107, ONE);
        proof {
            assert(0 <= 52429 * strength <= 52429 * ONE) by (nonlinear_arith)
                requires
                    0 <= strength <= ONE,
            ;
            vstd::arithmetic::div_mod::lemma_div_is_ordered(52429 * strength, 52429 * ONE, ONE as int);
            vstd::arithmetic::div_mod::lemma_div_pos_is_pos(52429 * strength, ONE as int);
            vstd::arithmetic::div_mod::lemma_div_multiples_vanish(52429, ONE as int);
        }
        let sway: i64 = eased / 32;
        let tip_angle: i64 = sway_angle(omega, sway, 0) + ONE / 4;
        let tip = dir_point(f.pos, tip_angle, f.stem_length);
        let yskew: i64 = sin_turns(1, 10);
        proof {
            lemma_yskew();
            assert(0 <= f.face_radius * 38479 <= PARAM_MAX * 38479) by (nonlinear_arith)
                requires
                    0 <= f.face_radius <= PARAM_MAX,
            ;
            vstd::arithmetic::div_mod::lemma_div_is_ordered(f.face_radius * 38479, PARAM_MAX * 38479, ONE as int);
            vstd::arithmetic::div_mod::lemma_div_pos_is_pos(f.face_radius * 38479, ONE as int);
        }
        let cy: i64 = f.pos.y - (f.face_radius * yskew / ONE) / 3;
        let rx: i64 = f.face_radius * 4 / 5;
        proof {
            assert(0 <= rx * 38479 <= PARAM_MAX * 38479) by (nonlinear_arith)
                requires
                    0 <= rx <= PARAM_MAX,
            ;
            vstd::arithmetic::div_mod::lemma_div_is_ordered(rx * 38479, PARAM_MAX * 38479, ONE as int);
            vstd::arithmetic::div_mod::lemma_div_pos_is_pos(rx * 38479, ONE as int);
        }
        let ry: i64 = rx * yskew / ONE;
        paper.build_oval(Vec2::new(f.pos.x, cy), Vec2::new(rx, ry), Color::new(0, 0, 0, 13));
        let stem = vec![f.pos, tip];
        paper.build_line(stem.as_slice(), f.stem_width, Color::new(158, 230, 153, 255));
        let color = Color { a: 255, ..f.color };
        match f.variation {
            FlowerType::Circle => {
                let face_angle: i64 = sway_angle(omega, sway, FACE_DELAY) + ONE / 4;
                let face = dir_point(f.pos, face_angle, f.stem_length);
                paper.build_circle(face, f.face_radius, color);
            },
            FlowerType::Fern { count, face_ratio } => {
                draw_fern(paper, tip, f.face_radius, omega, sway, face_ratio, color, count);
            },
        }
        proof {
            assert(stem@ =~= seq![f.pos, tip]);
            assert(paper@ =~= old(paper)@ + flower_draw_spec(f_in, wp as int, sp as int));
        }
    }
}

/// The task and the arena after `k` resumptions, one after another.
pub open spec fn resumed(t: ParameterLerp, fl: Seq<Flower>, k: nat) -> (ParameterLerp, Seq<Flower>)
    decreases k,
{
    if k == 0 {
        (t, fl)
    } else {
        let (t1, fl1) = resumed(t, fl, (k - 1) as nat);
        t1.resume_spec(fl1)
    }
}

proof fn lemma_resumed_steps(t0: ParameterLerp, fl0: Seq<Flower>, k: nat)
    requires
        t0.num_steps >= 1,
        t0.step == 1,
        !t0.done,
        t0.flower < fl0.len(),
        k <= t0.num_steps - 1,
        param_spec(fl0[t0.flower as int], t0.param) == ease_spec(t0.easing, 0, t0.num_steps as int, t0.from as int, t0.to as int) as i64,
    ensures
        resumed(t0, fl0, k).0 == (ParameterLerp { step: (k + 1) as i64, ..t0 }),
        resumed(t0, fl0, k).1.len() == fl0.len(),
        param_spec(resumed(t0, fl0, k).1[t0.flower as int], t0.param) == ease_spec(
            t0.easing,
            k as int,
            t0.num_steps as int,
            t0.from as int,
            t0.to as int,
        ) as i64,
    decreases k,
{
    if k > 0 {
        lemma_resumed_steps(t0, fl0, (k - 1) as nat);
    }
}

/// A parameter animation of `n >= 1` steps, just made, is still running
/// after `n - 1` resumptions and completes at the `n`-th; it leaves the
/// parameter at the eased value of progress `(n - 1) / n`, one step short of
/// full progress.
pub proof fn lemma_animation_stops_one_step_short(
    fl: Seq<Flower>,
    flower: usize,
    param: FlowerParam,
    to: i64,
    ms: int,
    easing: Easing,
)
    requires
        flower < fl.len(),
        0 <= ms <= DURATION_MAX_MS,
        steps_for(ms) >= 1,
        within(param_spec(fl[flower as int], param) as int, VALUE_MAX as int),
        within(to as int, VALUE_MAX as int),
    ensures
        ({
            let (t0, fl0) = spawn_spec(fl, flower as int, param, to, ms, easing);
            let n = steps_for(ms);
            let from = param_spec(fl[flower as int], param);
            &&& !resumed(t0, fl0, (n - 1) as nat).0.done
            &&& resumed(t0, fl0, n as nat).0.done
            &&& param_spec(resumed(t0, fl0, n as nat).1[flower as int], param) == ease_spec(
                easing,
                n - 1,
                n,
                from as int,
                to as int,
            ) as i64
        }),
{
    let (t0, fl0) = spawn_spec(fl, flower as int, param, to, ms, easing);
    let n = steps_for(ms);
    assert(n <= STEPS_MAX) by {
        vstd::arithmetic::div_mod::lemma_div_is_ordered(ms * FRAME_RATE, DURATION_MAX_MS * FRAME_RATE, 1000);
    }
    let k1 = (n - 1) as nat;
    lemma_resumed_steps(t0, fl0, k1);
    assert(resumed(t0, fl0, n as nat) == resumed(t0, fl0, k1).0.resume_spec(resumed(t0, fl0, k1).1));
    assert(resumed(t0, fl0, n as nat).1 == resumed(t0, fl0, k1).1);
}

/// Every flower, the tasks that animate them and the phase of the wind.
pub struct FlowerManager {
    flower_descriptions: Vec<Flower>,
    flower_updates: Vec<ParameterLerp>,
    /// Indices of the flowers from back (largest `y`) to front.
    draw_order: Vec<usize>,
    wind_strength_phase: i64,
    wind_phase: i64,
}

impl FlowerManager {
    pub closed spec fn flowers_spec(&self) -> Seq<Flower> {
        self.flower_descriptions@
    }

    pub closed spec fn tasks_spec(&self) -> Seq<ParameterLerp> {
        self.flower_updates@
    }

    pub closed spec fn order_spec(&self) -> Seq<usize> {
        self.draw_order@
    }

    pub closed spec fn wind_phase_spec(&self) -> i64 {
        self.wind_phase
    }

    pub closed spec fn wind_strength_phase_spec(&self) -> i64 {
        self.wind_strength_phase
    }

    /// Every task refers to a flower; every flower stands in range; the draw
    /// order lists each flower exactly once (as many distinct indices as
    /// flowers, each below their number), from the highest to the lowest.
    pub open spec fn wf(&self) -> bool {
        let fl = self.flowers_spec();
        &&& forall|i: int| 0 <= i < self.tasks_spec().len() ==> (#[trigger] self.tasks_spec()[i]).wf(fl.len() as int)
        &&& forall|i: int| 0 <= i < fl.len() ==> (#[trigger] fl[i]).pos.bounded(POS_MAX as int)
        &&& forall|i: int| 0 <= i < fl.len() ==> variation_ok((#[trigger] fl[i]).variation)
        &&& forall|i: int, j: int| 0 <= i < j < self.order_spec().len() ==> self.order_spec()[i] != self.order_spec()[j]
        &&& self.order_spec().len() == fl.len()
        &&& forall|i: int| 0 <= i < self.order_spec().len() ==> #[trigger] self.order_spec()[i] < fl.len()
        &&& forall|i: int, j: int| 0 <= i < j < self.order_spec().len() ==> fl[#[trigger] self.order_spec()[i] as int].pos.y >= fl[#[trigger] self.order_spec()[j] as int].pos.y
        &&& 0 <= self.wind_phase_spec() < WIND_PERIOD
        &&& 0 <= self.wind_strength_phase_spec() < WIND_STRENGTH_PERIOD
    }

    pub fn new() -> (r: FlowerManager)
        ensures
            r.wf(),
            r.flowers_spec() == Seq::<Flower>::empty(),
            r.tasks_spec() == Seq::<ParameterLerp>::empty(),
            r.wind_phase_spec() == 0,
            r.wind_strength_phase_spec() == 0,
    {
        FlowerManager {
            flower_descriptions: Vec::new(),
            flower_updates: Vec::new(),
            draw_order: Vec::new(),
            wind_strength_phase: 0,
            wind_phase: 0,
        }
    }

    /// The flowers, in the order they were added.
    pub fn flowers(&self) -> (r: &Vec<Flower>)
        ensures
            r@ == self.flowers_spec(),
    {
        &self.flower_descriptions
    }

    /// The live animation tasks, in the order they were made.
    pub fn tasks(&self) -> (r: &Vec<ParameterLerp>)
        ensures
            r@ == self.tasks_spec(),
    {
        &self.flower_updates
    }

    /// The flowers' indices from back to front.
    pub fn draw_order(&self) -> (r: &Vec<usize>)
        ensures
            r@ == self.order_spec(),
    {
        &self.draw_order
    }

    /// Starts easing `param` of flower `flower` toward `to` over `ms`
    /// milliseconds; step `0` is taken at once (see `ParameterLerp`).
    pub fn animate(&mut self, flower: usize, param: FlowerParam, to: i64, ms: i64, easing: Easing)
        requires
            old(self).wf(),
            flower < old(self).flowers_spec().len(),
            within(param_spec(old(self).flowers_spec()[flower as int], param) as int, VALUE_MAX as int),
            within(to as int, VALUE_MAX as int),
            0 <= ms <= DURATION_MAX_MS,
        ensures
            final(self).wf(),
            final(self).tasks_spec() == old(self).tasks_spec().push(
                spawn_spec(old(self).flowers_spec(), flower as int, param, to, ms as int, easing).0,
            ),
            final(self).flowers_spec() == spawn_spec(old(self).flowers_spec(), flower as int, param, to, ms as int, easing).1,
            final(self).order_spec() == old(self).order_spec(),
            final(self).wind_phase_spec() == old(self).wind_phase_spec(),
            final(self).wind_strength_phase_spec() == old(self).wind_strength_phase_spec(),
    {
        let n: i64 = ms * FRAME_RATE / 1000;
        let from = self.flower_descriptions[flower].param(param);
        let mut t = ParameterLerp { flower, param, from, to, easing, num_steps: n, step: 0, done: n == 0 };
        if n != 0 {
            t.resume(&mut self.flower_descriptions);
        }
        self.flower_updates.push(t);
        proof {
            let fl = self.flower_descriptions@;
            assert forall|i: int| 0 <= i < fl.len() implies (#[trigger] fl[i]).pos.bounded(POS_MAX as int) by {
                assert(fl[i].pos == old(self).flowers_spec()[i].pos);
            }
            assert forall|i: int| 0 <= i < fl.len() implies variation_ok((#[trigger] fl[i]).variation) by {
                assert(fl[i].variation == old(self).flowers_spec()[i].variation);
            }
            assert forall|i: int, j: int| 0 <= i < j < self.draw_order@.len() implies fl[#[trigger] self.draw_order@[i] as int].pos.y >= fl[#[trigger] self.draw_order@[j] as int].pos.y by {
                assert(fl[self.draw_order@[i] as int].pos == old(self).flowers_spec()[self.draw_order@[i] as int].pos);
                assert(fl[self.draw_order@[j] as int].pos == old(self).flowers_spec()[self.draw_order@[j] as int].pos);
            }
            assert forall|i: int| 0 <= i < self.flower_updates@.len() implies (#[trigger] self.flower_updates@[i]).wf(fl.len() as int) by {
                if i < old(self).tasks_spec().len() {
                    assert(self.flower_updates@[i] == old(self).tasks_spec()[i]);
                }
            }
        }
    }

    /// Adds the flower of `seed` at `pos` with its three growth tasks (see
    /// `added_spec`), and places it in the draw order by height.
    pub fn add_flower_with(&mut self, pos: Vec2, seed: FlowerSeed)
        requires
            old(self).wf(),
            pos.bounded(POS_MAX as int),
            seed.wf(),
            old(self).flowers_spec().len() < usize::MAX,
        ensures
            final(self).wf(),
            final(self).flowers_spec() == added_spec(old(self).flowers_spec(), pos, seed).0,
            final(self).tasks_spec() == old(self).tasks_spec() + added_spec(old(self).flowers_spec(), pos, seed).1,
            exists|p: int| #[trigger] inserted_order(old(self).order_spec(), old(self).flowers_spec(), old(self).flowers_spec().len() as usize, pos.y, p)
                && final(self).order_spec() == old(self).order_spec().insert(p, old(self).flowers_spec().len() as usize),
            final(self).wind_phase_spec() == old(self).wind_phase_spec(),
            final(self).wind_strength_phase_spec() == old(self).wind_strength_phase_spec(),
    {
        let k: usize = self.flower_descriptions.len();
        let c0 = palette(seed.color_a);
        let c1 = palette(seed.color_b);
        let flower = Flower {
            pos,
            color: mix(c0, c1, seed.mix),
            stem_length: 0,
            stem_width: STEM_WIDTH_START,
            face_radius: 0,
            variation: seed.variation,
        };
        let ghost fl_old = self.flower_descriptions@;
        let ghost order_old = self.draw_order@;
        self.flower_descriptions.push(flower);
        let n: usize = self.draw_order.len();
        let mut p: usize = 0;
        while p < n && self.flower_descriptions[self.draw_order[p]].pos.y >= pos.y
            invariant
                0 <= p <= n,
                n == self.draw_order@.len(),
                self.draw_order@ == order_old,
                self.flower_descriptions@ == fl_old.push(flower),
                forall|i: int| 0 <= i < n ==> #[trigger] order_old[i] < fl_old.len(),
                forall|i: int| 0 <= i < p ==> fl_old[#[trigger] order_old[i] as int].pos.y >= pos.y,
            decreases n - p,
        {
            p = p + 1;
        }
        proof {
            assert forall|i: int| p <= i < n implies fl_old[#[trigger] order_old[i] as int].pos.y < pos.y by {
                if i > p {
                    assert(fl_old[order_old[p as int] as int].pos.y >= fl_old[order_old[i] as int].pos.y);
                }
            }
        }
        self.draw_order.insert(p, k);
        proof {
            let fl = self.flower_descriptions@;
            let o = self.draw_order@;
            assert(inserted_order(order_old, fl_old, k, pos.y, p as int));
            assert forall|i: int, j: int| 0 <= i < j < o.len() implies fl[#[trigger] o[i] as int].pos.y >= fl[#[trigger] o[j] as int].pos.y by {
                if i < p && j < p {
                    assert(fl[o[i] as int] == fl_old[order_old[i] as int]);
                    assert(fl[o[j] as int] == fl_old[order_old[j] as int]);
                } else if i < p && j == p {
                    assert(fl[o[i] as int] == fl_old[order_old[i] as int]);
                } else if i < p {
                    assert(fl[o[i] as int] == fl_old[order_old[i] as int]);
                    assert(fl[o[j] as int] == fl_old[order_old[j - 1] as int]);
                } else if i == p {
                    assert(fl[o[j] as int] == fl_old[order_old[j - 1] as int]);
                } else {
                    assert(fl[o[i] as int] == fl_old[order_old[i - 1] as int]);
                    assert(fl[o[j] as int] == fl_old[order_old[j - 1] as int]);
                }
            }
            assert forall|i: int| 0 <= i < o.len() implies #[trigger] o[i] < fl.len() by {
                if i < p {
                    assert(o[i] == order_old[i]);
                } else if i > p {
                    assert(o[i] == order_old[i - 1]);
                }
            }
            assert forall|i: int| 0 <= i < fl.len() implies (#[trigger] fl[i]).pos.bounded(POS_MAX as int)
                && variation_ok(fl[i].variation) by {
                if i < fl_old.len() {
                    assert(fl[i] == fl_old[i]);
                }
            }
            assert forall|i: int, j: int| 0 <= i < j < o.len() implies o[i] != o[j] by {
                if i < p && j < p {
                    assert(o[i] == order_old[i] && o[j] == order_old[j]);
                } else if i < p && j == p {
                    assert(o[i] == order_old[i]);
                } else if i < p {
                    assert(o[i] == order_old[i] && o[j] == order_old[j - 1]);
                } else if i == p {
                    assert(o[j] == order_old[j - 1]);
                } else {
                    assert(o[i] == order_old[i - 1] && o[j] == order_old[j - 1]);
                }
            }
            assert forall|i: int| 0 <= i < self.flower_updates@.len() implies (#[trigger] self.flower_updates@[i]).wf(fl.len() as int) by {
                assert(self.flower_updates@[i] == old(self).tasks_spec()[i]);
            }
        }
        self.animate(k, FlowerParam::StemWidth, STEM_WIDTH_TARGET, GROW_MS, Easing::BackOut);
        self.animate(k, FlowerParam::StemLength, seed.target_stem_length, GROW_MS, Easing::BackOut);
        self.animate(k, FlowerParam::FaceRadius, seed.target_face_radius, GROW_MS, Easing::BackOut);
        proof {
            assert(self.flower_updates@ =~= old(self).tasks_spec() + added_spec(fl_old, pos, seed).1);
        }
    }

    /// Adds a flower at `pos` whose look and size are drawn at random (see
    /// `seed_in_ranges`).
    pub fn add_flower(&mut self, pos: Vec2)
        requires
            old(self).wf(),
            pos.bounded(POS_MAX as int),
            old(self).flowers_spec().len() < usize::MAX,
        ensures
            final(self).wf(),
            exists|seed: FlowerSeed| #[trigger] seed_in_ranges(seed)
                && final(self).flowers_spec() == added_spec(old(self).flowers_spec(), pos, seed).0
                && final(self).tasks_spec() == old(self).tasks_spec() + added_spec(old(self).flowers_spec(), pos, seed).1,
            final(self).flowers_spec().len() == old(self).flowers_spec().len() + 1,
            final(self).tasks_spec().len() == old(self).tasks_spec().len() + 3,
            exists|p: int| #[trigger] inserted_order(old(self).order_spec(), old(self).flowers_spec(), old(self).flowers_spec().len() as usize, pos.y, p)
                && final(self).order_spec() == old(self).order_spec().insert(p, old(self).flowers_spec().len() as usize),
    {
        let fern_count: u32 = 2 + random_below(4);
        let fern_ratio: i64 = 45875 + random_below(19661) as i64;
        let variation = if random_below(2) == 0 {
            FlowerType::Circle
        } else {
            FlowerType::Fern { count: fern_count, face_ratio: fern_ratio }
        };
        let color_a: usize = random_below(6) as usize;
        let color_b: usize = random_below(6) as usize;
        let mix: u32 = random_below(257);
        let target_face_radius: i64 = match variation {
            FlowerType::Circle => 5243 + random_below(1966) as i64,
            FlowerType::Fern { .. } => 3932 + random_below(1966) as i64,
        };
        let target_stem_length: i64 = 8520 + random_below(4587) as i64;
        let seed = FlowerSeed { variation, color_a, color_b, mix, target_stem_length, target_face_radius };
        self.add_flower_with(pos, seed);
        assert(seed_in_ranges(seed));
    }

    /// Draws every flower, back to front, swayed by the wind's current
    /// phase (see `flowers_draw_spec`).
    pub fn draw(&self, paper: &mut Paper)
        requires
            self.wf(),
        ensures
            final(paper)@ == old(paper)@ + flowers_draw_spec(
                self.flowers_spec(),
                self.order_spec(),
                self.wind_phase_spec() as int,
                self.wind_strength_phase_spec() as int,
            ),
            final(paper).mesh_spec() == old(paper).mesh_spec(),
    {
        let n: usize = self.draw_order.len();
        let mut i: usize = 0;
        let ghost order = self.draw_order@;
        while i < n
            invariant
                0 <= i <= n,
                n == order.len(),
                self.wf(),
                order == self.order_spec(),
                paper@ == old(paper)@ + flowers_draw_spec(
                    self.flowers_spec(),
                    order.take(i as int),
                    self.wind_phase as int,
                    self.wind_strength_phase as int,
                ),
                paper.mesh_spec() == old(paper).mesh_spec(),
            decreases n - i,
        {
            let k: usize = self.draw_order[i];
            assert(order[i as int] < self.flowers_spec().len());
            let f = self.flower_descriptions[k];
            assert(self.flowers_spec()[k as int].pos.bounded(POS_MAX as int));
            assert(variation_ok(self.flowers_spec()[k as int].variation));
            draw_flower(paper, f, self.wind_phase, self.wind_strength_phase);
            proof {
                assert(order.take(i + 1).drop_last() =~= order.take(i as int));
                assert(order.take(i + 1).last() == order[i as int]);
            }
            i = i + 1;
        }
        proof {
            assert(order.take(n as int) =~= order);
        }
    }

    /// One frame: the wind moves on, every task is resumed once in order,
    /// and the completed tasks are removed.
    pub fn update(&mut self)
        requires
            old(self).wf(),
        ensures
            final(self).wf(),
            (final(self).flowers_spec(), final(self).tasks_spec()) == tick_spec(old(self).flowers_spec(), old(self).tasks_spec()),
            final(self).order_spec() == old(self).order_spec(),
            final(self).wind_phase_spec() == (old(self).wind_phase_spec() + 1) % (WIND_PERIOD as int),
            final(self).wind_strength_phase_spec() == (old(self).wind_strength_phase_spec() + 1) % (WIND_STRENGTH_PERIOD as int),
    {
        self.wind_phase = (self.wind_phase + 1) % WIND_PERIOD;
        self.wind_strength_phase = (self.wind_strength_phase + 1) % WIND_STRENGTH_PERIOD;
        let ghost fl0 = self.flower_descriptions@;
        assert forall|i: int| 0 <= i < self.flower_updates@.len() implies (#[trigger] self.flower_updates@[i]).wf(fl0.len() as int) by {
            assert(self.flower_updates@[i] == old(self).tasks_spec()[i]);
        }
        tick(&mut self.flower_descriptions, &mut self.flower_updates);
        proof {
            lemma_run_tasks_keeps_pos(fl0, old(self).tasks_spec());
            let fl = self.flower_descriptions@;
            assert forall|i: int| 0 <= i < fl.len() implies (#[trigger] fl[i]).pos.bounded(POS_MAX as int) by {
                assert(fl[i].pos == fl0[i].pos);
            }
            assert forall|i: int| 0 <= i < fl.len() implies variation_ok((#[trigger] fl[i]).variation) by {
                assert(fl[i].variation == fl0[i].variation);
            }
            assert forall|i: int, j: int| 0 <= i < j < self.draw_order@.len() implies fl[#[trigger] self.draw_order@[i] as int].pos.y >= fl[#[trigger] self.draw_order@[j] as int].pos.y by {
                assert(fl[self.draw_order@[i] as int].pos == fl0[self.draw_order@[i] as int].pos);
                assert(fl[self.draw_order@[j] as int].pos == fl0[self.draw_order@[j] as int].pos);
            }
        }
    }
}

/// Tasks change parameters only: the arena keeps its length and every
/// flower its position and variation.
proof fn lemma_run_tasks_keeps_pos(fl: Seq<Flower>, ts: Seq<ParameterLerp>)
    requires
        forall|i: int| 0 <= i < ts.len() ==> (#[trigger] ts[i]).wf(fl.len() as int),
    ensures
        run_tasks(fl, ts).0.len() == fl.len(),
        forall|i: int| 0 <= i < fl.len() ==> (#[trigger] run_tasks(fl, ts).0[i]).pos == fl[i].pos
            && run_tasks(fl, ts).0[i].variation == fl[i].variation,
    decreases ts.len(),
{
    if ts.len() > 0 {
        let pre = ts.drop_last();
        assert forall|i: int| 0 <= i < pre.len() implies (#[trigger] pre[i]).wf(fl.len() as int) by {
            assert(pre[i] == ts[i]);
        }
        lemma_run_tasks_keeps_pos(fl, pre);
        assert(ts.last() == ts[ts.len() - 1]);
    }
}

} // verus!
