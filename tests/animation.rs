use paper_garden::easing::{ease, Easing};
use paper_garden::flower::{FlowerManager, FlowerParam, FlowerSeed, FlowerType};
use paper_garden::geometry::{Vec2, ONE};
use paper_garden::paper::Paper;
use paper_garden::particle::ParticleManager;

fn seed(variation: FlowerType, stem: i64, face: i64) -> FlowerSeed {
    FlowerSeed {
        variation,
        color_a: 0,
        color_b: 5,
        mix: 128,
        target_stem_length: stem,
        target_face_radius: face,
    }
}

/// A manager holding one grown flower with no task left.
fn grown(variation: FlowerType, stem: i64, face: i64) -> FlowerManager {
    let mut m = FlowerManager::new();
    m.add_flower_with(Vec2::new(0, 0), seed(variation, stem, face));
    assert_eq!(m.tasks().len(), 3);
    for _ in 0..30 {
        m.update();
    }
    assert!(m.tasks().is_empty());
    m
}

#[test]
fn easing_exact_values() {
    assert_eq!(ease(Easing::Linear, 59, 60, 0, 10 * ONE), 644437);
    assert_eq!(ease(Easing::QuadIn, 1, 2, 0, 100), 25);
    assert_eq!(ease(Easing::QuadOut, 1, 2, 0, 100), 75);
    assert_eq!(ease(Easing::BackOut, 0, 30, 7, 1000), 7);
    assert_eq!(ease(Easing::BackOut, 30, 30, 7, 1000), 1000);
    // back-out overshoots its target before settling
    assert!(ease(Easing::BackOut, 20, 30, 0, 1000) > 1000);
    assert_eq!(ease(Easing::QuadIn, -2, 2, 10, 0), 0);
}

#[test]
fn growth_ends_one_step_short_of_full_progress() {
    let m = grown(FlowerType::Circle, 10000, 6000);
    let f = m.flowers()[0];
    assert_eq!(f.stem_width, ease(Easing::BackOut, 29, 30, 655, 3277));
    assert_eq!(f.stem_length, ease(Easing::BackOut, 29, 30, 0, 10000));
    assert_eq!(f.face_radius, ease(Easing::BackOut, 29, 30, 0, 6000));
}

#[test]
fn linear_tween_stops_at_59_of_60() {
    let mut m = grown(FlowerType::Circle, 0, 6000);
    assert_eq!(m.flowers()[0].stem_length, 0);
    m.animate(0, FlowerParam::StemLength, 10 * ONE, 1000, Easing::Linear);
    for _ in 0..59 {
        m.update();
    }
    assert_eq!(m.tasks().len(), 1);
    m.update();
    assert!(m.tasks().is_empty());
    let v = m.flowers()[0].stem_length;
    assert_eq!(v, ease(Easing::Linear, 59, 60, 0, 10 * ONE));
    assert!((v as f64 / ONE as f64 - 9.833).abs() < 0.001);
    assert_ne!(v, 10 * ONE);
}

#[test]
fn completed_task_leaves_and_order_is_kept() {
    let mut m = grown(FlowerType::Circle, 10000, 6000);
    m.animate(0, FlowerParam::StemWidth, 5000, 10_000, Easing::Linear);
    m.animate(0, FlowerParam::StemLength, 20000, 17, Easing::Linear);
    m.animate(0, FlowerParam::FaceRadius, 9000, 10_000, Easing::Linear);
    assert_eq!(m.tasks().len(), 3);
    m.update();
    assert_eq!(m.tasks().len(), 2);
    for _ in 0..4 {
        m.update();
    }
    let t = m.tasks();
    assert_eq!(t.len(), 2);
    assert_eq!(t[0].param, FlowerParam::StemWidth);
    assert_eq!(t[1].param, FlowerParam::FaceRadius);
}

#[test]
fn later_task_wins_a_shared_field() {
    let mut m = grown(FlowerType::Circle, 10000, 6000);
    m.animate(0, FlowerParam::FaceRadius, 0, 1000, Easing::Linear);
    m.animate(0, FlowerParam::FaceRadius, 12000, 1000, Easing::Linear);
    m.update();
    let from = ease(Easing::BackOut, 29, 30, 0, 6000);
    assert_eq!(m.flowers()[0].face_radius, ease(Easing::Linear, 1, 60, from, 12000));
}

#[test]
fn zero_length_animation_is_done_at_once() {
    let mut m = grown(FlowerType::Circle, 10000, 6000);
    m.animate(0, FlowerParam::StemWidth, 1, 0, Easing::Linear);
    assert!(!m.tasks()[0].is_valid());
    m.update();
    assert!(m.tasks().is_empty());
}

#[test]
fn flowers_are_drawn_back_to_front() {
    let mut m = FlowerManager::new();
    m.add_flower_with(Vec2::new(0, 100), seed(FlowerType::Circle, 9000, 6000));
    m.add_flower_with(Vec2::new(0, 300), seed(FlowerType::Circle, 9000, 6000));
    m.add_flower_with(Vec2::new(0, 200), seed(FlowerType::Circle, 9000, 6000));
    assert_eq!(m.draw_order().clone(), vec![1, 2, 0]);
    assert_eq!(m.tasks().len(), 9);
}

#[test]
fn circle_flower_draws_shadow_stem_and_face() {
    let m = grown(FlowerType::Circle, 10000, 6000);
    let mut paper = Paper::new(1);
    m.draw(&mut paper);
    assert_eq!(paper.verts().len(), 102 + 54 + 102);
}

#[test]
fn fern_flower_draws_each_disc() {
    let m = grown(FlowerType::Fern { count: 3, face_ratio: 52000 }, 10000, 5000);
    let mut paper = Paper::new(1);
    m.draw(&mut paper);
    assert_eq!(paper.verts().len(), 102 + 54 + 3 * 102);
}

#[test]
fn random_flower_grows_with_three_tasks() {
    let mut m = FlowerManager::new();
    m.add_flower(Vec2::new(ONE / 2, -ONE / 2));
    assert_eq!(m.flowers().len(), 1);
    assert_eq!(m.tasks().len(), 3);
    let f = m.flowers()[0];
    assert_eq!(f.pos, Vec2::new(ONE / 2, -ONE / 2));
    assert_eq!(f.stem_length, 0);
    assert_eq!(f.stem_width, 655);
    for _ in 0..30 {
        m.update();
    }
    let f = m.flowers()[0];
    assert!(f.stem_length >= 8000 && f.stem_length < 14000);
}

#[test]
fn burst_lives_24_frames() {
    let mut p = ParticleManager::new(9);
    p.add_pop(Vec2::new(0, 0));
    for frame in 0..24 {
        assert_eq!(p.pops().len(), 1);
        p.draw();
        assert_eq!(p.paper().verts().len(), 6 * 54, "frame {}", frame);
        assert_eq!(p.paper().mesh().count, 6 * 54);
    }
    assert!(p.pops().is_empty());
    p.draw();
    assert_eq!(p.paper().mesh().count, 0);
}

#[test]
fn flower_with_negative_radius_still_draws() {
    let mut m = grown(FlowerType::Circle, 10000, 6000);
    m.animate(0, FlowerParam::FaceRadius, -20000, 34, Easing::Linear);
    m.update();
    assert!(m.flowers()[0].face_radius < 0);
    let mut paper = Paper::new(1);
    m.draw(&mut paper);
    assert_eq!(paper.verts().len(), 102 + 54 + 102);
}
