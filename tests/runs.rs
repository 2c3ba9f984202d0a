use rbonsai::branch::GrowthConfig;
use rbonsai::frame::{key_signal, should_present, ControlSignal, Playback};
use rbonsai::growth::{grow_tree, Growth};

fn config(multiplier: i32, life_start: i32) -> GrowthConfig {
    GrowthConfig {
        multiplier,
        life_start,
        leaves: vec!['&'],
        live: false,
        load: false,
        target_branch_count: 0,
        verbosity: 0,
    }
}

fn same_run(a: &Growth, b: &Growth) -> bool {
    a.counters == b.counters
        && a.strokes.len() == b.strokes.len()
        && a.strokes.iter().zip(b.strokes.iter()).all(|(s, t)| {
            s == t
        })
}

#[test]
fn empty_life_draws_nothing() {
    let g = grow_tree(&config(5, 0), 1, 40, 50, 39);
    assert_eq!(g.strokes.len(), 0);
    assert_eq!(g.counters.branches, 0);
    assert_eq!(g.counters.shoots, 0);
}

#[test]
fn single_step_tree_counts_one_segment() {
    // the only step spawns a dead branch with no life left, which draws nothing
    let g = grow_tree(&config(5, 1), 1, 40, 50, 39);
    assert_eq!(g.strokes.len(), 1);
    assert_eq!(g.counters.branches, 1);
}

#[test]
fn branch_count_equals_glyph_writes() {
    for seed in [1u64, 42, 99] {
        let g = grow_tree(&config(5, 32), seed, 40, 50, 39);
        assert_eq!(g.counters.branches as usize, g.strokes.len());
        for (i, s) in g.strokes.iter().enumerate() {
            assert_eq!(s.branches as usize, i + 1);
        }
    }
}

#[test]
fn default_tree_finishes_under_the_ceiling() {
    let g = grow_tree(&config(5, 32), 42, 40, 50, 39);
    assert!(g.fuel_left > 0);
    assert_eq!(g.strokes.len() as u64 + g.fuel_left, 33 * 6 * 4096);
}

#[test]
fn default_tree_stays_above_the_bottom_edge() {
    let g = grow_tree(&config(5, 32), 42, 40, 50, 39);
    assert!(g.strokes.len() >= 32);
    assert_eq!(g.counters.branches as usize, g.strokes.len());
    assert_eq!(g.counters.shoots, g.counters.shoot_counter);
    assert!(g.strokes.iter().all(|s| s.y < 40));
    assert!(g.strokes.iter().all(|s| !s.glyph.text().is_empty()));
}

#[test]
fn same_seed_same_tree() {
    for seed in [0u64, 7, 42, 1234] {
        let a = grow_tree(&config(5, 32), seed, 40, 50, 39);
        let b = grow_tree(&config(5, 32), seed, 40, 50, 39);
        assert!(same_run(&a, &b));
    }
}

#[test]
fn extreme_config_terminates() {
    let g = grow_tree(&config(20, 200), 9, 60, 100, 59);
    assert!(g.strokes.len() >= 200);
    assert_eq!(g.strokes.len() as u64 + g.fuel_left, 201 * 21 * 4096);
    assert!(g.strokes.iter().all(|s| s.y < 60));
}

#[test]
fn stroke_branch_counts_never_fall() {
    let g = grow_tree(&config(5, 32), 42, 40, 50, 39);
    assert!(g.strokes.windows(2).all(|w| w[0].branches <= w[1].branches));
    assert!(g.strokes.iter().all(|s| s.branches <= g.counters.branches));
}

#[test]
fn quit_key_terminates() {
    assert_eq!(key_signal(false, Some('q' as u32)), ControlSignal::Terminate);
    assert_eq!(key_signal(false, Some('x' as u32)), ControlSignal::Continue);
    assert_eq!(key_signal(true, Some('x' as u32)), ControlSignal::Terminate);
    assert_eq!(key_signal(true, None), ControlSignal::Continue);
    assert_eq!(key_signal(false, None), ControlSignal::Continue);
}

#[test]
fn frames_are_paced_only_when_live_and_caught_up() {
    let mut c = config(5, 32);
    assert!(!should_present(&c, 10));
    c.live = true;
    assert!(should_present(&c, 10));
    c.load = true;
    c.target_branch_count = 20;
    assert!(!should_present(&c, 10));
    assert!(should_present(&c, 20));
    assert!(should_present(&c, 25));
}

#[test]
fn cancellation_stops_playback() {
    let mut p = Playback::new(5);
    assert_eq!(p.advance(ControlSignal::Continue), Some(0));
    assert_eq!(p.advance(ControlSignal::Continue), Some(1));
    assert_eq!(p.advance(ControlSignal::Terminate), None);
    assert!(p.finished());
    assert_eq!(p.advance(ControlSignal::Continue), None);
    assert_eq!(p.advance(ControlSignal::Continue), None);
    assert_eq!(p.next, 2);
}

#[test]
fn playback_ends_after_last_stroke() {
    let mut p = Playback::new(2);
    assert_eq!(p.advance(ControlSignal::Continue), Some(0));
    assert_eq!(p.advance(ControlSignal::Continue), Some(1));
    assert!(p.finished());
    assert_eq!(p.advance(ControlSignal::Continue), None);
    assert!(!p.stopped);
}

#[test]
fn persisted_branch_count_follows_playback() {
    let g = grow_tree(&config(5, 32), 42, 40, 50, 39);
    let n = g.strokes.len();
    assert_eq!(g.branches_shown(n), g.counters.branches);
    assert_eq!(g.branches_shown(0), 0);
    assert_eq!(g.branches_shown(3), 3);
}
