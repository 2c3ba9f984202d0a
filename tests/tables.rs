use rbonsai::branch::{BranchKind, Paint};
use rbonsai::deltas::{set_deltas, step_for};
use rbonsai::dice::Dice;
use rbonsai::glyph::{connector_glyph, leaf_string, paint_for, Glyph, LEAF_WIDTH};
use rbonsai::growth::clamp_dy;
use rbonsai::spawn::{spawn_for, spawn_life, Spawn};

#[test]
fn kind_numbering_round_trips_with_names() {
    assert_eq!(BranchKind::from_i32(0), BranchKind::Trunk);
    assert_eq!(BranchKind::from_i32(1), BranchKind::ShootLeft);
    assert_eq!(BranchKind::from_i32(2), BranchKind::ShootRight);
    assert_eq!(BranchKind::from_i32(3), BranchKind::Dying);
    assert_eq!(BranchKind::from_i32(4), BranchKind::Dead);
    assert_eq!(BranchKind::Trunk.name(), "Trunk");
    assert_eq!(BranchKind::ShootRight.name(), "ShootRight");
    assert_eq!(BranchKind::Dead.name(), "Dead");
}

#[test]
fn trunk_early_growth_is_level() {
    assert_eq!(step_for(BranchKind::Trunk, 30, 2, 5, &[0]), (-1, 0));
    assert_eq!(step_for(BranchKind::Trunk, 3, 29, 5, &[2]), (1, 0));
}

#[test]
fn trunk_mid_growth_rises_periodically() {
    // multiplier 5: period 2, mid growth while age < 15
    assert_eq!(step_for(BranchKind::Trunk, 20, 5, 5, &[0]), (-2, 0));
    assert_eq!(step_for(BranchKind::Trunk, 20, 6, 5, &[0]), (-2, -1));
    assert_eq!(step_for(BranchKind::Trunk, 20, 6, 5, &[4]), (0, -1));
    assert_eq!(step_for(BranchKind::Trunk, 20, 7, 5, &[9]), (2, 0));
    assert_eq!(step_for(BranchKind::Trunk, 20, 7, 5, &[3]), (-1, 0));
    assert_eq!(step_for(BranchKind::Trunk, 20, 7, 5, &[6]), (1, 0));
}

#[test]
fn trunk_late_growth_is_upward_biased() {
    assert_eq!(step_for(BranchKind::Trunk, 10, 20, 5, &[3, 2]), (1, -1));
    assert_eq!(step_for(BranchKind::Trunk, 10, 20, 5, &[2, 0]), (-1, 0));
}

#[test]
fn shoots_mirror_each_other() {
    assert_eq!(step_for(BranchKind::ShootLeft, 10, 5, 5, &[0, 9]), (1, -1));
    assert_eq!(step_for(BranchKind::ShootLeft, 10, 5, 5, &[5, 0]), (-2, 0));
    assert_eq!(step_for(BranchKind::ShootRight, 10, 5, 5, &[9, 0]), (2, 1));
    assert_eq!(step_for(BranchKind::ShootRight, 10, 5, 5, &[2, 4]), (1, 0));
    assert_eq!(step_for(BranchKind::ShootRight, 10, 5, 5, &[7, 9]), (-1, 0));
}

#[test]
fn dying_spreads_wide() {
    assert_eq!(step_for(BranchKind::Dying, 10, 5, 5, &[9, 14]), (3, 1));
    assert_eq!(step_for(BranchKind::Dying, 10, 5, 5, &[0, 0]), (-3, -1));
    assert_eq!(step_for(BranchKind::Dying, 10, 5, 5, &[5, 7]), (0, 0));
}

#[test]
fn dead_splits_three_ways() {
    assert_eq!(step_for(BranchKind::Dead, 1, 5, 5, &[7, 1]), (0, 1));
    assert_eq!(step_for(BranchKind::Dead, 1, 5, 5, &[2, 0]), (-1, -1));
    assert_eq!(step_for(BranchKind::Dead, 1, 5, 5, &[6, 2]), (1, 0));
}

#[test]
fn nearly_finished_branches_die() {
    assert_eq!(spawn_for(BranchKind::Trunk, 2, 5, 0, &[]), Spawn::Dead);
    assert_eq!(spawn_for(BranchKind::Dying, 0, 5, 0, &[]), Spawn::Dead);
    assert_eq!(spawn_for(BranchKind::Trunk, 5, 5, 0, &[]), Spawn::Dying);
    assert_eq!(spawn_for(BranchKind::ShootLeft, 6, 5, 0, &[]), Spawn::Dying);
}

#[test]
fn branching_events_spawn_trunks_and_shoots() {
    assert_eq!(spawn_for(BranchKind::Trunk, 20, 5, 0, &[0, 0, 4]), Spawn::Trunk(2));
    assert_eq!(spawn_for(BranchKind::Trunk, 20, 5, 3, &[0, 0, 0]), Spawn::Trunk(-2));
    assert_eq!(spawn_for(BranchKind::Trunk, 21, 5, 0, &[0, 1]), Spawn::Shoot);
    assert_eq!(spawn_for(BranchKind::Trunk, 21, 5, 3, &[0, 1]), Spawn::Nothing);
    assert_eq!(spawn_for(BranchKind::Trunk, 21, 5, 0, &[1]), Spawn::Nothing);
    // life 20 is a multiple of 5: a branching event without the trunk test
    assert_eq!(spawn_for(BranchKind::ShootLeft, 20, 5, 0, &[3]), Spawn::Shoot);
    assert_eq!(spawn_for(BranchKind::ShootLeft, 21, 5, 0, &[]), Spawn::Nothing);
    // a trunk continuation needs more than 7 steps left
    assert_eq!(spawn_for(BranchKind::Dying, 5, 5, 0, &[0]), Spawn::Shoot);
    assert_eq!(spawn_for(BranchKind::Dying, 10, 5, 0, &[0, 2]), Spawn::Trunk(0));
    // a multiplier of 0 has no period
    assert_eq!(spawn_for(BranchKind::ShootRight, 20, 0, 0, &[]), Spawn::Nothing);
}

#[test]
fn child_life_budgets() {
    assert_eq!(spawn_life(Spawn::Shoot, 10, 5), 15);
    assert_eq!(spawn_life(Spawn::Trunk(-2), 10, 5), 8);
    assert_eq!(spawn_life(Spawn::Trunk(2), 10, 5), 12);
    assert_eq!(spawn_life(Spawn::Dead, 2, 5), 2);
    assert_eq!(spawn_life(Spawn::Dying, 6, 5), 6);
}

#[test]
fn downward_step_on_bottom_row_is_cancelled() {
    assert_eq!(clamp_dy(1, 9, 10), 0);
    assert_eq!(clamp_dy(1, 12, 10), 0);
    assert_eq!(clamp_dy(1, 8, 10), 1);
    assert_eq!(clamp_dy(-1, 9, 10), -1);
    assert_eq!(clamp_dy(0, 9, 10), 0);
}

fn text(g: Glyph) -> String {
    g.text().iter().collect()
}

#[test]
fn connectors_follow_direction() {
    assert_eq!(connector_glyph(BranchKind::Trunk, 0, 0), Glyph::Level);
    assert_eq!(connector_glyph(BranchKind::Trunk, -1, -1), Glyph::LeanLeft);
    assert_eq!(connector_glyph(BranchKind::Trunk, 0, -1), Glyph::Upright);
    assert_eq!(connector_glyph(BranchKind::Trunk, 2, -1), Glyph::LeanRight);
    assert_eq!(connector_glyph(BranchKind::ShootLeft, 0, 1), Glyph::Drop);
    assert_eq!(connector_glyph(BranchKind::ShootLeft, -2, 0), Glyph::LeftLevel);
    assert_eq!(connector_glyph(BranchKind::ShootLeft, 0, -1), Glyph::Stem);
    assert_eq!(connector_glyph(BranchKind::ShootRight, 2, 0), Glyph::RightLevel);
    assert_eq!(connector_glyph(BranchKind::ShootRight, 1, -1), Glyph::Rise);
    assert_eq!(connector_glyph(BranchKind::ShootRight, -1, -1), Glyph::LeanLeft);
}

#[test]
fn glyph_texts() {
    assert_eq!(text(Glyph::Level), "/~");
    assert_eq!(text(Glyph::LeanLeft), "\\|");
    assert_eq!(text(Glyph::Upright), "/|\\");
    assert_eq!(text(Glyph::LeanRight), "|/");
    assert_eq!(text(Glyph::Drop), "\\");
    assert_eq!(text(Glyph::LeftLevel), "\\_");
    assert_eq!(text(Glyph::Stem), "/|");
    assert_eq!(text(Glyph::Rise), "/");
    assert_eq!(text(Glyph::RightLevel), "_/");
    assert_eq!(text(Glyph::Leaf('&')), "&".repeat(LEAF_WIDTH));
}

#[test]
fn leaf_tokens_have_fixed_width() {
    let s = leaf_string('&');
    assert_eq!(s.len(), LEAF_WIDTH);
    assert!(s.iter().all(|c| *c == '&'));
}

#[test]
fn paints_by_kind() {
    assert_eq!(paint_for(BranchKind::Trunk, 0), Paint { pair: 11, bold: true });
    assert_eq!(paint_for(BranchKind::ShootLeft, 1), Paint { pair: 3, bold: false });
    assert_eq!(paint_for(BranchKind::Dying, 0), Paint { pair: 2, bold: true });
    assert_eq!(paint_for(BranchKind::Dying, 4), Paint { pair: 2, bold: false });
    assert_eq!(paint_for(BranchKind::Dead, 0), Paint { pair: 10, bold: true });
    assert_eq!(paint_for(BranchKind::Dead, 2), Paint { pair: 10, bold: false });
}

#[test]
fn dice_stay_below_their_sides() {
    let mut d = Dice::new(3);
    for _ in 0..1000 {
        assert!(d.roll(6) < 6);
        assert_eq!(d.roll(1), 0);
    }
}

#[test]
fn dice_with_one_seed_repeat() {
    let mut a = Dice::new(42);
    let mut b = Dice::new(42);
    let ra: Vec<u32> = (0..200).map(|_| a.roll(1000)).collect();
    let rb: Vec<u32> = (0..200).map(|_| b.roll(1000)).collect();
    assert_eq!(ra, rb);
    assert!(ra.iter().any(|r| *r != ra[0]));
    let faces = a.roll_all(&vec![3, 10, 15]);
    assert_eq!(faces.len(), 3);
    assert!(faces[0] < 3 && faces[1] < 10 && faces[2] < 15);
}

#[test]
fn drawn_steps_stay_in_each_kinds_range() {
    let mut d = Dice::new(11);
    let kinds = [
        (BranchKind::Trunk, -2, 2),
        (BranchKind::ShootLeft, -2, 1),
        (BranchKind::ShootRight, -1, 2),
        (BranchKind::Dying, -3, 3),
        (BranchKind::Dead, -1, 1),
    ];
    for (kind, lo, hi) in kinds {
        for (life, age) in [(30, 1), (20, 6), (10, 25)] {
            for _ in 0..200 {
                let (dx, dy) = set_deltas(kind, life, age, 5, &mut d);
                assert!(lo <= dx && dx <= hi);
                assert!(-1 <= dy && dy <= 1);
            }
        }
    }
}
