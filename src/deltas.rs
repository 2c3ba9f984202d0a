use vstd::prelude::*;
use crate::branch::{BranchKind, MAX_MULTIPLIER};
use crate::dice::{Dice, rolled, drawn};

verus! {

/// Early trunk growth: the first steps, and the last few of a branch.
pub open spec fn trunk_early(life: int, age: int) -> bool {
    age <= 2 || life < 4
}

/// Mid trunk growth, before the trunk turns upward for good.
pub open spec fn trunk_mid(life: int, age: int, m: int) -> bool {
    !trunk_early(life, age) && age < m * 3
}

/// The dice that delta selection rolls, in order.
pub open spec fn delta_sides(kind: BranchKind, life: int, age: int, m: int) -> Seq<u32> {
    match kind {
        BranchKind::Trunk => if trunk_early(life, age) {
            seq![3u32]
        } else if trunk_mid(life, age, m) {
            seq![10u32]
        } else {
            seq![10u32, 3u32]
        },
        BranchKind::ShootLeft | BranchKind::ShootRight => seq![10u32, 10u32],
        BranchKind::Dying => seq![10u32, 15u32],
        BranchKind::Dead => seq![10u32, 3u32],
    }
}

/// Mid-trunk sideways step on a 10-sided die, biased toward 0.
pub open spec fn trunk_dx(f: int) -> int {
    if f == 0 { -2 } else if f <= 3 { -1 } else if f <= 5 { 0 } else if f <= 8 { 1 } else { 2 }
}

/// Vertical step of a shoot on a 10-sided die: 20% up, 60% level, 20% down.
pub open spec fn shoot_dy(f: int) -> int {
    if f <= 1 { -1 } else if f <= 7 { 0 } else { 1 }
}

/// Sideways step of a left shoot on a 10-sided die; a right shoot mirrors it.
pub open spec fn shoot_left_dx(f: int) -> int {
    if f <= 1 { -2 } else if f <= 5 { -1 } else if f <= 8 { 0 } else { 1 }
}

/// Vertical step of dying growth on a 10-sided die, mostly level.
pub open spec fn dying_dy(f: int) -> int {
    if f <= 1 { -1 } else if f <= 8 { 0 } else { 1 }
}

/// Sideways step of dying growth on a 15-sided die, symmetric in `-3..=3`.
pub open spec fn dying_dx(f: int) -> int {
    if f == 0 { -3 } else if f <= 2 { -2 } else if f <= 5 { -1 } else if f <= 8 { 0 }
    else if f <= 11 { 1 } else if f <= 13 { 2 } else { 3 }
}

/// Vertical step of dead growth on a 10-sided die: a three-way split.
pub open spec fn dead_dy(f: int) -> int {
    if f <= 2 { -1 } else if f <= 6 { 0 } else { 1 }
}

/// The step `(dx, dy)` that a branch of `kind` takes, given the faces `f` of
/// the dice named by `delta_sides`.
#[verifier::opaque]
pub open spec fn deltas_of(kind: BranchKind, life: int, age: int, m: int, f: Seq<u32>) -> (int, int) {
    match kind {
        BranchKind::Trunk => if trunk_early(life, age) {
            (f[0] - 1, 0)
        } else if trunk_mid(life, age, m) {
            (trunk_dx(f[0] as int), if age % (m / 2) == 0 { -1 } else { 0 })
        } else {
            (f[1] - 1, if f[0] > 2 { -1 } else { 0 })
        },
        BranchKind::ShootLeft => (shoot_left_dx(f[1] as int), shoot_dy(f[0] as int)),
        BranchKind::ShootRight => (-shoot_left_dx(f[1] as int), shoot_dy(f[0] as int)),
        BranchKind::Dying => (dying_dx(f[1] as int), dying_dy(f[0] as int)),
        BranchKind::Dead => (f[1] - 1, dead_dy(f[0] as int)),
    }
}

/// The step `(dx, dy)` for the given die faces (see `deltas_of`).
pub fn step_for(kind: BranchKind, life: i32, age: i32, multiplier: i32, faces: &[u32]) -> (d: (i32, i32))
    requires
        0 <= multiplier <= MAX_MULTIPLIER,
        faces@.len() >= delta_sides(kind, life as int, age as int, multiplier as int).len(),
        forall|i: int| 0 <= i < faces@.len() ==> faces@[i] <= i32::MAX,
    ensures
        (d.0 as int, d.1 as int) == deltas_of(kind, life as int, age as int, multiplier as int, faces@),
{
    proof {
        reveal(deltas_of);
    }
    match kind {
        BranchKind::Trunk => {
            if age <= 2 || life < 4 {
                (faces[0] as i32 - 1, 0)
            } else if age < multiplier * 3 {
                let f = faces[0];
                let dy: i32 = if age % (multiplier / 2) == 0 { -1 } else { 0 };
                let dx: i32 = if f == 0 { -2 } else if f <= 3 { -1 } else if f <= 5 { 0 } else if f <= 8 { 1 } else { 2 };
                (dx, dy)
            } else {
                (faces[1] as i32 - 1, if faces[0] > 2 { -1 } else { 0 })
            }
        },
        BranchKind::ShootLeft | BranchKind::ShootRight => {
            let (f0, f1) = (faces[0], faces[1]);
            let dy: i32 = if f0 <= 1 { -1 } else if f0 <= 7 { 0 } else { 1 };
            let dx: i32 = if f1 <= 1 { -2 } else if f1 <= 5 { -1 } else if f1 <= 8 { 0 } else { 1 };
            match kind {
                BranchKind::ShootLeft => (dx, dy),
                _ => (-dx, dy),
            }
        },
        BranchKind::Dying => {
            let (f0, f1) = (faces[0], faces[1]);
            let dy: i32 = if f0 <= 1 { -1 } else if f0 <= 8 { 0 } else { 1 };
            let dx: i32 = if f1 == 0 { -3 } else if f1 <= 2 { -2 } else if f1 <= 5 { -1 }
                else if f1 <= 8 { 0 } else if f1 <= 11 { 1 } else if f1 <= 13 { 2 } else { 3 };
            (dx, dy)
        },
        BranchKind::Dead => {
            let f0 = faces[0];
            let dy: i32 = if f0 <= 2 { -1 } else if f0 <= 6 { 0 } else { 1 };
            (faces[1] as i32 - 1, dy)
        },
    }
}

/// The step depends only on the faces of the dice that `delta_sides` names.
pub proof fn lemma_deltas_prefix(kind: BranchKind, life: int, age: int, m: int, fd: Seq<u32>, rest: Seq<u32>)
    requires
        fd.len() == delta_sides(kind, life, age, m).len(),
    ensures
        deltas_of(kind, life, age, m, fd + rest) == deltas_of(kind, life, age, m, fd),
{
    reveal(deltas_of);
    if fd.len() > 0 {
        assert((fd + rest)[0] == fd[0]);
    }
    if fd.len() > 1 {
        assert((fd + rest)[1] == fd[1]);
    }
}

/// Draws the step of one life-step of a branch: the dice of `delta_sides`
/// are rolled and the step is `deltas_of` their faces.
pub fn set_deltas(kind: BranchKind, life: i32, age: i32, multiplier: i32, dice: &mut Dice) -> (d: (i32, i32))
    requires
        0 <= multiplier <= MAX_MULTIPLIER,
    ensures
        rolled(old(dice).log(), final(dice).log(), delta_sides(kind, life as int, age as int, multiplier as int)),
        (d.0 as int, d.1 as int) == deltas_of(kind, life as int, age as int, multiplier as int,
            drawn(old(dice).log(), final(dice).log())),
        -1 <= d.1 <= 1,
        match kind {
            BranchKind::Trunk => -2 <= d.0 <= 2,
            BranchKind::ShootLeft => -2 <= d.0 <= 1,
            BranchKind::ShootRight => -1 <= d.0 <= 2,
            BranchKind::Dying => -3 <= d.0 <= 3,
            BranchKind::Dead => -1 <= d.0 <= 1,
        },
{
    proof {
        reveal(deltas_of);
    }
    let ghost before = dice.log();
    let sides: Vec<u32> = match kind {
        BranchKind::Trunk => if age <= 2 || life < 4 {
            vec![3]
        } else if age < multiplier * 3 {
            vec![10]
        } else {
            vec![10, 3]
        },
        BranchKind::ShootLeft | BranchKind::ShootRight => vec![10, 10],
        BranchKind::Dying => vec![10, 15],
        BranchKind::Dead => vec![10, 3],
    };
    assert(sides@ =~= delta_sides(kind, life as int, age as int, multiplier as int));
    let faces = dice.roll_all(&sides);
    step_for(kind, life, age, multiplier, faces.as_slice())
}

} // verus!
