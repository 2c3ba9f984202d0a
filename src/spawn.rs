use vstd::prelude::*;
use crate::branch::{BranchKind, MAX_MULTIPLIER};
use crate::dice::{Dice, rolled, drawn};

verus! {

/// A child branch that one life-step spawns.
#[derive(Clone, Copy, Debug, PartialEq, Eq, Structural)]
pub enum Spawn {
    Nothing,
    Dead,
    Dying,
    /// A trunk continuation whose life is the parent's remaining life
    /// shifted by `jitter`, in `-2..=2`.
    Trunk(i32),
    Shoot,
}

/// The multiplier's periodic branching condition on the remaining life; a
/// multiplier of 0 has no period.
pub open spec fn periodic(life: int, m: int) -> bool {
    m > 0 && life % m == 0
}

/// Whether a step of `kind` reaches the branching rules rather than ending
/// the branch in dead or dying growth.
pub open spec fn may_branch(kind: BranchKind, life: int, m: int) -> bool {
    !(life < 3) && !(kind.is_woody() && life < m + 2)
}

/// Dice rolled by the 1-in-3 trunk test.
pub open spec fn trunk_test_sides(kind: BranchKind) -> Seq<u32> {
    if kind is Trunk { seq![3u32] } else { Seq::empty() }
}

/// Whether a step that may branch holds a branching event, given the faces `f`.
pub open spec fn branching_event(kind: BranchKind, life: int, m: int, f: Seq<u32>) -> bool {
    (kind is Trunk && f[0] == 0) || periodic(life, m)
}

/// The dice that the spawn rules roll, in order; which are rolled depends
/// on the faces `f` of the earlier ones.
#[verifier::opaque]
pub open spec fn spawn_sides(kind: BranchKind, life: int, m: int, f: Seq<u32>) -> Seq<u32> {
    if !may_branch(kind, life, m) {
        Seq::empty()
    } else if !branching_event(kind, life, m, f) {
        trunk_test_sides(kind)
    } else {
        let k = trunk_test_sides(kind).len() as int;
        trunk_test_sides(kind) + seq![8u32] + if f[k] == 0 && life > 7 { seq![5u32] } else { Seq::empty() }
    }
}

/// The spawn rules for a step that has `life` left after its decrement:
/// nearly finished branches end in dead growth, woody branches near the end
/// of life wilt, and a branching event either continues the trunk (1 in 8,
/// with enough life left) or, once the cooldown has expired, sends a shoot.
#[verifier::opaque]
pub open spec fn spawn_of(kind: BranchKind, life: int, m: int, cooldown: int, f: Seq<u32>) -> Spawn {
    if life < 3 {
        Spawn::Dead
    } else if kind.is_woody() && life < m + 2 {
        Spawn::Dying
    } else if branching_event(kind, life, m, f) {
        let k = trunk_test_sides(kind).len() as int;
        if f[k] == 0 && life > 7 {
            Spawn::Trunk((f[k + 1] - 2) as i32)
        } else if cooldown <= 0 {
            Spawn::Shoot
        } else {
            Spawn::Nothing
        }
    } else {
        Spawn::Nothing
    }
}

/// The spawn rules for the given die faces (see `spawn_of`).
pub fn spawn_for(kind: BranchKind, life: i32, multiplier: i32, cooldown: i32, faces: &[u32]) -> (s: Spawn)
    requires
        0 <= multiplier <= MAX_MULTIPLIER,
        faces@.len() >= spawn_sides(kind, life as int, multiplier as int, faces@).len(),
        forall|i: int| 0 <= i < faces@.len() ==> faces@[i] <= i32::MAX,
    ensures
        s == spawn_of(kind, life as int, multiplier as int, cooldown as int, faces@),
{
    proof {
        reveal(spawn_of);
        reveal(spawn_sides);
    }
    let woody = match kind {
        BranchKind::Trunk | BranchKind::ShootLeft | BranchKind::ShootRight => true,
        _ => false,
    };
    if life < 3 {
        Spawn::Dead
    } else if woody && life < multiplier + 2 {
        Spawn::Dying
    } else {
        let k: usize = match kind {
            BranchKind::Trunk => 1,
            _ => 0,
        };
        let trunk_hit = k == 1 && faces[0] == 0;
        if trunk_hit || (multiplier > 0 && life % multiplier == 0) {
            if faces[k] == 0 && life > 7 {
                Spawn::Trunk(faces[k + 1] as i32 - 2)
            } else if cooldown <= 0 {
                Spawn::Shoot
            } else {
                Spawn::Nothing
            }
        } else {
            Spawn::Nothing
        }
    }
}

/// Applies the spawn rules of one life-step: rolls the dice of
/// `spawn_sides`, each only when the rules reach it, and returns `spawn_of`
/// their faces.
pub fn choose_spawn(kind: BranchKind, life: i32, multiplier: i32, cooldown: i32, dice: &mut Dice) -> (s: Spawn)
    requires
        0 <= multiplier <= MAX_MULTIPLIER,
    ensures
        rolled(old(dice).log(), final(dice).log(),
            spawn_sides(kind, life as int, multiplier as int, drawn(old(dice).log(), final(dice).log()))),
        s == spawn_of(kind, life as int, multiplier as int, cooldown as int, drawn(old(dice).log(), final(dice).log())),
        s matches Spawn::Trunk(j) ==> -2 <= j <= 2 && life > 7,
{
    proof {
        reveal(spawn_of);
        reveal(spawn_sides);
    }
    let ghost before = dice.log();
    let woody = match kind {
        BranchKind::Trunk | BranchKind::ShootLeft | BranchKind::ShootRight => true,
        _ => false,
    };
    let mut sides: Vec<u32> = Vec::new();
    let mut faces: Vec<u32> = Vec::new();
    if !(life < 3) && !(woody && life < multiplier + 2) {
        let mut hit = false;
        if kind == BranchKind::Trunk {
            let f = dice.roll(3);
            sides.push(3);
            faces.push(f);
            hit = f == 0;
        }
        if hit || (multiplier > 0 && life % multiplier == 0) {
            let f = dice.roll(8);
            sides.push(8);
            faces.push(f);
            if f == 0 && life > 7 {
                let j = dice.roll(5);
                sides.push(5);
                faces.push(j);
            }
        }
    }
    proof {
        let after = dice.log();
        assert(after.subrange(0, before.len() as int) =~= before);
        assert(after.len() == before.len() + faces@.len());
        assert forall|i: int| 0 <= i < faces@.len() implies
            after[before.len() + i] == (#[trigger] sides@[i], faces@[i]) by {}
        assert(faces@ =~= drawn(before, after));
        assert(sides@ =~= spawn_sides(kind, life as int, multiplier as int, faces@));
    }
    spawn_for(kind, life, multiplier, cooldown, faces.as_slice())
}

/// The life budget of the child that `s` spawns from a step with `life`
/// left after its decrement.
pub open spec fn spawned_life(s: Spawn, life: int, m: int) -> int {
    match s {
        Spawn::Trunk(j) => life + j,
        Spawn::Shoot => life + m,
        _ => life,
    }
}

/// Computes the life budget of a spawned child (see `spawned_life`).
pub fn spawn_life(s: Spawn, life: i32, multiplier: i32) -> (r: i32)
    requires
        0 <= life <= i32::MAX - 20,
        0 <= multiplier <= MAX_MULTIPLIER,
        s matches Spawn::Trunk(j) ==> -2 <= j <= 2,
    ensures
        r == spawned_life(s, life as int, multiplier as int),
{
    match s {
        Spawn::Trunk(j) => life + j,
        Spawn::Shoot => life + multiplier,
        _ => life,
    }
}

/// Children never outlive the step that spawns them, except where a shoot
/// takes the multiplier on top of the remaining life, or a trunk
/// continuation is jittered upward: every child spawned by the rules from a
/// step that began with `life + 1` steps left gets fewer than `life + 1`.
pub proof fn lemma_child_life_shrinks(kind: BranchKind, life: int, m: int, cooldown: int, f: Seq<u32>)
    requires
        0 <= life,
        0 <= m <= MAX_MULTIPLIER,
        !(spawn_of(kind, life, m, cooldown, f) is Shoot && m > 0),
        !(spawn_of(kind, life, m, cooldown, f) matches Spawn::Trunk(j) && j > 0),
    ensures
        spawn_of(kind, life, m, cooldown, f) != Spawn::Nothing ==>
            spawned_life(spawn_of(kind, life, m, cooldown, f), life, m) < life + 1,
{
    reveal(spawn_of);
}

/// The spawn rules depend only on the faces of the dice that
/// `spawn_sides` names.
pub proof fn lemma_spawn_prefix(kind: BranchKind, life: int, m: int, cooldown: int, fs: Seq<u32>, rest: Seq<u32>)
    requires
        fs.len() == spawn_sides(kind, life, m, fs).len(),
    ensures
        spawn_sides(kind, life, m, fs + rest) == spawn_sides(kind, life, m, fs),
        spawn_of(kind, life, m, cooldown, fs + rest) == spawn_of(kind, life, m, cooldown, fs),
{
    reveal(spawn_of);
    reveal(spawn_sides);
    let g = fs + rest;
    if fs.len() > 0 {
        assert(g[0] == fs[0]);
    }
    if fs.len() > 1 {
        assert(g[1] == fs[1]);
    }
    if fs.len() > 2 {
        assert(g[2] == fs[2]);
    }
}

} // verus!
