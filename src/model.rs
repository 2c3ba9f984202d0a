use vstd::prelude::*;
use crate::branch::{BranchKind, Counters, GrowthConfig, Stroke};
use crate::deltas::{delta_sides, deltas_of, lemma_deltas_prefix};
use crate::glyph::{drawn_kind, paint_of, glyph_of, glyph_sides};
use crate::growth::clamped_dy;
use crate::spawn::{Spawn, spawn_sides, spawn_of, spawned_life, lemma_spawn_prefix};

verus! {

/// What growing from some state produced: the counters after, the strokes
/// in drawing order, how many die faces were used, and the fuel left.
pub struct Outcome {
    pub counters: Counters,
    pub strokes: Seq<Stroke>,
    pub used: nat,
    pub left: nat,
}

/// `o` preceded by strokes `s` drawn with `used` faces.
pub open spec fn prefixed(s: Seq<Stroke>, used: nat, o: Outcome) -> Outcome {
    Outcome { counters: o.counters, strokes: s + o.strokes, used: used + o.used, left: o.left }
}

/// The side of a new shoot: shoots alternate by the parity of the counter.
pub open spec fn shoot_side(shoot_counter: u64) -> BranchKind {
    if shoot_counter % 2 == 1 { BranchKind::ShootRight } else { BranchKind::ShootLeft }
}

/// The kind of the child that `s` spawns.
pub open spec fn child_kind(s: Spawn, shoot_counter: u64) -> BranchKind {
    match s {
        Spawn::Dead => BranchKind::Dead,
        Spawn::Dying => BranchKind::Dying,
        Spawn::Trunk(_) => BranchKind::Trunk,
        _ => shoot_side(shoot_counter),
    }
}

/// The counters once `s` is spawned: a shoot counts itself.
pub open spec fn after_spawn(c: Counters, s: Spawn) -> Counters {
    if s is Shoot {
        Counters { shoots: (c.shoots + 1) as u64, shoot_counter: (c.shoot_counter + 1) as u64, ..c }
    } else {
        c
    }
}

/// The counters once one more segment is drawn.
pub open spec fn counted(c: Counters) -> Counters {
    Counters { branches: (c.branches + 1) as u64, ..c }
}

/// The shoot cooldown once `s` is spawned: trunks and shoots reset it.
pub open spec fn cooldown_after(s: Spawn, cooldown: int, m: int) -> int {
    if s is Shoot || s is Trunk { 2 * m } else { cooldown }
}

/// One branch activation: the branch takes its steps with the cooldown at
/// the multiplier. `f` holds the die faces, in the
/// order they are rolled.
#[verifier::opaque]
pub open spec fn activation(
    cfg: GrowthConfig,
    c: Counters,
    h: int,
    x: int,
    y: int,
    kind: BranchKind,
    life: int,
    fuel: nat,
    f: Seq<u32>,
) -> Outcome
    decreases fuel, 1nat,
{
    steps(cfg, c, h, x, y, kind, life, fuel, cfg.multiplier as int, f)
}

/// The remaining life-steps of a branch at `(x, y)` with `life` steps and
/// `fuel` left. Each step picks its step (`deltas_of`), clamps it at the
/// bottom edge, applies the spawn rules (`spawn_of`) and grows the child
/// first, then moves and draws one stroke (`paint_of`, `glyph_of`).
#[verifier::opaque]
pub open spec fn steps(
    cfg: GrowthConfig,
    c: Counters,
    h: int,
    x: int,
    y: int,
    kind: BranchKind,
    life: int,
    fuel: nat,
    cd: int,
    f: Seq<u32>,
) -> Outcome
    decreases fuel, 0nat,
{
    if life <= 0 || fuel == 0 {
        Outcome { counters: c, strokes: Seq::empty(), used: 0, left: fuel }
    } else {
        let life1 = life - 1;
        let fuel1 = (fuel - 1) as nat;
        let m = cfg.multiplier as int;
        let age = cfg.life_start - life1;
        let nd = delta_sides(kind, life1, age, m).len();
        let d = deltas_of(kind, life1, age, m, f);
        let dx = d.0;
        let dy = clamped_dy(d.1, y, h);
        let f1 = f.skip(nd as int);
        let ns = spawn_sides(kind, life1, m, f1).len();
        let sp = spawn_of(kind, life1, m, cd, f1);
        let f2 = f1.skip(ns as int);
        let c2 = after_spawn(c, sp);
        let child = if sp is Nothing {
            Outcome { counters: c2, strokes: Seq::empty(), used: 0, left: fuel1 }
        } else {
            activation(cfg, c2, h, x, y, child_kind(sp, c2.shoot_counter), spawned_life(sp, life1, m), fuel1, f2)
        };
        let left2: nat = if child.left <= fuel1 { child.left } else { fuel1 };
        let f3 = f2.skip(child.used as int);
        let shown = drawn_kind(kind, life1);
        let paint = paint_of(shown, f3[0] as int);
        let f4 = f3.skip(1);
        let glyph = glyph_of(shown, dx, dy, cfg.leaves@, f4);
        let ng = glyph_sides(shown, cfg.leaves@.len()).len();
        let stroke = Stroke {
            x: (x + dx) as i32,
            y: (y + dy) as i32,
            dx: dx as i32,
            dy: dy as i32,
            kind,
            glyph,
            paint,
            branches: counted(child.counters).branches,
        };
        let rest = steps(cfg, counted(child.counters), h, x + dx, y + dy, kind, life1, left2,
            cooldown_after(sp, cd, m) - 1, f4.skip(ng as int));
        prefixed(child.strokes.push(stroke), nd + ns + child.used + 1 + ng, rest)
    }
}

/// One life-step of the model, unfolded over the faces that each of its
/// parts rolls: `fd` for the step, `fs` for the spawn rules, `fc` for the
/// child, `fp` for the colour and `fg` for the glyph; whatever faces follow
/// are left to the remaining steps.
pub proof fn lemma_step(
    cfg: GrowthConfig,
    c: Counters,
    h: int,
    x: int,
    y: int,
    kind: BranchKind,
    life: int,
    fuel: nat,
    cd: int,
    fd: Seq<u32>,
    fs: Seq<u32>,
    fc: Seq<u32>,
    fp: Seq<u32>,
    fg: Seq<u32>,
    child: Outcome,
    stroke: Stroke,
)
    requires
        life > 0,
        fuel > 0,
        fd.len() == delta_sides(kind, life - 1, cfg.life_start - (life - 1), cfg.multiplier as int).len(),
        fs.len() == spawn_sides(kind, life - 1, cfg.multiplier as int, fs).len(),
        fp.len() == 1,
        fg.len() == glyph_sides(drawn_kind(kind, life - 1), cfg.leaves@.len()).len(),
        child.used == fc.len(),
        child.left <= fuel - 1,
        spawn_of(kind, life - 1, cfg.multiplier as int, cd, fs) is Nothing ==> child == (Outcome {
            counters: c,
            strokes: Seq::empty(),
            used: 0,
            left: (fuel - 1) as nat,
        }),
        !(spawn_of(kind, life - 1, cfg.multiplier as int, cd, fs) is Nothing) ==> forall|g: Seq<u32>|
            #[trigger] activation(
                cfg,
                after_spawn(c, spawn_of(kind, life - 1, cfg.multiplier as int, cd, fs)),
                h,
                x,
                y,
                child_kind(
                    spawn_of(kind, life - 1, cfg.multiplier as int, cd, fs),
                    after_spawn(c, spawn_of(kind, life - 1, cfg.multiplier as int, cd, fs)).shoot_counter,
                ),
                spawned_life(spawn_of(kind, life - 1, cfg.multiplier as int, cd, fs), life - 1, cfg.multiplier as int),
                (fuel - 1) as nat,
                fc + g,
            ) == child,
        stroke == (Stroke {
            x: (x + deltas_of(kind, life - 1, cfg.life_start - (life - 1), cfg.multiplier as int, fd).0) as i32,
            y: (y + clamped_dy(deltas_of(kind, life - 1, cfg.life_start - (life - 1), cfg.multiplier as int, fd).1, y, h)) as i32,
            glyph: glyph_of(
                drawn_kind(kind, life - 1),
                deltas_of(kind, life - 1, cfg.life_start - (life - 1), cfg.multiplier as int, fd).0,
                clamped_dy(deltas_of(kind, life - 1, cfg.life_start - (life - 1), cfg.multiplier as int, fd).1, y, h),
                cfg.leaves@,
                fg,
            ),
            dx: deltas_of(kind, life - 1, cfg.life_start - (life - 1), cfg.multiplier as int, fd).0 as i32,
            dy: clamped_dy(deltas_of(kind, life - 1, cfg.life_start - (life - 1), cfg.multiplier as int, fd).1, y, h) as i32,
            kind,
            paint: paint_of(drawn_kind(kind, life - 1), fp[0] as int),
            branches: counted(child.counters).branches,
        }),
    ensures
        forall|f: Seq<u32>| #[trigger] steps(cfg, c, h, x, y, kind, life, fuel, cd, fd + fs + fc + fp + fg + f)
            == prefixed(
                child.strokes.push(stroke),
                (fd + fs + fc + fp + fg).len(),
                steps(
                    cfg,
                    counted(child.counters),
                    h,
                    x + deltas_of(kind, life - 1, cfg.life_start - (life - 1), cfg.multiplier as int, fd).0,
                    y + clamped_dy(deltas_of(kind, life - 1, cfg.life_start - (life - 1), cfg.multiplier as int, fd).1, y, h),
                    kind,
                    life - 1,
                    child.left,
                    cooldown_after(spawn_of(kind, life - 1, cfg.multiplier as int, cd, fs), cd, cfg.multiplier as int) - 1,
                    f,
                ),
            ),
{
    reveal(steps);
    reveal(activation);
    let m = cfg.multiplier as int;
    let life1 = life - 1;
    let age = cfg.life_start - life1;
    assert forall|f: Seq<u32>| #[trigger] steps(cfg, c, h, x, y, kind, life, fuel, cd, fd + fs + fc + fp + fg + f)
        == prefixed(
            child.strokes.push(stroke),
            (fd + fs + fc + fp + fg).len(),
            steps(cfg, counted(child.counters), h, x + deltas_of(kind, life1, age, m, fd).0,
                y + clamped_dy(deltas_of(kind, life1, age, m, fd).1, y, h), kind, life1, child.left,
                cooldown_after(spawn_of(kind, life1, m, cd, fs), cd, m) - 1, f),
        ) by {
        let g4 = fg + f;
        let g3 = fp + g4;
        let g2 = fc + g3;
        let g1 = fs + g2;
        let ff = fd + g1;
        assert(fd + fs + fc + fp + fg + f =~= ff);
        assert(ff.skip(fd.len() as int) =~= g1);
        assert(g1.skip(fs.len() as int) =~= g2);
        assert(g2.skip(fc.len() as int) =~= g3);
        assert(g3.skip(1) =~= g4);
        assert(g4.skip(fg.len() as int) =~= f);
        lemma_deltas_prefix(kind, life1, age, m, fd, g1);
        lemma_spawn_prefix(kind, life1, m, cd, fs, g2);
        assert(g3[0] == fp[0]);
        assert(glyph_of(drawn_kind(kind, life1), deltas_of(kind, life1, age, m, fd).0,
            clamped_dy(deltas_of(kind, life1, age, m, fd).1, y, h), cfg.leaves@, g4)
            == glyph_of(drawn_kind(kind, life1), deltas_of(kind, life1, age, m, fd).0,
            clamped_dy(deltas_of(kind, life1, age, m, fd).1, y, h), cfg.leaves@, fg));
        let sp = spawn_of(kind, life1, m, cd, fs);
        if !(sp is Nothing) {
            assert(activation(cfg, after_spawn(c, sp), h, x, y, child_kind(sp, after_spawn(c, sp).shoot_counter),
                spawned_life(sp, life1, m), (fuel - 1) as nat, fc + g3) == child);
        }
        assert((fd + fs + fc + fp + fg).len() == fd.len() + fs.len() + child.used + 1 + fg.len());
    }
}

/// The state of a branch between two of its life-steps: counters,
/// position, life left, fuel left and shoot cooldown.
pub struct StepState {
    pub counters: Counters,
    pub x: int,
    pub y: int,
    pub life: int,
    pub fuel: nat,
    pub cooldown: int,
}

/// The remaining steps from state `st` (see `steps`).
pub open spec fn steps_from(cfg: GrowthConfig, h: int, kind: BranchKind, st: StepState, f: Seq<u32>) -> Outcome {
    steps(cfg, st.counters, h, st.x, st.y, kind, st.life, st.fuel, st.cooldown, f)
}

/// Two stretches of steps, one after the other, compose: their strokes and
/// faces join.
pub proof fn lemma_chain(
    cfg: GrowthConfig,
    h: int,
    kind: BranchKind,
    s0: Seq<Stroke>,
    s1: Seq<Stroke>,
    d0: Seq<u32>,
    d1: Seq<u32>,
    a: StepState,
    b: StepState,
    e: StepState,
)
    requires
        forall|f: Seq<u32>| #[trigger] steps_from(cfg, h, kind, a, d0 + f)
            == prefixed(s0, d0.len(), steps_from(cfg, h, kind, b, f)),
        forall|f: Seq<u32>| #[trigger] steps_from(cfg, h, kind, b, d1 + f)
            == prefixed(s1, d1.len(), steps_from(cfg, h, kind, e, f)),
    ensures
        forall|f: Seq<u32>| #[trigger] steps_from(cfg, h, kind, a, (d0 + d1) + f)
            == prefixed(s0 + s1, (d0 + d1).len(), steps_from(cfg, h, kind, e, f)),
{
    assert forall|f: Seq<u32>| #[trigger] steps_from(cfg, h, kind, a, (d0 + d1) + f)
        == prefixed(s0 + s1, (d0 + d1).len(), steps_from(cfg, h, kind, e, f)) by {
        assert((d0 + d1) + f =~= d0 + (d1 + f));
        let o = steps_from(cfg, h, kind, e, f);
        assert(steps_from(cfg, h, kind, a, d0 + (d1 + f))
            == prefixed(s0, d0.len(), steps_from(cfg, h, kind, b, d1 + f)));
        assert(s0 + (s1 + o.strokes) =~= (s0 + s1) + o.strokes);
    }
}

} // verus!
