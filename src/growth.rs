use vstd::prelude::*;
use crate::branch::{BranchKind, Counters, GrowthConfig, Stroke};
use crate::deltas::set_deltas;
use crate::dice::{Dice, drawn, extends, lemma_drawn_concat};
use crate::glyph::{choose_color, choose_string};
use crate::model::{Outcome, StepState, activation, steps, steps_from, prefixed, counted, lemma_step, lemma_chain};
use crate::spawn::{Spawn, choose_spawn, spawn_life};

verus! {

/// The vertical step actually taken: a downward step is cancelled on the
/// bottom row of a surface `height` rows high, or below it.
pub open spec fn clamped_dy(dy: int, y: int, height: int) -> int {
    if dy > 0 && y > height - 2 { dy - 1 } else { dy }
}

/// Cancels a downward step at the bottom edge (see `clamped_dy`).
pub fn clamp_dy(dy: i32, y: i32, height: i32) -> (r: i32)
    requires
        0 <= height,
        -1 <= dy <= 1,
    ensures
        r == clamped_dy(dy as int, y as int, height as int),
{
    if dy > 0 && y > height - 2 { dy - 1 } else { dy }
}

/// Upper bound on life-steps of a whole run; keeps every quantity that
/// growth computes within `i32`.
pub const FUEL_CAP: u64 = 50_000_000;

/// A coordinate that `fuel` more steps of at most 3 cells cannot push out of `i32`.
pub open spec fn in_span(v: int, fuel: int) -> bool {
    -(i32::MAX as int) + 3 * fuel <= v <= i32::MAX as int - 3 * fuel
}

/// The preconditions of one branch activation. A child starts with at most
/// 20 more life than its parent has left, one unit of fuel later, so
/// `life + 22 * fuel` bounds every life budget below it.
pub open spec fn grow_ready(cfg: GrowthConfig, c: Counters, height: int, x: int, y: int, life: int, fuel: int) -> bool {
    &&& cfg.wf()
    &&& 0 <= height
    &&& 0 <= life
    &&& life + 22 * fuel <= i32::MAX
    &&& fuel <= FUEL_CAP
    &&& in_span(x, fuel)
    &&& in_span(y, fuel)
    &&& c.branches + fuel <= u64::MAX
    &&& c.shoots + fuel <= u64::MAX
    &&& c.shoot_counter + fuel <= u64::MAX
}

/// Grows one branch of `kind` from `(x, y)` with `life` steps, spawning its
/// children depth-first, and appends one stroke to `canvas` per life-step.
/// Each life-step uses one unit of `fuel`; growth stops, all the way up,
/// when none is left. Returns the fuel left. What it draws is the model
/// `activation` of the die faces it rolled.
pub fn grow(
    cfg: &GrowthConfig,
    counters: &mut Counters,
    dice: &mut Dice,
    canvas: &mut Vec<Stroke>,
    height: i32,
    x: i32,
    y: i32,
    kind: BranchKind,
    life: i32,
    fuel: u64,
) -> (left: u64)
    requires
        grow_ready(*cfg, *old(counters), height as int, x as int, y as int, life as int, fuel as int),
    ensures
        left <= fuel,
        left > 0 ==> fuel - left >= life,
        final(canvas)@.len() == old(canvas)@.len() + (fuel - left),
        final(canvas)@.subrange(0, old(canvas)@.len() as int) == old(canvas)@,
        final(counters).branches == old(counters).branches + (fuel - left),
        forall|i: int| old(canvas)@.len() <= i < final(canvas)@.len() ==>
            (#[trigger] final(canvas)@[i]).branches == old(counters).branches + (i - old(canvas)@.len()) + 1,
        old(counters).shoots <= final(counters).shoots <= old(counters).shoots + (fuel - left),
        final(counters).shoot_counter - old(counters).shoot_counter == final(counters).shoots - old(counters).shoots,
        forall|i: int| old(canvas)@.len() <= i < final(canvas)@.len() ==>
            (#[trigger] final(canvas)@[i]).y <= if y >= height - 1 { y as int } else { height - 1 },
        extends(old(dice).log(), final(dice).log()),
        forall|f: Seq<u32>| #[trigger] activation(*cfg, *old(counters), height as int, x as int, y as int, kind,
            life as int, fuel as nat, drawn(old(dice).log(), final(dice).log()) + f) == (Outcome {
                counters: *final(counters),
                strokes: final(canvas)@.subrange(old(canvas)@.len() as int, final(canvas)@.len() as int),
                used: drawn(old(dice).log(), final(dice).log()).len(),
                left: left as nat,
            }),
    decreases fuel,
{
    let ghost c0 = *old(counters);
    let ghost ca = *counters;
    let ghost fuel0 = fuel as int;
    let ghost len0 = old(canvas)@.len();
    let ghost log0 = dice.log();
    let ghost ybound: int = if y >= height - 1 { y as int } else { height - 1 };
    let mut rest = life;
    let mut left = fuel;
    let mut cx = x;
    let mut cy = y;
    let mut cooldown: i32 = cfg.multiplier;
    proof {
        assert(log0.subrange(0, log0.len() as int) =~= log0);
        assert(drawn(log0, log0) =~= Seq::<u32>::empty());
        assert forall|f: Seq<u32>| steps_from(*cfg, height as int, kind, StepState { counters: ca, x: x as int,
            y: y as int, life: life as int, fuel: fuel as nat, cooldown: cfg.multiplier as int },
            drawn(log0, log0) + f) == prefixed(
            canvas@.subrange(len0 as int, canvas@.len() as int),
            drawn(log0, log0).len(),
            #[trigger] steps_from(*cfg, height as int, kind, StepState { counters: *counters, x: cx as int,
                y: cy as int, life: rest as int, fuel: left as nat, cooldown: cooldown as int }, f),
        ) by {
            reveal(steps);
            assert(drawn(log0, log0) + f =~= f);
            assert(canvas@.subrange(len0 as int, canvas@.len() as int) =~= Seq::<Stroke>::empty());
            let o = steps(*cfg, ca, height as int, x as int, y as int, kind, life as int, fuel as nat,
                cfg.multiplier as int, f);
            assert(Seq::<Stroke>::empty() + o.strokes =~= o.strokes);
        }
    }
    while rest > 0 && left > 0
        invariant
            grow_ready(*cfg, c0, height as int, cx as int, cy as int, rest as int, left as int),
            0 <= rest,
            rest + 22 * left <= i32::MAX,
            left <= fuel0 <= FUEL_CAP,
            fuel0 == fuel as int,
            fuel0 - left >= life - rest,
            c0 == *old(counters),
            ca == c0,
            c0.branches + fuel0 <= u64::MAX,
            c0.shoots + fuel0 <= u64::MAX,
            c0.shoot_counter + fuel0 <= u64::MAX,
            in_span(cx as int, left as int),
            in_span(cy as int, left as int),
            -(fuel0 - left) <= cooldown <= 2 * cfg.multiplier,
            canvas@.len() == len0 + (fuel0 - left),
            canvas@.subrange(0, len0 as int) == old(canvas)@,
            counters.branches == c0.branches + (fuel0 - left),
            forall|i: int| len0 <= i < canvas@.len() ==> (#[trigger] canvas@[i]).branches == c0.branches + (i - len0) + 1,
            c0.shoots <= counters.shoots <= c0.shoots + (fuel0 - left),
            counters.shoot_counter - c0.shoot_counter == counters.shoots - c0.shoots,
            cy <= ybound,
            ybound >= height - 1,
            forall|i: int| len0 <= i < canvas@.len() ==> (#[trigger] canvas@[i]).y <= ybound,
            log0 == old(dice).log(),
            extends(log0, dice.log()),
            forall|f: Seq<u32>| steps_from(*cfg, height as int, kind, StepState { counters: ca, x: x as int,
                y: y as int, life: life as int, fuel: fuel as nat, cooldown: cfg.multiplier as int },
                drawn(log0, dice.log()) + f) == prefixed(
                canvas@.subrange(len0 as int, canvas@.len() as int),
                drawn(log0, dice.log()).len(),
                #[trigger] steps_from(*cfg, height as int, kind, StepState { counters: *counters, x: cx as int,
                    y: cy as int, life: rest as int, fuel: left as nat, cooldown: cooldown as int }, f),
            ),
        decreases rest,
    {
        let ghost l0 = dice.log();
        let ghost c_prev = *counters;
        let ghost (x_prev, y_prev, rest_prev, left_prev, cd_prev) = (cx as int, cy as int, rest as int, left as nat, cooldown as int);
        let ghost canvas_prev = canvas@;
        left = left - 1;
        rest = rest - 1;
        let age = cfg.life_start - rest;
        let (dx, dy0) = set_deltas(kind, rest, age, cfg.multiplier, dice);
        let ghost l1 = dice.log();
        let dy = clamp_dy(dy0, cy, height);
        let spawn = choose_spawn(kind, rest, cfg.multiplier, cooldown, dice);
        let ghost l2 = dice.log();
        let child = match spawn {
            Spawn::Dead => BranchKind::Dead,
            Spawn::Dying => BranchKind::Dying,
            Spawn::Trunk(_) => BranchKind::Trunk,
            Spawn::Shoot => {
                counters.shoots = counters.shoots + 1;
                counters.shoot_counter = counters.shoot_counter + 1;
                BranchKind::from_i32((counters.shoot_counter % 2) as i32 + 1)
            },
            Spawn::Nothing => kind,
        };
        match spawn {
            Spawn::Trunk(_) | Spawn::Shoot => {
                cooldown = cfg.multiplier * 2;
            },
            _ => {},
        }
        let ghost before_child = canvas@;
        let ghost c2 = *counters;
        match spawn {
            Spawn::Nothing => {},
            _ => {
                left = grow(cfg, counters, dice, canvas, height, cx, cy, child, spawn_life(spawn, rest, cfg.multiplier), left);
            },
        }
        let ghost l3 = dice.log();
        let ghost c3 = *counters;
        let ghost canvas3 = canvas@;
        let ghost left3 = left;
        proof {
            assert forall|i: int| len0 <= i < canvas@.len() implies (#[trigger] canvas@[i]).y <= ybound by {
                if i < before_child.len() {
                    assert(canvas@[i] == canvas@.subrange(0, before_child.len() as int)[i]);
                }
            }
            assert forall|i: int| len0 <= i < canvas@.len() implies (#[trigger] canvas@[i]).branches
                == c0.branches + (i - len0) + 1 by {
                if i < before_child.len() {
                    assert(canvas@[i] == canvas@.subrange(0, before_child.len() as int)[i]);
                }
            }
        }
        cooldown = cooldown - 1;
        cx = cx + dx;
        cy = cy + dy;
        let shown = if rest < 4 { BranchKind::Dying } else { kind };
        let paint = choose_color(shown, dice);
        let ghost l4 = dice.log();
        let glyph = choose_string(cfg, shown, dx, dy, dice);
        let ghost l5 = dice.log();
        counters.branches = counters.branches + 1;
        let stroke = Stroke { x: cx, y: cy, dx, dy, kind, glyph, paint, branches: counters.branches };
        canvas.push(stroke);
        proof {
            assert(canvas@.subrange(0, len0 as int) =~= old(canvas)@);
            if spawn is Nothing {
                assert(l2.subrange(0, l2.len() as int) =~= l2);
            }
            lemma_drawn_concat(l0, l1, l2);
            lemma_drawn_concat(l0, l2, l3);
            lemma_drawn_concat(l0, l3, l4);
            lemma_drawn_concat(l0, l4, l5);
            lemma_drawn_concat(log0, l0, l5);
            let fd = drawn(l0, l1);
            let fs = drawn(l1, l2);
            let fc = drawn(l2, l3);
            let fp = drawn(l3, l4);
            let fg = drawn(l4, l5);
            let fstep = fd + fs + fc + fp + fg;
            let child_out = Outcome {
                counters: c3,
                strokes: canvas3.subrange(before_child.len() as int, canvas3.len() as int),
                used: fc.len(),
                left: left3 as nat,
            };
            if spawn is Nothing {
                assert(fc =~= Seq::<u32>::empty());
                assert(child_out.strokes =~= Seq::<Stroke>::empty());
            }
            lemma_step(*cfg, c_prev, height as int, x_prev, y_prev, kind, rest_prev, left_prev, cd_prev,
                fd, fs, fc, fp, fg, child_out, stroke);
            let s_prev = canvas_prev.subrange(len0 as int, canvas_prev.len() as int);
            assert(canvas@.subrange(len0 as int, canvas@.len() as int) =~= s_prev + child_out.strokes.push(stroke));
            let st_a = StepState { counters: ca, x: x as int, y: y as int, life: life as int, fuel: fuel as nat,
                cooldown: cfg.multiplier as int };
            let st_b = StepState { counters: c_prev, x: x_prev, y: y_prev, life: rest_prev, fuel: left_prev,
                cooldown: cd_prev };
            let st_e = StepState { counters: *counters, x: cx as int, y: cy as int, life: rest as int,
                fuel: left as nat, cooldown: cooldown as int };
            assert forall|f: Seq<u32>| #[trigger] steps_from(*cfg, height as int, kind, st_b, fstep + f)
                == prefixed(child_out.strokes.push(stroke), fstep.len(), steps_from(*cfg, height as int, kind, st_e, f)) by {
                assert(steps(*cfg, c_prev, height as int, x_prev, y_prev, kind, rest_prev, left_prev, cd_prev, fstep + f)
                    == prefixed(child_out.strokes.push(stroke), fstep.len(), steps(*cfg, *counters, height as int,
                    cx as int, cy as int, kind, rest as int, left as nat, cooldown as int, f)));
            }
            lemma_chain(*cfg, height as int, kind, s_prev, child_out.strokes.push(stroke), drawn(log0, l0), fstep,
                st_a, st_b, st_e);
            assert(drawn(l0, l5) == fstep);
            assert(drawn(log0, dice.log()) == drawn(log0, l0) + fstep);
        }
    }
    proof {
        assert forall|f: Seq<u32>| #[trigger] activation(*cfg, c0, height as int, x as int, y as int, kind,
            life as int, fuel as nat, drawn(log0, dice.log()) + f) == (Outcome {
                counters: *counters,
                strokes: canvas@.subrange(len0 as int, canvas@.len() as int),
                used: drawn(log0, dice.log()).len(),
                left: left as nat,
            }) by {
            reveal(steps);
            reveal(activation);
            let o = steps(*cfg, *counters, height as int, cx as int, cy as int, kind, rest as int, left as nat,
                cooldown as int, f);
            assert(o == steps_from(*cfg, height as int, kind, StepState { counters: *counters, x: cx as int,
                y: cy as int, life: rest as int, fuel: left as nat, cooldown: cooldown as int }, f));
            assert(o.strokes =~= Seq::<Stroke>::empty());
            assert(canvas@.subrange(len0 as int, canvas@.len() as int) + o.strokes
                =~= canvas@.subrange(len0 as int, canvas@.len() as int));
        }
    }
    left
}

/// The ceiling on life-steps of one run: a fixed multiple of the life budget
/// and the multiplier.
pub open spec fn step_ceiling(cfg: GrowthConfig) -> int {
    (cfg.life_start + 1) * (cfg.multiplier + 1) * 4096
}

/// The coordinates a run may start from.
pub open spec fn start_ok(x: int, y: int) -> bool {
    -1_000_000_000 <= x <= 1_000_000_000 && -1_000_000_000 <= y <= 1_000_000_000
}

/// The outcome of one run: the counters, every stroke in drawing order,
/// the life-steps left under the step ceiling, and the die faces that were
/// rolled. A run with no steps left may have been cut short by the ceiling.
pub struct Growth {
    pub counters: Counters,
    pub strokes: Vec<Stroke>,
    pub fuel_left: u64,
    pub faces: Ghost<Seq<u32>>,
}

/// The model of a whole run from the die faces `f`: a trunk of
/// `cfg.life_start` steps at `(x, y)`, counters at zero, under the step ceiling.
pub open spec fn tree_of(cfg: GrowthConfig, h: int, x: int, y: int, f: Seq<u32>) -> Outcome {
    activation(cfg, Counters { branches: 0, shoots: 0, shoot_counter: 0 }, h, x, y, BranchKind::Trunk,
        cfg.life_start as int, step_ceiling(cfg) as nat, f)
}

/// `g` is what a run of `cfg` from `(x, y)` on a surface `h` rows high
/// produces from the faces it rolled.
pub open spec fn is_tree(g: Growth, cfg: GrowthConfig, h: int, x: int, y: int) -> bool {
    &&& tree_of(cfg, h, x, y, g.faces@).counters == g.counters
    &&& tree_of(cfg, h, x, y, g.faces@).strokes == g.strokes@
    &&& tree_of(cfg, h, x, y, g.faces@).used == g.faces@.len()
    &&& tree_of(cfg, h, x, y, g.faces@).left == g.fuel_left
}

/// Two runs with the same configuration and start that roll the same faces
/// draw the same strokes, in the same order, with the same counters: a run
/// is a function of its dice.
pub proof fn lemma_same_dice_same_tree(cfg: GrowthConfig, h: int, x: int, y: int, a: Growth, b: Growth)
    requires
        is_tree(a, cfg, h, x, y),
        is_tree(b, cfg, h, x, y),
        a.faces@ == b.faces@,
    ensures
        a.strokes@ == b.strokes@,
        a.counters == b.counters,
{
}

impl Growth {
    /// The branch count to persist when drawing stopped after the first
    /// `shown` strokes: the count recorded with the last stroke drawn, the
    /// final count when every stroke was drawn, and 0 when none was.
    pub fn branches_shown(&self, shown: usize) -> (r: u64)
        ensures
            r == if shown >= self.strokes@.len() {
                self.counters.branches
            } else if shown == 0 {
                0
            } else {
                self.strokes@[shown - 1].branches
            },
    {
        if shown >= self.strokes.len() {
            self.counters.branches
        } else if shown == 0 {
            0
        } else {
            self.strokes[shown - 1].branches
        }
    }
}

/// Grows a whole tree: a trunk of `cfg.life_start` steps at `(x, y)` on a
/// surface `height` rows high, with dice seeded by `seed` and counters
/// starting at zero. Growth stops, all the way up, after `step_ceiling(cfg)`
/// life-steps; `fuel_left` is what was left of them.
pub fn grow_tree(cfg: &GrowthConfig, seed: u64, height: i32, x: i32, y: i32) -> (g: Growth)
    requires
        cfg.wf(),
        0 <= height,
        start_ok(x as int, y as int),
    ensures
        cfg.life_start <= g.strokes@.len() <= step_ceiling(*cfg),
        g.counters.branches == g.strokes@.len(),
        forall|i: int| 0 <= i < g.strokes@.len() ==> (#[trigger] g.strokes@[i]).branches == i + 1,
        g.strokes@.len() + g.fuel_left == step_ceiling(*cfg),
        g.counters.shoots <= g.strokes@.len(),
        g.counters.shoot_counter == g.counters.shoots,
        y < height ==> forall|i: int| 0 <= i < g.strokes@.len() ==> (#[trigger] g.strokes@[i]).y < height,
        is_tree(g, *cfg, height as int, x as int, y as int),
{
    let mut dice = Dice::new(seed);
    let mut counters = Counters::new();
    let mut strokes: Vec<Stroke> = Vec::new();
    let a: u64 = cfg.life_start as u64 + 1;
    let b: u64 = cfg.multiplier as u64 + 1;
    assert(1 <= a * b <= 201 * 21) by (nonlinear_arith)
        requires
            1 <= a <= 201,
            1 <= b <= 21,
    ;
    let fuel: u64 = a * b * 4096;
    assert(fuel as int == step_ceiling(*cfg));
    let ghost log0 = dice.log();
    let left = grow(cfg, &mut counters, &mut dice, &mut strokes, height, x, y, BranchKind::Trunk, cfg.life_start, fuel);
    let ghost faces = drawn(log0, dice.log());
    proof {
        assert(faces + Seq::<u32>::empty() =~= faces);
        assert(strokes@.subrange(0, strokes@.len() as int) =~= strokes@);
    }
    Growth { counters, strokes, fuel_left: left, faces: Ghost(faces) }
}

} // verus!
