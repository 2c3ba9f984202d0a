use vstd::prelude::*;
use crate::branch::{BranchKind, GrowthConfig, Paint};
use crate::dice::{Dice, rolled, drawn};

verus! {

/// Width of a leaf token: the chosen leaf character repeated.
pub const LEAF_WIDTH: usize = 32;

/// The kind whose glyph and colour rules a branch follows: any branch with
/// fewer than four steps of life left is drawn as dying growth.
pub open spec fn drawn_kind(kind: BranchKind, life: int) -> BranchKind {
    if life < 4 { BranchKind::Dying } else { kind }
}

/// Sides of the die that picks the colour of a kind.
pub open spec fn color_sides(kind: BranchKind) -> u32 {
    match kind {
        BranchKind::Dying => 10,
        BranchKind::Dead => 3,
        _ => 2,
    }
}

/// The colour of a kind: bold when its die shows 0.
pub open spec fn paint_of(kind: BranchKind, face: int) -> Paint {
    match kind {
        BranchKind::Dying => Paint { pair: 2, bold: face == 0 },
        BranchKind::Dead => Paint { pair: 10, bold: face == 0 },
        _ => if face == 0 { Paint { pair: 11, bold: true } } else { Paint { pair: 3, bold: false } },
    }
}

/// The colour of a kind for the face of its die (see `paint_of`).
pub fn paint_for(kind: BranchKind, face: u32) -> (p: Paint)
    ensures
        p == paint_of(kind, face as int),
{
    match kind {
        BranchKind::Dying => Paint { pair: 2, bold: face == 0 },
        BranchKind::Dead => Paint { pair: 10, bold: face == 0 },
        _ => if face == 0 { Paint { pair: 11, bold: true } } else { Paint { pair: 3, bold: false } },
    }
}

/// Picks the colour of a branch of `kind`: one roll of its die.
pub fn choose_color(kind: BranchKind, dice: &mut Dice) -> (p: Paint)
    ensures
        rolled(old(dice).log(), final(dice).log(), seq![color_sides(kind)]),
        p == paint_of(kind, drawn(old(dice).log(), final(dice).log())[0] as int),
{
    let sides: u32 = match kind {
        BranchKind::Dying => 10,
        BranchKind::Dead => 3,
        _ => 2,
    };
    let faces = dice.roll_all(&vec![sides]);
    paint_for(kind, faces[0])
}

/// A glyph string as drawn: one of the connectors of trunks and shoots, or
/// a leaf token.
#[derive(Clone, Copy, Debug, PartialEq, Eq, Structural)]
pub enum Glyph {
    /// `/~`
    Level,
    /// `\|`
    LeanLeft,
    /// `/|\`
    Upright,
    /// `|/`
    LeanRight,
    /// `\`
    Drop,
    /// `\_`
    LeftLevel,
    /// `/|`
    Stem,
    /// `/`
    Rise,
    /// `_/`
    RightLevel,
    /// The leaf character repeated `LEAF_WIDTH` times.
    Leaf(char),
}

/// The characters of a glyph.
pub open spec fn glyph_text(g: Glyph) -> Seq<char> {
    match g {
        Glyph::Level => seq!['/', '~'],
        Glyph::LeanLeft => seq!['\\', '|'],
        Glyph::Upright => seq!['/', '|', '\\'],
        Glyph::LeanRight => seq!['|', '/'],
        Glyph::Drop => seq!['\\'],
        Glyph::LeftLevel => seq!['\\', '_'],
        Glyph::Stem => seq!['/', '|'],
        Glyph::Rise => seq!['/'],
        Glyph::RightLevel => seq!['_', '/'],
        Glyph::Leaf(c) => leaf_token(c),
    }
}

/// The connector of a trunk or shoot for the step `(dx, dy)`; terminal
/// kinds take the right shoot's connectors.
pub open spec fn connector(kind: BranchKind, dx: int, dy: int) -> Glyph {
    match kind {
        BranchKind::Trunk => if dy == 0 {
            Glyph::Level
        } else if dx < 0 {
            Glyph::LeanLeft
        } else if dx == 0 {
            Glyph::Upright
        } else {
            Glyph::LeanRight
        },
        BranchKind::ShootLeft => if dy > 0 {
            Glyph::Drop
        } else if dy == 0 {
            Glyph::LeftLevel
        } else if dx < 0 {
            Glyph::LeanLeft
        } else if dx == 0 {
            Glyph::Stem
        } else {
            Glyph::Rise
        },
        _ => if dy > 0 {
            Glyph::Rise
        } else if dy == 0 {
            Glyph::RightLevel
        } else if dx < 0 {
            Glyph::LeanLeft
        } else if dx == 0 {
            Glyph::Stem
        } else {
            Glyph::Rise
        },
    }
}

/// A leaf token: `c` repeated `LEAF_WIDTH` times.
pub open spec fn leaf_token(c: char) -> Seq<char> {
    Seq::new(LEAF_WIDTH as nat, |i: int| c)
}

/// Dice rolled to pick the glyph of a branch drawn as `kind`: one roll over
/// the leaf set for terminal growth, none otherwise.
pub open spec fn glyph_sides(kind: BranchKind, n_leaves: nat) -> Seq<u32> {
    if kind is Dying || kind is Dead { seq![n_leaves as u32] } else { Seq::empty() }
}

/// The glyph of a branch drawn as `kind` for the step `(dx, dy)`, given the
/// faces `f` of the dice of `glyph_sides`.
pub open spec fn glyph_of(kind: BranchKind, dx: int, dy: int, leaves: Seq<char>, f: Seq<u32>) -> Glyph {
    if kind is Dying || kind is Dead { Glyph::Leaf(leaves[f[0] as int]) } else { connector(kind, dx, dy) }
}

/// Builds a leaf token of `c`.
pub fn leaf_string(c: char) -> (s: Vec<char>)
    ensures
        s@ == leaf_token(c),
{
    let mut s: Vec<char> = Vec::new();
    let mut i: usize = 0;
    while i < LEAF_WIDTH
        invariant
            i <= LEAF_WIDTH,
            s@ == Seq::new(i as nat, |j: int| c),
        decreases LEAF_WIDTH - i,
    {
        s.push(c);
        i += 1;
        assert(s@ =~= Seq::new(i as nat, |j: int| c));
    }
    s
}

impl Glyph {
    /// The characters of the glyph (see `glyph_text`).
    pub fn text(&self) -> (s: Vec<char>)
        ensures
            s@ == glyph_text(*self),
    {
        let s = match self {
            Glyph::Level => vec!['/', '~'],
            Glyph::LeanLeft => vec!['\\', '|'],
            Glyph::Upright => vec!['/', '|', '\\'],
            Glyph::LeanRight => vec!['|', '/'],
            Glyph::Drop => vec!['\\'],
            Glyph::LeftLevel => vec!['\\', '_'],
            Glyph::Stem => vec!['/', '|'],
            Glyph::Rise => vec!['/'],
            Glyph::RightLevel => vec!['_', '/'],
            Glyph::Leaf(c) => leaf_string(*c),
        };
        assert(s@ =~= glyph_text(*self));
        s
    }
}

/// The connector of a trunk or shoot (see `connector`).
pub fn connector_glyph(kind: BranchKind, dx: i32, dy: i32) -> (g: Glyph)
    ensures
        g == connector(kind, dx as int, dy as int),
{
    match kind {
        BranchKind::Trunk => {
            if dy == 0 {
                Glyph::Level
            } else if dx < 0 {
                Glyph::LeanLeft
            } else if dx == 0 {
                Glyph::Upright
            } else {
                Glyph::LeanRight
            }
        },
        BranchKind::ShootLeft => {
            if dy > 0 {
                Glyph::Drop
            } else if dy == 0 {
                Glyph::LeftLevel
            } else if dx < 0 {
                Glyph::LeanLeft
            } else if dx == 0 {
                Glyph::Stem
            } else {
                Glyph::Rise
            }
        },
        _ => {
            if dy > 0 {
                Glyph::Rise
            } else if dy == 0 {
                Glyph::RightLevel
            } else if dx < 0 {
                Glyph::LeanLeft
            } else if dx == 0 {
                Glyph::Stem
            } else {
                Glyph::Rise
            }
        },
    }
}

/// Picks the glyph of a branch drawn as `kind` (see `drawn_kind`) for the
/// step `(dx, dy)`: a directional connector for trunks and shoots, a leaf
/// token of a uniformly chosen leaf for dying and dead growth.
pub fn choose_string(cfg: &GrowthConfig, kind: BranchKind, dx: i32, dy: i32, dice: &mut Dice) -> (g: Glyph)
    requires
        cfg.wf(),
    ensures
        rolled(old(dice).log(), final(dice).log(), glyph_sides(kind, cfg.leaves@.len())),
        g == glyph_of(kind, dx as int, dy as int, cfg.leaves@, drawn(old(dice).log(), final(dice).log())),
{
    let ghost before = dice.log();
    let g = match kind {
        BranchKind::Dying | BranchKind::Dead => {
            let f = dice.roll(cfg.leaves.len() as u32);
            Glyph::Leaf(cfg.leaves[f as usize])
        },
        _ => connector_glyph(kind, dx, dy),
    };
    proof {
        assert(dice.log().subrange(0, before.len() as int) =~= before);
    }
    g
}

} // verus!
