use vstd::prelude::*;
use crate::glyph::Glyph;

verus! {

/// The closed set of branch kinds; it selects the delta, glyph and colour
/// tables. `Dying` and `Dead` are terminal, leaf-bearing kinds.
#[derive(Clone, Copy, Debug, PartialEq, Eq, Structural)]
pub enum BranchKind {
    Trunk,
    ShootLeft,
    ShootRight,
    Dying,
    Dead,
}

/// The numbering of the kinds, in declaration order.
pub open spec fn kind_index(k: BranchKind) -> int {
    match k {
        BranchKind::Trunk => 0,
        BranchKind::ShootLeft => 1,
        BranchKind::ShootRight => 2,
        BranchKind::Dying => 3,
        BranchKind::Dead => 4,
    }
}

/// The printed name of a kind.
pub open spec fn kind_name(k: BranchKind) -> Seq<char> {
    match k {
        BranchKind::Trunk => "Trunk"@,
        BranchKind::ShootLeft => "ShootLeft"@,
        BranchKind::ShootRight => "ShootRight"@,
        BranchKind::Dying => "Dying"@,
        BranchKind::Dead => "Dead"@,
    }
}

impl BranchKind {
    /// Trunks and shoots; the kinds that can spawn children other than
    /// terminal growth.
    pub open spec fn is_woody(self) -> bool {
        self is Trunk || self is ShootLeft || self is ShootRight
    }

    /// The kind with number `value` (see `kind_index`).
    pub fn from_i32(value: i32) -> (k: BranchKind)
        requires
            0 <= value <= 4,
        ensures
            kind_index(k) == value,
    {
        match value {
            0 => BranchKind::Trunk,
            1 => BranchKind::ShootLeft,
            2 => BranchKind::ShootRight,
            3 => BranchKind::Dying,
            _ => BranchKind::Dead,
        }
    }

    /// The kind's name, as it is printed in verbose output.
    pub fn name(&self) -> (s: &'static str)
        ensures
            s@ == kind_name(*self),
    {
        proof {
            reveal_strlit("Trunk");
            reveal_strlit("ShootLeft");
            reveal_strlit("ShootRight");
            reveal_strlit("Dying");
            reveal_strlit("Dead");
        }
        match self {
            BranchKind::Trunk => "Trunk",
            BranchKind::ShootLeft => "ShootLeft",
            BranchKind::ShootRight => "ShootRight",
            BranchKind::Dying => "Dying",
            BranchKind::Dead => "Dead",
        }
    }
}

/// Run-wide accumulators shared by every branch activation.
#[derive(Clone, Copy, Debug, PartialEq, Eq, Structural)]
pub struct Counters {
    /// Branch segments drawn: one per glyph written.
    pub branches: u64,
    /// Shoots spawned.
    pub shoots: u64,
    /// Parity counter that alternates the side of successive shoots.
    pub shoot_counter: u64,
}

impl Counters {
    /// All counters at zero.
    pub fn new() -> (c: Counters)
        ensures
            c.branches == 0 && c.shoots == 0 && c.shoot_counter == 0,
    {
        Counters { branches: 0, shoots: 0, shoot_counter: 0 }
    }
}

/// Largest accepted branch multiplier.
pub const MAX_MULTIPLIER: i32 = 20;

/// Largest accepted life budget.
pub const MAX_LIFE: i32 = 200;

/// Per-run parameters of growth.
#[derive(Clone, Debug)]
pub struct GrowthConfig {
    /// Branching aggressiveness, `0..=20`.
    pub multiplier: i32,
    /// Total growth budget of the trunk, `0..=200`.
    pub life_start: i32,
    /// Characters that leaves are drawn with, chosen uniformly.
    pub leaves: Vec<char>,
    /// Whether each step of growth is shown as it happens.
    pub live: bool,
    /// Whether a saved run is being replayed; frames are then not paced
    /// until `target_branch_count` branches have been started.
    pub load: bool,
    /// Branch count of the saved run being caught up to.
    pub target_branch_count: u64,
    /// Amount of diagnostic output.
    pub verbosity: i32,
}

impl GrowthConfig {
    /// The ranges within which growth is defined.
    pub open spec fn wf(&self) -> bool {
        &&& 0 <= self.multiplier <= MAX_MULTIPLIER
        &&& 0 <= self.life_start <= MAX_LIFE
        &&& 0 < self.leaves@.len() <= u32::MAX
    }
}

/// A colour attribute: a colour pair, possibly bold.
#[derive(Clone, Copy, Debug, PartialEq, Eq, Structural)]
pub struct Paint {
    pub pair: i16,
    pub bold: bool,
}

/// One glyph written at an absolute cell by a branch of `kind` that took
/// the step `(dx, dy)` to get there, with the number of segments drawn so
/// far, this one included.
#[derive(Clone, Copy, Debug, PartialEq, Eq, Structural)]
pub struct Stroke {
    pub x: i32,
    pub y: i32,
    pub dx: i32,
    pub dy: i32,
    pub kind: BranchKind,
    pub glyph: Glyph,
    pub paint: Paint,
    pub branches: u64,
}

} // verus!
