use vstd::prelude::*;
use crate::branch::GrowthConfig;

verus! {

/// What the frame coordinator hands back to growth after a poll.
#[derive(Clone, Copy, Debug, PartialEq, Eq, Structural)]
pub enum ControlSignal {
    Continue,
    Terminate,
}

/// The key that ends a run.
pub const QUIT_KEY: u32 = 'q' as u32;

/// The signal for one poll of the keyboard: `key` is the key pressed, if
/// any. The quit key ends the run; in screensaver mode any key does.
pub open spec fn signal_of(screensaver: bool, key: Option<u32>) -> ControlSignal {
    if key == Some(QUIT_KEY) || (screensaver && key is Some) {
        ControlSignal::Terminate
    } else {
        ControlSignal::Continue
    }
}

/// Turns one poll of the keyboard into a control signal (see `signal_of`).
pub fn key_signal(screensaver: bool, key: Option<u32>) -> (s: ControlSignal)
    ensures
        s == signal_of(screensaver, key),
{
    match key {
        Some(k) => if k == QUIT_KEY || screensaver {
            ControlSignal::Terminate
        } else {
            ControlSignal::Continue
        },
        None => ControlSignal::Continue,
    }
}

/// Whether the frame after a stroke is flushed and paced: only in live
/// mode, and not while a loaded run is still catching up to its saved
/// branch count.
pub open spec fn presents(cfg: GrowthConfig, branches: u64) -> bool {
    cfg.live && !(cfg.load && branches < cfg.target_branch_count)
}

/// Decides whether to present the frame after a stroke written when
/// `branches` segments had been drawn (see `presents`).
pub fn should_present(cfg: &GrowthConfig, branches: u64) -> (r: bool)
    ensures
        r == presents(*cfg, branches),
{
    cfg.live && !(cfg.load && branches < cfg.target_branch_count)
}

/// Hands out the strokes of a run one at a time, polling for cancellation
/// before each; once cancelled it hands out nothing more.
#[derive(Clone, Copy, Debug, PartialEq, Eq, Structural)]
pub struct Playback {
    /// Index of the next stroke to draw.
    pub next: usize,
    /// Number of strokes in the run.
    pub total: usize,
    /// Whether a terminate signal has been seen.
    pub stopped: bool,
}

/// One step of playback: the stroke to draw, if any, and the state after.
pub open spec fn playback_step(p: Playback, s: ControlSignal) -> (Option<usize>, Playback) {
    if p.stopped || p.next >= p.total {
        (None, p)
    } else if s is Terminate {
        (None, Playback { stopped: true, ..p })
    } else {
        (Some(p.next), Playback { next: (p.next + 1) as usize, ..p })
    }
}

/// The strokes that playback draws, in order, when it is polled with the
/// signals `sigs` in turn.
pub open spec fn played(p: Playback, sigs: Seq<ControlSignal>) -> Seq<usize>
    decreases sigs.len(),
{
    if sigs.len() == 0 {
        Seq::empty()
    } else {
        let (r, q) = playback_step(p, sigs[0]);
        let rest = played(q, sigs.drop_first());
        match r {
            Some(i) => seq![i] + rest,
            None => rest,
        }
    }
}

impl Playback {
    /// The state before the first of `total` strokes.
    pub fn new(total: usize) -> (p: Playback)
        ensures
            p == (Playback { next: 0, total, stopped: false }),
    {
        Playback { next: 0, total, stopped: false }
    }

    /// Takes the signal of this poll and returns the index of the stroke to
    /// draw now, or `None` when playback is over (see `playback_step`).
    pub fn advance(&mut self, signal: ControlSignal) -> (r: Option<usize>)
        ensures
            (r, *final(self)) == playback_step(*old(self), signal),
    {
        if self.stopped || self.next >= self.total {
            None
        } else {
            match signal {
                ControlSignal::Terminate => {
                    self.stopped = true;
                    None
                },
                ControlSignal::Continue => {
                    let i = self.next;
                    self.next = self.next + 1;
                    Some(i)
                },
            }
        }
    }

    /// Whether playback has ended, by cancellation or by drawing every stroke.
    pub fn finished(&self) -> (r: bool)
        ensures
            r == (self.stopped || self.next >= self.total),
    {
        self.stopped || self.next >= self.total
    }
}

/// Cancellation unwinds: when the signal at poll `k` is the first terminate
/// signal, playback draws exactly what it drew in the polls before `k`,
/// and nothing after.
pub proof fn lemma_cancel_unwinds(p: Playback, sigs: Seq<ControlSignal>, k: int)
    requires
        0 <= k < sigs.len(),
        sigs[k] is Terminate,
    ensures
        played(p, sigs) == played(p, sigs.take(k)),
    decreases sigs.len(),
{
    if k == 0 {
        let (r, q) = playback_step(p, sigs[0]);
        if p.stopped || p.next >= p.total {
            lemma_finished_draws_nothing(p, sigs);
        } else {
            lemma_finished_draws_nothing(q, sigs.drop_first());
        }
        assert(sigs.take(0) =~= Seq::<ControlSignal>::empty());
    } else {
        let (r, q) = playback_step(p, sigs[0]);
        lemma_cancel_unwinds(q, sigs.drop_first(), k - 1);
        assert(sigs.take(k).drop_first() =~= sigs.drop_first().take(k - 1));
    }
}

/// A finished playback, cancelled or drawn to the end, draws nothing more,
/// whatever it is polled with.
pub proof fn lemma_finished_draws_nothing(p: Playback, sigs: Seq<ControlSignal>)
    requires
        p.stopped || p.next >= p.total,
    ensures
        played(p, sigs) == Seq::<usize>::empty(),
    decreases sigs.len(),
{
    if sigs.len() > 0 {
        lemma_finished_draws_nothing(p, sigs.drop_first());
    }
}

} // verus!
