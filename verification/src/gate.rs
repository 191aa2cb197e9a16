//! Open/close decisions of the noise gate. The envelope follower and the gain
//! smoothing work on samples; what they decide is held here: the noise gate opens
//! when the envelope rises above the open threshold, and closes only after
//! the hold time has run out with the envelope below the (lower) close
//! threshold, so that dips near the threshold do not make it chatter.

use vstd::prelude::*;

verus! {

/// The abstract state of the noise gate.
pub struct GateView {
    /// Whether the noise gate lets sound through.
    pub open: bool,
    /// Samples left before an open gate may close.
    pub hold: u32,
    /// The hold time in samples.
    pub limit: u32,
}

/// The noise gate's state is consistent: the hold count never exceeds the hold time,
/// and a closed gate holds nothing.
pub open spec fn gate_valid(g: GateView) -> bool {
    g.hold <= g.limit && (!g.open ==> g.hold == 0)
}

/// One sample's decision, given whether the envelope is above the open
/// threshold and whether it is below the close threshold.
pub open spec fn gate_next(g: GateView, above_open: bool, below_close: bool) -> GateView {
    if g.open {
        if above_open {
            GateView { open: true, hold: g.limit, limit: g.limit }
        } else if g.hold > 0 {
            GateView { open: true, hold: (g.hold - 1) as u32, limit: g.limit }
        } else if below_close {
            GateView { open: false, hold: 0, limit: g.limit }
        } else {
            g
        }
    } else if above_open {
        GateView { open: true, hold: g.limit, limit: g.limit }
    } else {
        g
    }
}

/// The state after a run of samples, each given as (above open, below close).
pub open spec fn gate_run(g: GateView, levels: Seq<(bool, bool)>) -> GateView
    decreases levels.len(),
{
    if levels.len() == 0 {
        g
    } else {
        gate_next(gate_run(g, levels.drop_last()), levels.last().0, levels.last().1)
    }
}

/// The open/close state of a noise gate.
pub struct GateState {
    open: bool,
    hold: u32,
    hold_samples: u32,
}

impl View for GateState {
    type V = GateView;

    closed spec fn view(&self) -> GateView {
        GateView { open: self.open, hold: self.hold, limit: self.hold_samples }
    }
}

impl GateState {
    /// A closed gate whose hold time is `hold_samples` samples.
    pub fn new(hold_samples: u32) -> (g: GateState)
        ensures
            g@ == (GateView { open: false, hold: 0, limit: hold_samples }),
    {
        GateState { open: false, hold: 0, hold_samples }
    }

    /// Decides one sample: `above_open` tells whether the envelope is above the
    /// open threshold, `below_close` whether it is below the close threshold.
    pub fn step(&mut self, above_open: bool, below_close: bool)
        ensures
            final(self)@ == gate_next(old(self)@, above_open, below_close),
    {
        if self.open {
            if above_open {
                self.hold = self.hold_samples;
            } else if self.hold > 0 {
                self.hold = self.hold - 1;
            } else if below_close {
                self.open = false;
            }
        } else if above_open {
            self.open = true;
            self.hold = self.hold_samples;
        }
    }

    /// Whether the noise gate currently lets sound through.
    pub fn is_open(&self) -> (b: bool)
        ensures
            b == self@.open,
    {
        self.open
    }
}

/// Every decision keeps the noise gate's state consistent.
pub proof fn lemma_gate_step_valid(g: GateView, above_open: bool, below_close: bool)
    requires
        gate_valid(g),
    ensures
        gate_valid(gate_next(g, above_open, below_close)),
        gate_next(g, above_open, below_close).limit == g.limit,
{
}

/// The noise gate changes state only across the thresholds: it opens only when the
/// envelope is above the open threshold, and closes only when the hold time
/// is used up and the envelope is below the close threshold; above the open
/// threshold it is always open with the full hold time ahead.
pub proof fn lemma_gate_thresholds(g: GateView, above_open: bool, below_close: bool)
    ensures
        !g.open && gate_next(g, above_open, below_close).open ==> above_open,
        g.open && !gate_next(g, above_open, below_close).open ==> (g.hold == 0 && !above_open
            && below_close),
        above_open ==> gate_next(g, above_open, below_close).open && gate_next(
            g,
            above_open,
            below_close,
        ).hold == g.limit,
{
}

/// Between the two thresholds nothing changes whether the noise gate is open.
pub proof fn lemma_gate_hysteresis(g: GateView, levels: Seq<(bool, bool)>)
    requires
        forall|i: int| 0 <= i < levels.len() ==> !(#[trigger] levels[i]).0 && !levels[i].1,
    ensures
        gate_run(g, levels).open == g.open,
    decreases levels.len(),
{
    if levels.len() > 0 {
        lemma_gate_hysteresis(g, levels.drop_last());
    }
}

/// Once open with `g.hold` samples of hold left, the noise gate stays open for at
/// least that many more samples, whatever the envelope does.
pub proof fn lemma_gate_hold(g: GateView, levels: Seq<(bool, bool)>)
    requires
        gate_valid(g),
        g.open,
        levels.len() <= g.hold,
    ensures
        gate_run(g, levels).open,
        gate_run(g, levels).hold >= g.hold - levels.len(),
        gate_valid(gate_run(g, levels)),
    decreases levels.len(),
{
    if levels.len() > 0 {
        lemma_gate_hold(g, levels.drop_last());
    }
}

/// An open noise gate whose envelope is not above the open threshold spends
/// one sample of its hold time, wherever the envelope is below that threshold
/// (between the two thresholds or below the close one); once the hold is used
/// up it closes below the close threshold and stays open between the two; a
/// closed gate stays closed until the envelope rises above the open threshold.
pub proof fn lemma_gate_countdown(g: GateView, above_open: bool, below_close: bool)
    ensures
        g.open && !above_open && g.hold > 0 ==> gate_next(g, above_open, below_close).open
            && gate_next(g, above_open, below_close).hold == g.hold - 1,
        g.open && !above_open && g.hold == 0 && below_close ==> !gate_next(
            g,
            above_open,
            below_close,
        ).open,
        g.open && !above_open && g.hold == 0 && !below_close ==> gate_next(
            g,
            above_open,
            below_close,
        ).open && gate_next(g, above_open, below_close).hold == 0,
        !g.open && !above_open ==> !gate_next(g, above_open, below_close).open,
{
}

/// Below the open threshold an open noise gate with `h` samples of hold left is
/// still open after `n <= h` samples with exactly `h - n` left, and after one
/// more sample below the close threshold it is closed.
pub proof fn lemma_gate_hold_runs_out(g: GateView, levels: Seq<(bool, bool)>)
    requires
        g.open,
        levels.len() <= g.hold,
        forall|i: int| 0 <= i < levels.len() ==> !(#[trigger] levels[i]).0,
    ensures
        gate_run(g, levels).open,
        gate_run(g, levels).hold == g.hold - levels.len(),
        levels.len() == g.hold ==> !gate_run(g, levels.push((false, true))).open,
    decreases levels.len(),
{
    if levels.len() > 0 {
        let init = levels.drop_last();
        assert forall|i: int| 0 <= i < init.len() implies !(#[trigger] init[i]).0 by {
            assert(init[i] == levels[i]);
        }
        lemma_gate_hold_runs_out(g, init);
    }
    let p = levels.push((false, true));
    assert(p.drop_last() =~= levels);
}

} // verus!
