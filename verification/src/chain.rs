//! The signal chain: which processing stages one audio block runs through,
//! in what order, given the switches the user has set and which captures and
//! cabinet response are loaded.

use vstd::prelude::*;
use crate::eq_position::EqPosition;

verus! {

/// A processing stage of the chain.
#[derive(PartialEq, Eq, Debug, Clone, Copy, Structural)]
pub enum Stage {
    /// The noise gate.
    Gate,
    /// The three-band EQ with its high- and low-pass filters.
    Eq,
    /// The pedal capture, with its input and output gains.
    Pedal,
    /// The amp capture, with its input and output gains.
    Amp,
    /// The cabinet impulse response, with its level.
    Cab,
}

/// The switches that decide how a block is processed.
#[derive(Clone, Copy)]
pub struct ChainSwitches {
    pub muted: bool,
    pub tuner_enabled: bool,
    pub gate_enabled: bool,
    pub eq_enabled: bool,
    pub eq_pos: EqPosition,
    pub pedal_bypass: bool,
    pub pedal_loaded: bool,
    pub amp_bypass: bool,
    pub amp_loaded: bool,
    pub cab_bypass: bool,
    pub cab_loaded: bool,
}

/// What the output ports receive for one block.
pub enum BlockOutput {
    /// Zeros on both outputs.
    Silence,
    /// The input, unprocessed, on both outputs.
    Dry,
    /// The input run through these stages in order; the right output copies the left.
    Processed(Vec<Stage>),
}

/// The work for one audio block.
pub struct BlockPlan {
    /// Append the input block to the tuner's sample window.
    pub feed_tuner: bool,
    /// Bring the noise gate's thresholds up to date with the settings first.
    pub update_gate: bool,
    /// Bring the EQ coefficients up to date with the settings first.
    pub update_eq: bool,
    /// What the outputs receive.
    pub output: BlockOutput,
}

/// A stage when `on`, nothing otherwise.
pub open spec fn stage_if(on: bool, s: Stage) -> Seq<Stage> {
    if on {
        seq![s]
    } else {
        Seq::empty()
    }
}

/// Whether the EQ is on at position `p`.
pub open spec fn eq_at(c: ChainSwitches, p: EqPosition) -> bool {
    c.eq_enabled && c.eq_pos == p
}

/// Whether the pedal capture runs.
pub open spec fn pedal_active(c: ChainSwitches) -> bool {
    !c.pedal_bypass && c.pedal_loaded
}

/// Whether the amp capture runs.
pub open spec fn amp_active(c: ChainSwitches) -> bool {
    !c.amp_bypass && c.amp_loaded
}

/// Whether the cabinet response runs.
pub open spec fn cab_active(c: ChainSwitches) -> bool {
    !c.cab_bypass && c.cab_loaded
}

/// The stages of a processed block: gate, EQ if pre-pedal, pedal, EQ if
/// pre-amp, amp, cabinet, EQ if post-cab, each only when switched on and loaded.
pub open spec fn chain_stages(c: ChainSwitches) -> Seq<Stage> {
    stage_if(c.gate_enabled, Stage::Gate) + stage_if(eq_at(c, EqPosition::PrePedal), Stage::Eq)
        + stage_if(pedal_active(c), Stage::Pedal) + stage_if(eq_at(c, EqPosition::PreAmp), Stage::Eq)
        + stage_if(amp_active(c), Stage::Amp) + stage_if(cab_active(c), Stage::Cab) + stage_if(
        eq_at(c, EqPosition::PostCab),
        Stage::Eq,
    )
}

/// Where a stage sits in the chain given the EQ position.
pub open spec fn stage_rank(c: ChainSwitches, s: Stage) -> int {
    match s {
        Stage::Gate => 0,
        Stage::Pedal => 2,
        Stage::Amp => 4,
        Stage::Cab => 5,
        Stage::Eq => match c.eq_pos {
            EqPosition::PrePedal => 1,
            EqPosition::PreAmp => 3,
            EqPosition::PostCab => 6,
        },
    }
}

fn push_if(v: &mut Vec<Stage>, on: bool, s: Stage)
    ensures
        final(v)@ == old(v)@ + stage_if(on, s),
{
    if on {
        v.push(s);
    } else {
        assert(old(v)@ + stage_if(on, s) =~= old(v)@);
    }
}

/// Plans one audio block. With the tuner on, the input feeds the tuner and
/// passes through dry (or silenced when muted); otherwise a muted engine
/// outputs silence, and an unmuted one runs the chain's active stages.
pub fn plan_block(c: ChainSwitches) -> (p: BlockPlan)
    ensures
        p.feed_tuner == c.tuner_enabled,
        p.update_gate == (!c.tuner_enabled && !c.muted && c.gate_enabled),
        p.update_eq == (!c.tuner_enabled && !c.muted && c.eq_enabled),
        c.tuner_enabled && c.muted ==> p.output is Silence,
        c.tuner_enabled && !c.muted ==> p.output is Dry,
        !c.tuner_enabled && c.muted ==> p.output is Silence,
        !c.tuner_enabled && !c.muted ==> (p.output matches BlockOutput::Processed(v) && v@
            == chain_stages(c)),
{
    if c.tuner_enabled {
        let output = if c.muted {
            BlockOutput::Silence
        } else {
            BlockOutput::Dry
        };
        return BlockPlan { feed_tuner: true, update_gate: false, update_eq: false, output };
    }
    if c.muted {
        return BlockPlan {
            feed_tuner: false,
            update_gate: false,
            update_eq: false,
            output: BlockOutput::Silence,
        };
    }
    let mut v: Vec<Stage> = Vec::new();
    let eq_pre_pedal = c.eq_enabled && c.eq_pos == EqPosition::PrePedal;
    let eq_pre_amp = c.eq_enabled && c.eq_pos == EqPosition::PreAmp;
    let eq_post_cab = c.eq_enabled && c.eq_pos == EqPosition::PostCab;
    push_if(&mut v, c.gate_enabled, Stage::Gate);
    push_if(&mut v, eq_pre_pedal, Stage::Eq);
    push_if(&mut v, !c.pedal_bypass && c.pedal_loaded, Stage::Pedal);
    push_if(&mut v, eq_pre_amp, Stage::Eq);
    push_if(&mut v, !c.amp_bypass && c.amp_loaded, Stage::Amp);
    push_if(&mut v, !c.cab_bypass && c.cab_loaded, Stage::Cab);
    push_if(&mut v, eq_post_cab, Stage::Eq);
    assert(v@ =~= chain_stages(c));
    BlockPlan {
        feed_tuner: false,
        update_gate: c.gate_enabled,
        update_eq: c.eq_enabled,
        output: BlockOutput::Processed(v),
    }
}

/// Each stage is in the chain exactly when it is switched on (and, for the
/// captures and cabinet, loaded and not bypassed); the EQ is in it when enabled.
pub proof fn lemma_chain_membership(c: ChainSwitches)
    ensures
        chain_stages(c).contains(Stage::Gate) == c.gate_enabled,
        chain_stages(c).contains(Stage::Eq) == c.eq_enabled,
        chain_stages(c).contains(Stage::Pedal) == pedal_active(c),
        chain_stages(c).contains(Stage::Amp) == amp_active(c),
        chain_stages(c).contains(Stage::Cab) == cab_active(c),
{
    broadcast use vstd::seq_lib::group_seq_properties;

    assert forall|on: bool, s: Stage, t: Stage| #[trigger] stage_if(on, s).contains(t) == (on && s
        == t) by {
        if on && s == t {
            assert(stage_if(on, s)[0] == t);
        }
    }
}

/// Stages of `s` in strictly increasing chain rank.
pub open spec fn rank_increasing(c: ChainSwitches, s: Seq<Stage>) -> bool {
    forall|i: int, j: int| 0 <= i < j < s.len() ==> stage_rank(c, s[i]) < stage_rank(c, s[j])
}

/// Every stage of `s` ranks below `r`.
pub open spec fn ranks_below(c: ChainSwitches, s: Seq<Stage>, r: int) -> bool {
    forall|i: int| 0 <= i < s.len() ==> stage_rank(c, s[i]) < r
}

proof fn lemma_append_stage(c: ChainSwitches, a: Seq<Stage>, on: bool, t: Stage, r: int)
    requires
        rank_increasing(c, a),
        ranks_below(c, a, r),
        on ==> stage_rank(c, t) == r,
    ensures
        rank_increasing(c, a + stage_if(on, t)),
        ranks_below(c, a + stage_if(on, t), r + 1),
{
    let b = a + stage_if(on, t);
    if on {
        assert(b[a.len() as int] == t);
        assert forall|i: int| 0 <= i < a.len() implies b[i] == a[i] by {}
    } else {
        assert(b =~= a);
    }
}

/// The chain runs its stages in the fixed order gate, pedal, amp, cabinet, with
/// the EQ at its chosen place, so no stage runs twice in one block.
pub proof fn lemma_chain_order(c: ChainSwitches)
    ensures
        rank_increasing(c, chain_stages(c)),
{
    let s0 = Seq::<Stage>::empty();
    let s1 = s0 + stage_if(c.gate_enabled, Stage::Gate);
    lemma_append_stage(c, s0, c.gate_enabled, Stage::Gate, 0);
    let s2 = s1 + stage_if(eq_at(c, EqPosition::PrePedal), Stage::Eq);
    lemma_append_stage(c, s1, eq_at(c, EqPosition::PrePedal), Stage::Eq, 1);
    let s3 = s2 + stage_if(pedal_active(c), Stage::Pedal);
    lemma_append_stage(c, s2, pedal_active(c), Stage::Pedal, 2);
    let s4 = s3 + stage_if(eq_at(c, EqPosition::PreAmp), Stage::Eq);
    lemma_append_stage(c, s3, eq_at(c, EqPosition::PreAmp), Stage::Eq, 3);
    let s5 = s4 + stage_if(amp_active(c), Stage::Amp);
    lemma_append_stage(c, s4, amp_active(c), Stage::Amp, 4);
    let s6 = s5 + stage_if(cab_active(c), Stage::Cab);
    lemma_append_stage(c, s5, cab_active(c), Stage::Cab, 5);
    let s7 = s6 + stage_if(eq_at(c, EqPosition::PostCab), Stage::Eq);
    lemma_append_stage(c, s6, eq_at(c, EqPosition::PostCab), Stage::Eq, 6);
    assert(s1 =~= stage_if(c.gate_enabled, Stage::Gate));
    assert(s7 =~= chain_stages(c));
}

/// In every processed block the noise gate comes first, the pedal capture runs
/// before the amp capture, the amp before the cabinet, and the EQ sits where
/// its position says: before the pedal, between pedal and amp, or after the
/// cabinet; no stage runs twice.
pub proof fn lemma_chain_sequence(c: ChainSwitches)
    ensures
        forall|i: int, j: int|
            0 <= i < j < chain_stages(c).len() ==> {
                let a = #[trigger] chain_stages(c)[i];
                let b = #[trigger] chain_stages(c)[j];
                &&& a != b
                &&& b != Stage::Gate
                &&& a == Stage::Cab ==> b == Stage::Eq && c.eq_pos == EqPosition::PostCab
                &&& a == Stage::Amp ==> b == Stage::Cab || (b == Stage::Eq && c.eq_pos
                    == EqPosition::PostCab)
                &&& b == Stage::Pedal ==> a == Stage::Gate || (a == Stage::Eq && c.eq_pos
                    == EqPosition::PrePedal)
                &&& (a == Stage::Eq && c.eq_pos == EqPosition::PreAmp) ==> b != Stage::Pedal
                &&& (b == Stage::Eq && c.eq_pos == EqPosition::PreAmp) ==> a != Stage::Amp
                    && a != Stage::Cab
                &&& (b == Stage::Eq && c.eq_pos == EqPosition::PrePedal) ==> a == Stage::Gate
            },
{
    lemma_chain_order(c);
    let s = chain_stages(c);
    assert forall|i: int, j: int| 0 <= i < j < s.len() implies stage_rank(c, #[trigger] s[i])
        < stage_rank(c, #[trigger] s[j]) by {}
}

} // verus!
