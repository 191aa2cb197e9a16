use namplay::chain::{plan_block, BlockOutput, ChainSwitches, Stage};
use namplay::eq_position::EqPosition;

fn all_on(pos: EqPosition) -> ChainSwitches {
    ChainSwitches {
        muted: false,
        tuner_enabled: false,
        gate_enabled: true,
        eq_enabled: true,
        eq_pos: pos,
        pedal_bypass: false,
        pedal_loaded: true,
        amp_bypass: false,
        amp_loaded: true,
        cab_bypass: false,
        cab_loaded: true,
    }
}

fn stages(c: ChainSwitches) -> Vec<Stage> {
    match plan_block(c).output {
        BlockOutput::Processed(v) => v,
        _ => panic!("expected processing"),
    }
}

#[test]
fn chain_places_eq_at_its_position() {
    assert_eq!(stages(all_on(EqPosition::PrePedal)), vec![Stage::Gate, Stage::Eq, Stage::Pedal, Stage::Amp, Stage::Cab]);
    assert_eq!(stages(all_on(EqPosition::PreAmp)), vec![Stage::Gate, Stage::Pedal, Stage::Eq, Stage::Amp, Stage::Cab]);
    assert_eq!(stages(all_on(EqPosition::PostCab)), vec![Stage::Gate, Stage::Pedal, Stage::Amp, Stage::Cab, Stage::Eq]);
}

#[test]
fn chain_skips_bypassed_and_unloaded_stages() {
    let mut c = all_on(EqPosition::PreAmp);
    c.gate_enabled = false;
    c.eq_enabled = false;
    c.pedal_bypass = true;
    c.cab_loaded = false;
    assert_eq!(stages(c), vec![Stage::Amp]);
    c.amp_loaded = false;
    assert!(stages(c).is_empty());
}

#[test]
fn chain_updates_follow_switches() {
    let p = plan_block(all_on(EqPosition::PostCab));
    assert!(!p.feed_tuner && p.update_gate && p.update_eq);
    let mut c = all_on(EqPosition::PostCab);
    c.gate_enabled = false;
    let p = plan_block(c);
    assert!(!p.update_gate && p.update_eq);
}

#[test]
fn chain_muted_outputs_silence() {
    let mut c = all_on(EqPosition::PreAmp);
    c.muted = true;
    let p = plan_block(c);
    assert!(matches!(p.output, BlockOutput::Silence));
    assert!(!p.feed_tuner && !p.update_gate && !p.update_eq);
}

#[test]
fn chain_tuner_passes_input_through() {
    let mut c = all_on(EqPosition::PreAmp);
    c.tuner_enabled = true;
    let p = plan_block(c);
    assert!(p.feed_tuner);
    assert!(matches!(p.output, BlockOutput::Dry));
    c.muted = true;
    let p = plan_block(c);
    assert!(p.feed_tuner);
    assert!(matches!(p.output, BlockOutput::Silence));
}
