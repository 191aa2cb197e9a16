use namplay::gate::GateState;

#[test]
fn gate_starts_closed_and_opens_above_threshold() {
    let mut g = GateState::new(3);
    assert!(!g.is_open());
    g.step(false, true);
    assert!(!g.is_open());
    g.step(true, false);
    assert!(g.is_open());
}

#[test]
fn gate_holds_before_closing() {
    let mut g = GateState::new(3);
    g.step(true, false);
    for _ in 0..3 {
        g.step(false, true);
        assert!(g.is_open());
    }
    g.step(false, true);
    assert!(!g.is_open());
}

#[test]
fn gate_between_thresholds_keeps_state() {
    let mut g = GateState::new(0);
    g.step(true, false);
    for _ in 0..10 {
        g.step(false, false);
        assert!(g.is_open());
    }
    let mut c = GateState::new(5);
    for _ in 0..10 {
        c.step(false, false);
        assert!(!c.is_open());
    }
}

#[test]
fn gate_hold_restarts_when_signal_returns() {
    let mut g = GateState::new(2);
    g.step(true, false);
    g.step(false, true);
    g.step(true, false);
    g.step(false, true);
    g.step(false, true);
    assert!(g.is_open());
    g.step(false, true);
    assert!(!g.is_open());
}
