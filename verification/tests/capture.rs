use namplay::capture::{should_normalize, CaptureKind, EngineEvent};

#[test]
fn capture_kind_labels() {
    assert_eq!(CaptureKind::Pedal.label(), "Pedal");
    assert_eq!(CaptureKind::Amp.label(), "Amp");
    assert_eq!(CaptureKind::Pedal.target(), "pedal");
    assert_eq!(CaptureKind::Amp.target(), "amp");
}

#[test]
fn should_normalize_skips_restored_load_once() {
    let mut skip = true;
    assert!(!should_normalize(&mut skip, true));
    assert!(!skip);
    assert!(should_normalize(&mut skip, true));
    assert!(!should_normalize(&mut skip, false));
    let mut skip = true;
    assert!(!should_normalize(&mut skip, false));
    assert!(!skip);
}

#[test]
fn engine_event_carries_kind() {
    let e = EngineEvent::ProfileLoaded(CaptureKind::Amp);
    assert!(matches!(e, EngineEvent::ProfileLoaded(CaptureKind::Amp)));
    let w = EngineEvent::Warning("x".to_string());
    assert!(matches!(w, EngineEvent::Warning(ref m) if m == "x"));
}
