use namplay::tuner::{note_name, TunerAction, TunerLoop, DETECTION_SIZE, SAMPLE_BUFFER_MAX};

#[test]
fn note_name_values() {
    assert_eq!(note_name(69), Some("A4".to_string()));
    assert_eq!(note_name(60), Some("C4".to_string()));
    assert_eq!(note_name(37), Some("C#2".to_string()));
    assert_eq!(note_name(40), Some("E2".to_string()));
    assert_eq!(note_name(21), Some("A0".to_string()));
    assert_eq!(note_name(108), Some("C8".to_string()));
    assert_eq!(note_name(107), Some("B7".to_string()));
}

#[test]
fn note_name_out_of_range() {
    assert_eq!(note_name(20), None);
    assert_eq!(note_name(109), None);
    assert_eq!(note_name(-1), None);
    assert_eq!(note_name(i32::MIN), None);
}

#[test]
fn tuner_loop_reports_silence_once() {
    let mut t = TunerLoop::new();
    assert_eq!(t.step(false, false), TunerAction::Idle);
    assert_eq!(t.step(false, true), TunerAction::Detect);
    assert_eq!(t.step(false, true), TunerAction::Detect);
    assert_eq!(t.step(false, false), TunerAction::ReportSilence);
    assert_eq!(t.step(false, false), TunerAction::Idle);
}

#[test]
fn tuner_loop_stops_on_shutdown() {
    let mut t = TunerLoop::new();
    assert_eq!(t.step(false, true), TunerAction::Detect);
    assert_eq!(t.step(true, true), TunerAction::Stop);
    assert_eq!(t.step(true, false), TunerAction::Stop);
}

#[test]
fn tuner_buffer_sizes() {
    assert_eq!(SAMPLE_BUFFER_MAX, DETECTION_SIZE * 4);
}
