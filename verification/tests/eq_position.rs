use namplay::eq_position::{legacy_eq_setting, EqPosition};

#[test]
fn eq_position_from_index_maps_known_rows() {
    assert_eq!(EqPosition::from_index(0), EqPosition::PrePedal);
    assert_eq!(EqPosition::from_index(1), EqPosition::PreAmp);
    assert_eq!(EqPosition::from_index(2), EqPosition::PostCab);
}

#[test]
fn eq_position_from_index_falls_back_to_pre_amp() {
    assert_eq!(EqPosition::from_index(3), EqPosition::PreAmp);
    assert_eq!(EqPosition::from_index(u32::MAX), EqPosition::PreAmp);
}

#[test]
fn eq_position_from_setting_maps_names() {
    assert_eq!(EqPosition::from_setting("pre-pedal"), EqPosition::PrePedal);
    assert_eq!(EqPosition::from_setting("pre-amp"), EqPosition::PreAmp);
    assert_eq!(EqPosition::from_setting("post-cab"), EqPosition::PostCab);
}

#[test]
fn eq_position_from_setting_falls_back_to_pre_amp() {
    assert_eq!(EqPosition::from_setting(""), EqPosition::PreAmp);
    assert_eq!(EqPosition::from_setting("post-ir"), EqPosition::PreAmp);
    assert_eq!(EqPosition::from_setting("Pre-Pedal"), EqPosition::PreAmp);
    assert_eq!(EqPosition::from_setting("pre-pedal "), EqPosition::PreAmp);
}

#[test]
fn eq_position_index_and_setting_values() {
    assert_eq!(EqPosition::PrePedal.index(), 0);
    assert_eq!(EqPosition::PreAmp.index(), 1);
    assert_eq!(EqPosition::PostCab.index(), 2);
    assert_eq!(EqPosition::PrePedal.setting(), "pre-pedal");
    assert_eq!(EqPosition::PreAmp.setting(), "pre-amp");
    assert_eq!(EqPosition::PostCab.setting(), "post-cab");
}

#[test]
fn eq_position_round_trips() {
    for p in [EqPosition::PrePedal, EqPosition::PreAmp, EqPosition::PostCab] {
        assert_eq!(EqPosition::from_index(p.index()), p);
        assert_eq!(EqPosition::from_setting(p.setting()), p);
    }
}

#[test]
fn eq_position_setting_canonicalizes_unknown_names() {
    assert_eq!(EqPosition::from_setting("bogus").setting(), "pre-amp");
    assert_eq!(EqPosition::from_setting("post-cab").setting(), "post-cab");
}

#[test]
fn legacy_eq_setting_keeps_old_names() {
    assert_eq!(legacy_eq_setting("pre-pedal"), "pre-pedal");
    assert_eq!(legacy_eq_setting("post-ir"), "post-ir");
    assert_eq!(legacy_eq_setting("post-cab"), "pre-amp");
    assert_eq!(legacy_eq_setting(""), "pre-amp");
}
