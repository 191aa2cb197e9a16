use namplay::capture::{load_follow_up, LoadFollowUp};
use namplay::ports::{device_links, DeviceLinks};

fn owned(v: &[&str]) -> Vec<String> {
    v.iter().map(|s| s.to_string()).collect()
}

fn connected(r: DeviceLinks) -> Vec<String> {
    match r {
        DeviceLinks::Connect(v) => v,
        DeviceLinks::Cleared => panic!("expected Connect, got Cleared"),
        DeviceLinks::NotFound => panic!("expected Connect, got NotFound"),
    }
}

#[test]
fn device_links_pairs_in_channel_order() {
    let ports = owned(&[
        "system:playback_10",
        "other:playback_1",
        "system:playback_2",
        "system:playback_1",
    ]);
    assert_eq!(
        connected(device_links(&ports, Some("system"), 2)),
        owned(&["system:playback_1", "system:playback_2"])
    );
    assert_eq!(
        connected(device_links(&ports, Some("system"), 1)),
        owned(&["system:playback_1"])
    );
    assert_eq!(
        connected(device_links(&ports, Some("system"), 5)),
        owned(&["system:playback_1", "system:playback_2", "system:playback_10"])
    );
}

#[test]
fn device_links_cleared_and_not_found() {
    let ports = owned(&["system:capture_1"]);
    assert!(matches!(device_links(&ports, None, 2), DeviceLinks::Cleared));
    assert!(matches!(device_links(&ports, Some("usb"), 2), DeviceLinks::NotFound));
    assert!(matches!(device_links(&ports, Some("sys"), 1), DeviceLinks::NotFound));
    assert!(matches!(device_links(&Vec::new(), Some("system"), 1), DeviceLinks::NotFound));
}

#[test]
fn load_follow_up_cases() {
    assert_eq!(load_follow_up(false, false), LoadFollowUp::Cleared);
    assert_eq!(load_follow_up(false, true), LoadFollowUp::Cleared);
    assert_eq!(load_follow_up(true, true), LoadFollowUp::Installed);
    assert_eq!(load_follow_up(true, false), LoadFollowUp::Failed);
    assert!(LoadFollowUp::Cleared.empties_slot() && !LoadFollowUp::Cleared.warns());
    assert!(!LoadFollowUp::Installed.empties_slot() && !LoadFollowUp::Installed.warns());
    assert!(LoadFollowUp::Failed.empties_slot() && LoadFollowUp::Failed.warns());
}
