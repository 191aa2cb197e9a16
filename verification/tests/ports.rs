use namplay::ports::{audio_devices, matching_ports, port_channel_index};

fn owned(v: &[&str]) -> Vec<String> {
    v.iter().map(|s| s.to_string()).collect()
}

#[test]
fn port_channel_index_reads_trailing_digits() {
    assert_eq!(port_channel_index("system:playback_10"), 10);
    assert_eq!(port_channel_index("system:playback_2"), 2);
    assert_eq!(port_channel_index("alsa:capture_FL"), 0);
    assert_eq!(port_channel_index(""), 0);
    assert_eq!(port_channel_index("007"), 7);
    assert_eq!(port_channel_index("a1b23"), 23);
}

#[test]
fn port_channel_index_overflow_gives_zero() {
    assert_eq!(port_channel_index("out_4294967295"), 4294967295);
    assert_eq!(port_channel_index("out_4294967296"), 0);
    assert_eq!(port_channel_index("out_99999999999999999999"), 0);
}

#[test]
fn port_channel_index_ignores_non_ascii_digits() {
    assert_eq!(port_channel_index("out_\u{0663}"), 0);
    assert_eq!(port_channel_index("out_\u{0663}5"), 5);
}

#[test]
fn matching_ports_orders_by_channel_number() {
    let ports = owned(&[
        "system:playback_10",
        "system:playback_2",
        "other:playback_1",
        "system:playback_1",
        "systemx:playback_3",
    ]);
    let r = matching_ports(&ports, "system");
    assert_eq!(r, owned(&["system:playback_1", "system:playback_2", "system:playback_10"]));
}

#[test]
fn matching_ports_is_stable_for_equal_channels() {
    let ports = owned(&["dev:b", "dev:a", "dev:x_1", "dev:c"]);
    let r = matching_ports(&ports, "dev");
    assert_eq!(r, owned(&["dev:b", "dev:a", "dev:c", "dev:x_1"]));
}

#[test]
fn matching_ports_without_matches_is_empty() {
    let ports = owned(&["a:1", "b:2"]);
    assert!(matching_ports(&ports, "c").is_empty());
    assert!(matching_ports(&Vec::new(), "a").is_empty());
    assert!(matching_ports(&owned(&["ab:1"]), "a").is_empty());
}

#[test]
fn audio_devices_sorts_and_dedups_node_names() {
    let ports = owned(&[
        "system:capture_2",
        "namplay:out_1",
        "alsa:capture_1",
        "system:capture_1",
        "noport",
        "usb:in:1",
    ]);
    let r = audio_devices(&ports, "namplay");
    assert_eq!(r, owned(&["alsa", "system", "usb"]));
}

#[test]
fn audio_devices_of_nothing_is_empty() {
    assert!(audio_devices(&Vec::new(), "namplay").is_empty());
    assert!(audio_devices(&owned(&["namplay:a", "namplay:b"]), "namplay").is_empty());
}

#[test]
fn audio_devices_keeps_empty_node_name() {
    let r = audio_devices(&owned(&[":x", "b:y"]), "namplay");
    assert_eq!(r, owned(&["", "b"]));
}
