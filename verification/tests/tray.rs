use namplay::tray::{tray_menu, TrayCommand, TrayEntry};

fn labels(m: &[TrayEntry]) -> Vec<Option<(&'static str, TrayCommand)>> {
    m.iter()
        .map(|e| match e {
            TrayEntry::Item { label, command } => Some((*label, *command)),
            TrayEntry::Separator => None,
        })
        .collect()
}

#[test]
fn tray_menu_follows_state() {
    let m = tray_menu(true, false);
    assert_eq!(
        labels(&m),
        vec![
            Some(("Hide", TrayCommand::ToggleWindow)),
            Some(("Mute", TrayCommand::ToggleMute)),
            None,
            Some(("Quit", TrayCommand::Quit)),
        ]
    );
    let m = tray_menu(false, true);
    assert_eq!(
        labels(&m),
        vec![
            Some(("Show", TrayCommand::ToggleWindow)),
            Some(("Unmute", TrayCommand::ToggleMute)),
            None,
            Some(("Quit", TrayCommand::Quit)),
        ]
    );
}
