//! The status-tray menu: its entries follow the window's visibility and the
//! mute state, and each entry sends one command to the application.

use vstd::prelude::*;

verus! {

/// A command the tray menu sends to the application.
#[derive(Clone, Copy, PartialEq, Eq, Debug, Structural)]
pub enum TrayCommand {
    ToggleWindow,
    ToggleMute,
    Quit,
}

/// One entry of the tray menu.
pub enum TrayEntry {
    /// A clickable item with its label and the command it sends.
    Item { label: &'static str, command: TrayCommand },
    /// A separator line.
    Separator,
}

/// The entry `e` is an item labelled `label` that sends `command`.
pub open spec fn is_item(e: TrayEntry, label: Seq<char>, command: TrayCommand) -> bool {
    e matches TrayEntry::Item { label: l, command: c } && l@ == label && c == command
}

/// Label of the window item: `Hide` while the window shows, `Show` otherwise.
pub open spec fn window_label(visible: bool) -> Seq<char> {
    if visible {
        seq!['H', 'i', 'd', 'e']
    } else {
        seq!['S', 'h', 'o', 'w']
    }
}

/// Label of the mute item: `Unmute` while muted, `Mute` otherwise.
pub open spec fn mute_label(muted: bool) -> Seq<char> {
    if muted {
        seq!['U', 'n', 'm', 'u', 't', 'e']
    } else {
        seq!['M', 'u', 't', 'e']
    }
}

/// The label of the quit item.
pub open spec fn quit_label() -> Seq<char> {
    seq!['Q', 'u', 'i', 't']
}

/// The tray menu: show/hide the window, mute/unmute, a separator, and quit.
pub fn tray_menu(window_visible: bool, muted: bool) -> (m: Vec<TrayEntry>)
    ensures
        m@.len() == 4,
        is_item(m@[0], window_label(window_visible), TrayCommand::ToggleWindow),
        is_item(m@[1], mute_label(muted), TrayCommand::ToggleMute),
        m@[2] is Separator,
        is_item(m@[3], quit_label(), TrayCommand::Quit),
{
    proof {
        reveal_strlit("Hide");
        reveal_strlit("Show");
        reveal_strlit("Unmute");
        reveal_strlit("Mute");
        reveal_strlit("Quit");
        assert("Hide"@ =~= window_label(true));
        assert("Show"@ =~= window_label(false));
        assert("Unmute"@ =~= mute_label(true));
        assert("Mute"@ =~= mute_label(false));
        assert("Quit"@ =~= quit_label());
    }
    let window = if window_visible {
        "Hide"
    } else {
        "Show"
    };
    let mute = if muted {
        "Unmute"
    } else {
        "Mute"
    };
    let mut m: Vec<TrayEntry> = Vec::new();
    m.push(TrayEntry::Item { label: window, command: TrayCommand::ToggleWindow });
    m.push(TrayEntry::Item { label: mute, command: TrayCommand::ToggleMute });
    m.push(TrayEntry::Separator);
    m.push(TrayEntry::Item { label: "Quit", command: TrayCommand::Quit });
    m
}

} // verus!
