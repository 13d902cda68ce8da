//! Decisions behind the widget window, the tray menu and the global hotkey.
use vstd::prelude::*;
use crate::text::text_equals;

verus! {

/// What a toggle of the widget does to its window.
#[derive(Clone, Copy, Debug, PartialEq, Eq)]
pub enum WindowAction {
    Hide,
    ShowAndFocus,
}

/// A toggle (hotkey, tray click, menu entry) hides a visible widget and shows
/// and focuses a hidden one.
pub fn toggle_action(visible: bool) -> (a: WindowAction)
    ensures
        visible ==> a == WindowAction::Hide,
        !visible ==> a == WindowAction::ShowAndFocus,
{
    if visible {
        WindowAction::Hide
    } else {
        WindowAction::ShowAndFocus
    }
}

/// The entries of the tray menu.
#[derive(Clone, Copy, Debug, PartialEq, Eq)]
pub enum MenuAction {
    ToggleWidget,
    OpenDashboard,
    OpenSettings,
    Quit,
    Ignore,
}

/// The entry a tray menu event id names; unknown ids are ignored.
pub open spec fn menu_action_spec(id: Seq<char>) -> MenuAction {
    if id == "toggle_widget"@ {
        MenuAction::ToggleWidget
    } else if id == "open_dashboard"@ {
        MenuAction::OpenDashboard
    } else if id == "open_settings"@ {
        MenuAction::OpenSettings
    } else if id == "quit"@ {
        MenuAction::Quit
    } else {
        MenuAction::Ignore
    }
}

/// Reads a tray menu event id.
pub fn menu_action(id: &str) -> (a: MenuAction)
    ensures
        a == menu_action_spec(id@),
{
    if text_equals(id, "toggle_widget") {
        MenuAction::ToggleWidget
    } else if text_equals(id, "open_dashboard") {
        MenuAction::OpenDashboard
    } else if text_equals(id, "open_settings") {
        MenuAction::OpenSettings
    } else if text_equals(id, "quit") {
        MenuAction::Quit
    } else {
        MenuAction::Ignore
    }
}

} // verus!
