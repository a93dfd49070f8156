//! The desktop shell's decisions: what a global hotkey or a tray menu item
//! asks the application to do. The shell performs the action.

use vstd::prelude::*;
use crate::text::{chars_eq, chars_of};

verus! {

/// What a press of one of the global hotkeys tells the frontend.
#[derive(Debug, Clone, Copy, PartialEq, Eq, Structural)]
pub enum HotkeyEvent {
    MuteToggle,
    VolumeUp,
    VolumeDown,
}

/// What a tray menu item asks for.
#[derive(Debug, Clone, Copy, PartialEq, Eq, Structural)]
pub enum TrayAction {
    Quit,
    ShowWindow,
    ToggleMute,
    Nothing,
}

/// Whether a hotkey event reports the key going down or coming up.
#[derive(Debug, Clone, Copy, PartialEq, Eq, Structural)]
pub enum KeyState {
    Pressed,
    Released,
}

/// The event that a hotkey event stands for, given the hotkey's id, whether it
/// was pressed or released, and the ids of the mute, volume-up and volume-down
/// hotkeys (the first that matches counts). Only the press acts, so one
/// keystroke gives one event.
pub open spec fn hotkey_event_of(id: u32, state: KeyState, mute: u32, up: u32, down: u32) -> Option<
    HotkeyEvent,
> {
    if state == KeyState::Released {
        None
    } else if id == mute {
        Some(HotkeyEvent::MuteToggle)
    } else if id == up {
        Some(HotkeyEvent::VolumeUp)
    } else if id == down {
        Some(HotkeyEvent::VolumeDown)
    } else {
        None
    }
}

/// The event for a hotkey event: none for a release, and none for a hotkey
/// that is not one of the three.
pub fn hotkey_event(id: u32, state: KeyState, mute: u32, up: u32, down: u32) -> (e: Option<HotkeyEvent>)
    ensures
        e == hotkey_event_of(id, state, mute, up, down),
{
    match state {
        KeyState::Released => None,
        KeyState::Pressed => if id == mute {
            Some(HotkeyEvent::MuteToggle)
        } else if id == up {
            Some(HotkeyEvent::VolumeUp)
        } else if id == down {
            Some(HotkeyEvent::VolumeDown)
        } else {
            None
        },
    }
}

/// A keystroke, press then release, of one of the three hotkeys gives exactly
/// one event, the one for that hotkey; a keystroke of any other hotkey gives none.
pub proof fn law_one_event_per_keystroke(id: u32, mute: u32, up: u32, down: u32)
    ensures
        hotkey_event_of(id, KeyState::Released, mute, up, down) is None,
        id == mute ==> hotkey_event_of(id, KeyState::Pressed, mute, up, down) == Some(
            HotkeyEvent::MuteToggle,
        ),
        id != mute && id == up ==> hotkey_event_of(id, KeyState::Pressed, mute, up, down) == Some(
            HotkeyEvent::VolumeUp,
        ),
        id != mute && id != up && id == down ==> hotkey_event_of(id, KeyState::Pressed, mute, up, down)
            == Some(HotkeyEvent::VolumeDown),
        id != mute && id != up && id != down ==> hotkey_event_of(id, KeyState::Pressed, mute, up, down)
            is None,
{
}

/// The name of the frontend event that a hotkey event is emitted as.
pub open spec fn event_name_of(e: HotkeyEvent) -> Seq<char> {
    match e {
        HotkeyEvent::MuteToggle => "hotkey-mute-toggle"@,
        HotkeyEvent::VolumeUp => "hotkey-volume-up"@,
        HotkeyEvent::VolumeDown => "hotkey-volume-down"@,
    }
}

/// The name under which a hotkey event reaches the frontend.
pub fn event_name(e: HotkeyEvent) -> (n: &'static str)
    ensures
        n@ == event_name_of(e),
{
    match e {
        HotkeyEvent::MuteToggle => "hotkey-mute-toggle",
        HotkeyEvent::VolumeUp => "hotkey-volume-up",
        HotkeyEvent::VolumeDown => "hotkey-volume-down",
    }
}

/// The action of the tray menu item with id `id`.
pub open spec fn tray_action_of(id: Seq<char>) -> TrayAction {
    if id == "quit"@ {
        TrayAction::Quit
    } else if id == "show_window"@ {
        TrayAction::ShowWindow
    } else if id == "toggle_mute"@ {
        TrayAction::ToggleMute
    } else {
        TrayAction::Nothing
    }
}

/// The action that a click on the tray menu item `id` asks for.
pub fn tray_menu_action(id: &str) -> (a: TrayAction)
    ensures
        a == tray_action_of(id@),
{
    let c = chars_of(id);
    if chars_eq(&c, &chars_of("quit")) {
        TrayAction::Quit
    } else if chars_eq(&c, &chars_of("show_window")) {
        TrayAction::ShowWindow
    } else if chars_eq(&c, &chars_of("toggle_mute")) {
        TrayAction::ToggleMute
    } else {
        TrayAction::Nothing
    }
}

/// Whether a click on the tray icon shows the main window: a release of the
/// left button does.
pub fn tray_click_shows_window(left_button: bool, released: bool) -> (show: bool)
    ensures
        show == (left_button && released),
{
    left_button && released
}

} // verus!
