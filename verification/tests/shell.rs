use biquad_studio::device::{collect_devices, friendly_name, AudioDeviceInfo};
use biquad_studio::shell::{
    event_name, hotkey_event, tray_click_shows_window, tray_menu_action, HotkeyEvent, KeyState, TrayAction,
};

fn device(id: &str, name: &str) -> AudioDeviceInfo {
    AudioDeviceInfo { id: id.to_string(), name: name.to_string(), is_default: false, sample_rate: 48000, channels: 2 }
}

#[test]
fn devices_skip_unreadable_and_mark_default() {
    let found = vec![
        Some(device("{a}", "Speakers")),
        None,
        Some(AudioDeviceInfo { is_default: true, ..device("{b}", "Headset") }),
        Some(device("{c}", "HDMI")),
    ];
    let r = collect_devices(&found, "{c}");
    let got: Vec<(&str, &str, bool)> = r.iter().map(|d| (d.id.as_str(), d.name.as_str(), d.is_default)).collect();
    assert_eq!(got, vec![("{a}", "Speakers", false), ("{b}", "Headset", false), ("{c}", "HDMI", true)]);
    assert_eq!(r[2].sample_rate, 48000);
    assert_eq!(r[2].channels, 2);
}

#[test]
fn devices_without_default_are_all_plain() {
    let found = vec![Some(device("{a}", "Speakers")), Some(device("{b}", "Headset"))];
    let r = collect_devices(&found, "");
    assert_eq!(r.len(), 2);
    assert!(r.iter().all(|d| !d.is_default));
    assert!(collect_devices(&vec![None, None], "{a}").is_empty());
}

#[test]
fn friendly_name_falls_back() {
    assert_eq!(friendly_name(Some("Speakers (Realtek)".to_string())), "Speakers (Realtek)");
    assert_eq!(friendly_name(None), "Unknown Device");
}

#[test]
fn hotkeys_map_to_events() {
    assert_eq!(hotkey_event(7, KeyState::Pressed, 7, 8, 9), Some(HotkeyEvent::MuteToggle));
    assert_eq!(hotkey_event(8, KeyState::Pressed, 7, 8, 9), Some(HotkeyEvent::VolumeUp));
    assert_eq!(hotkey_event(9, KeyState::Pressed, 7, 8, 9), Some(HotkeyEvent::VolumeDown));
    assert_eq!(hotkey_event(10, KeyState::Pressed, 7, 8, 9), None);
    assert_eq!(hotkey_event(5, KeyState::Pressed, 5, 5, 5), Some(HotkeyEvent::MuteToggle));
    assert_eq!(event_name(HotkeyEvent::MuteToggle), "hotkey-mute-toggle");
    assert_eq!(event_name(HotkeyEvent::VolumeUp), "hotkey-volume-up");
    assert_eq!(event_name(HotkeyEvent::VolumeDown), "hotkey-volume-down");
}

#[test]
fn one_event_per_keystroke() {
    for id in [7u32, 8, 9, 10] {
        let events: Vec<HotkeyEvent> =
            [KeyState::Pressed, KeyState::Released].iter().filter_map(|&s| hotkey_event(id, s, 7, 8, 9)).collect();
        assert_eq!(events.len(), if id == 10 { 0 } else { 1 });
    }
    assert_eq!(hotkey_event(7, KeyState::Released, 7, 8, 9), None);
    assert_eq!(hotkey_event(8, KeyState::Released, 7, 8, 9), None);
}

#[test]
fn tray_menu_items() {
    assert_eq!(tray_menu_action("quit"), TrayAction::Quit);
    assert_eq!(tray_menu_action("show_window"), TrayAction::ShowWindow);
    assert_eq!(tray_menu_action("toggle_mute"), TrayAction::ToggleMute);
    assert_eq!(tray_menu_action("Quit"), TrayAction::Nothing);
    assert_eq!(tray_menu_action(""), TrayAction::Nothing);
    assert!(tray_click_shows_window(true, true));
    assert!(!tray_click_shows_window(true, false));
    assert!(!tray_click_shows_window(false, true));
}

use biquad_studio::stream::{next_render_init, render_block, render_init_start, RenderInit};

#[test]
fn render_init_falls_back_to_shared_mode() {
    let s = render_init_start();
    assert_eq!(s, RenderInit::LowLatencyClient);
    assert_eq!(next_render_init(s, true), RenderInit::EnginePeriod);
    assert_eq!(next_render_init(s, false), RenderInit::SharedMode);
    assert_eq!(next_render_init(RenderInit::EnginePeriod, true), RenderInit::SharedStream);
    assert_eq!(next_render_init(RenderInit::EnginePeriod, false), RenderInit::SharedMode);
    assert_eq!(next_render_init(RenderInit::SharedStream, true), RenderInit::Ready);
    assert_eq!(next_render_init(RenderInit::SharedStream, false), RenderInit::SharedMode);
    assert_eq!(next_render_init(RenderInit::SharedMode, true), RenderInit::Ready);
    assert_eq!(next_render_init(RenderInit::SharedMode, false), RenderInit::Failed);
    assert_eq!(next_render_init(RenderInit::Ready, false), RenderInit::Ready);
    assert_eq!(next_render_init(RenderInit::Failed, true), RenderInit::Failed);
}

#[test]
fn render_init_ends_within_four_calls() {
    for outcomes in 0u32..16 {
        let mut s = render_init_start();
        let mut calls = 0;
        while s != RenderInit::Ready && s != RenderInit::Failed {
            s = next_render_init(s, outcomes & (1 << calls) != 0);
            calls += 1;
        }
        assert!(calls <= 4);
    }
}

#[test]
fn render_block_sizes() {
    let b = render_block(480, 120, 8, 2, 65534);
    assert_eq!(b.frames, 360);
    assert_eq!(b.bytes, 2880);
    assert_eq!(b.samples, 720);
    assert!(b.float_samples);
    assert!(render_block(480, 0, 4, 2, 3).float_samples);
    assert!(!render_block(480, 0, 4, 2, 1).float_samples);
    assert_eq!(render_block(480, 480, 8, 2, 3).frames, 0);
}
