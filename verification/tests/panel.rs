use chuhshell::modules::BatteryStatus;
use chuhshell::niri::{KeyboardLayouts, Workspace};
use chuhshell::panel::{
    audio_label, audio_tooltip, battery_display, brightness_label, brightness_tooltip,
    language_label, temperature_label, workspace_buttons,
};

#[test]
fn audio_label_shows_icon_and_percent_or_dashes() {
    assert_eq!(audio_label(Some((42, false))), "󰕾 42%");
    assert_eq!(audio_label(Some((0, true))), "󰝟 0%");
    assert_eq!(audio_label(None), "󰝟 --");
    assert_eq!(audio_tooltip(Some((42, false))), "Audio volume");
    assert_eq!(audio_tooltip(Some((42, true))), "Audio muted");
    assert_eq!(audio_tooltip(None), "Audio unavailable");
}

#[test]
fn brightness_label_uses_the_level_icon() {
    assert_eq!(brightness_label(Some((75, "󰃠"))), "󰃠 75%");
    assert_eq!(brightness_label(None), "--");
    assert_eq!(brightness_tooltip(true), "Screen brightness — scroll to adjust");
    assert_eq!(brightness_tooltip(false), "Screen brightness unavailable");
}

#[test]
fn temperature_label_truncates_to_whole_degrees() {
    assert_eq!(temperature_label(Some(54_999)), "󰔏 54°C");
    assert_eq!(temperature_label(Some(-1_500)), "󰔏 -1°C");
    assert_eq!(temperature_label(Some(-500)), "󰔏 0°C");
    assert_eq!(temperature_label(Some(i64::MIN)), "󰔏 -9223372036854775°C");
    assert_eq!(temperature_label(None), "󰔏 --°C");
}

#[test]
fn language_label_shows_the_current_layout() {
    let layouts = KeyboardLayouts {
        names: vec!["English (US)".to_owned(), "German".to_owned()],
        current_idx: 1,
    };
    assert_eq!(language_label(&layouts), "󰌌 GERMAN");
    let outside = KeyboardLayouts { names: Vec::new(), current_idx: 0 };
    assert_eq!(language_label(&outside), "󰌌 --");
}

#[test]
fn battery_module_hides_without_text_and_marks_low_levels() {
    let mut battery = BatteryStatus::empty();
    assert_eq!(battery_display(&battery), (false, None));
    battery.text = "󰁻 15%".to_owned();
    battery.level = "warning".to_owned();
    assert_eq!(battery_display(&battery), (true, Some("warning")));
    battery.level = "critical".to_owned();
    assert_eq!(battery_display(&battery), (true, Some("critical")));
    battery.level = "normal".to_owned();
    assert_eq!(battery_display(&battery), (true, None));
}

fn workspace(idx: i64, name: Option<&str>, active: bool, window: Option<u64>) -> Workspace {
    Workspace {
        idx,
        name: name.map(str::to_owned),
        is_urgent: false,
        is_active: active,
        is_focused: active,
        active_window_id: window,
    }
}

#[test]
fn workspace_buttons_follow_the_index_with_names_or_dots() {
    let workspaces = vec![
        workspace(3, None, false, Some(7)),
        workspace(1, Some("web"), false, None),
        workspace(2, None, true, Some(9)),
        workspace(-1, None, false, None),
    ];
    let buttons = workspace_buttons(&workspaces);
    let labels: Vec<&str> = buttons.iter().map(|b| b.label.as_str()).collect();
    assert_eq!(labels, ["○", "web", "●", "○"]);
    let indices: Vec<i64> = buttons.iter().map(|b| b.idx).collect();
    assert_eq!(indices, [-1, 1, 2, 3]);
    assert_eq!(buttons[0].tooltip, "Workspace -1");
    assert_eq!(buttons[3].tooltip, "Workspace 3");
    assert!(buttons[1].empty && !buttons[2].empty);
    assert!(buttons[2].active && buttons[2].focused && !buttons[3].active);
}
