use chuhshell::modules::{BatteryStatus, DeviceEvent, NetworkInfo};
use chuhshell::niri::KeyboardLayouts;
use chuhshell::notifications::NoticeKind;
use chuhshell::services::{observe, Observed, Reading};

fn layouts(names: &[&str], current_idx: usize) -> KeyboardLayouts {
    KeyboardLayouts {
        names: names.iter().map(|n| n.to_string()).collect(),
        current_idx,
    }
}

fn wifi(status: &str, ssid: Option<&str>) -> NetworkInfo {
    NetworkInfo {
        text: String::new(),
        tooltip: String::new(),
        status: status.to_owned(),
        ssid: ssid.map(str::to_owned),
    }
}

fn battery(plugged: bool, charging: bool) -> BatteryStatus {
    BatteryStatus {
        text: "80%".to_owned(),
        level: "80".to_owned(),
        tooltip: "Battery 80%".to_owned(),
        plugged,
        charging,
        available: true,
    }
}

#[test]
fn layout_switch_shows_the_short_label_after_the_first_list() {
    let mut state = Observed::new();
    let first = observe(&mut state, Reading::Layouts(layouts(&["English (US)", "Russian"], 0)));
    assert!(first.notice.is_none());
    let switched = observe(&mut state, Reading::Layouts(layouts(&["English (US)", "Russian"], 1)));
    let notice = switched.notice.unwrap();
    assert_eq!(notice.kind, NoticeKind::Keyboard);
    assert_eq!(notice.title, "RU");
    assert!(!switched.refresh);
    let same = observe(&mut state, Reading::Layouts(layouts(&["English (US)", "Russian"], 1)));
    assert!(same.notice.is_none());
    let outside = observe(&mut state, Reading::Layouts(layouts(&["English (US)"], 5)));
    assert!(outside.notice.is_none());
    assert_eq!(state.layouts.current_idx, 5);
}

#[test]
fn wifi_connection_changes_are_announced_with_the_network_name() {
    let mut state = Observed::new();
    assert!(observe(&mut state, Reading::Network(wifi("disconnected", None))).notice.is_none());
    let connected = observe(&mut state, Reading::Network(wifi("connected", Some("Home"))));
    let notice = connected.notice.unwrap();
    assert_eq!(notice.kind, NoticeKind::Network);
    assert_eq!(notice.title, "Wi-Fi connected");
    assert_eq!(notice.detail.as_deref(), Some("Home"));
    let moved = observe(&mut state, Reading::Network(wifi("connected", Some("Office"))));
    assert_eq!(moved.notice.unwrap().detail.as_deref(), Some("Office"));
    let dropped = observe(&mut state, Reading::Network(wifi("disconnected", None)));
    let notice = dropped.notice.unwrap();
    assert_eq!(notice.title, "Wi-Fi disconnected");
    assert_eq!(notice.detail, None);
}

#[test]
fn unavailable_wifi_is_silent_and_forgets_the_connection() {
    let mut state = Observed::new();
    observe(&mut state, Reading::Network(wifi("connected", Some("Home"))));
    assert!(observe(&mut state, Reading::Network(wifi("unavailable", None))).notice.is_none());
    assert!(observe(&mut state, Reading::Network(wifi("connected", Some("Home")))).notice.is_none());
}

#[test]
fn power_changes_of_an_available_battery_are_announced() {
    let mut state = Observed::new();
    assert!(observe(&mut state, Reading::Hardware(battery(false, false))).notice.is_none());
    let plugged = observe(&mut state, Reading::Hardware(battery(true, true)));
    let notice = plugged.notice.unwrap();
    assert_eq!(notice.kind, NoticeKind::Power);
    assert_eq!(notice.title, "Power connected");
    assert_eq!(notice.detail.as_deref(), Some("Battery 80%"));
    let full = observe(&mut state, Reading::Hardware(battery(true, false)));
    assert_eq!(full.notice.unwrap().title, "Charging complete");
    let started = observe(&mut state, Reading::Hardware(battery(true, true)));
    assert_eq!(started.notice.unwrap().title, "Charging started");
    let unplugged = observe(&mut state, Reading::Hardware(battery(false, false)));
    assert_eq!(unplugged.notice.unwrap().title, "Power disconnected");
    let mut gone = battery(true, false);
    gone.available = false;
    assert!(observe(&mut state, Reading::Hardware(gone)).notice.is_none());
}

#[test]
fn device_events_show_peripherals_and_refresh_hardware_otherwise() {
    let mut state = Observed::new();
    let usb = observe(
        &mut state,
        Reading::Device(DeviceEvent::Peripheral(true, "USB Keyboard".to_owned())),
    );
    let notice = usb.notice.unwrap();
    assert_eq!(notice.kind, NoticeKind::Peripheral);
    assert_eq!(notice.title, "Device connected");
    assert_eq!(notice.detail.as_deref(), Some("USB Keyboard"));
    assert!(!usb.refresh);
    let removed = observe(
        &mut state,
        Reading::Device(DeviceEvent::Peripheral(false, "Mouse".to_owned())),
    );
    assert_eq!(removed.notice.unwrap().title, "Device disconnected");
    let power = observe(&mut state, Reading::Device(DeviceEvent::Power));
    assert!(power.notice.is_none() && power.refresh);
    let backlight = observe(&mut state, Reading::Device(DeviceEvent::Brightness));
    assert!(backlight.notice.is_none() && backlight.refresh);
}
