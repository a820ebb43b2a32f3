use chuhshell::modules::{
    battery_status, brightness_level, format_estimate, network_info, parse_device_event,
    parse_udev_usb_event, pick_backlight, pick_battery, pick_sensor, remaining_charge, signal_icon,
    split_terse, BatteryReadings, DeviceEvent, SensorChoice,
};

#[test]
fn splits_terse_output_on_unescaped_colons() {
    assert_eq!(split_terse("yes:My Network:74"), ["yes", "My Network", "74"]);
    assert_eq!(split_terse(r"yes:Net\:work:50"), ["yes", "Net:work", "50"]);
    assert_eq!(split_terse("no::0"), ["no", "", "0"]);
}

#[test]
fn maps_signal_strength_to_icon() {
    assert_eq!(signal_icon(0), "󰤟");
    assert_eq!(signal_icon(100), "󰤨");
}

#[test]
fn discharging_estimate_uses_current_charge() {
    assert_eq!(remaining_charge(5_000, Some(10_000), false), Some(5_000));
}

#[test]
fn charging_estimate_uses_charge_until_full() {
    assert_eq!(remaining_charge(3_000, Some(10_000), true), Some(7_000));
}

#[test]
fn charging_estimate_without_full_capacity_is_unknown() {
    assert_eq!(remaining_charge(3_000, None, true), None);
}

#[test]
fn formats_estimate_with_zero_padded_minutes() {
    assert_eq!(format_estimate(7_200, 1_000).as_deref(), Some("7h 12m"));
    assert_eq!(format_estimate(3_600, 1_000).as_deref(), Some("3h 36m"));
    assert_eq!(format_estimate(90, 60).as_deref(), Some("1h 30m"));
    assert_eq!(format_estimate(59, 60).as_deref(), Some("0h 59m"));
    assert_eq!(format_estimate(1_000, 0), None);
}

#[test]
fn estimate_does_not_overflow_on_large_values() {
    let minutes = u128::from(u64::MAX) * 60;
    let expected = format!("{}h {:02}m", minutes / 60, minutes % 60);
    assert_eq!(
        format_estimate(u64::MAX, 1).as_deref(),
        Some(expected.as_str())
    );
}

#[test]
fn parses_usb_add_and_remove_events_only_for_usb_devices() {
    let add = vec![
        ("ACTION".to_owned(), "add".to_owned()),
        ("SUBSYSTEM".to_owned(), "usb".to_owned()),
        ("DEVTYPE".to_owned(), "usb_device".to_owned()),
        ("ID_MODEL".to_owned(), "USB_Keyboard".to_owned()),
    ];
    assert_eq!(
        parse_udev_usb_event(&add),
        Some((true, "USB Keyboard".to_owned()))
    );

    let remove = vec![
        ("ACTION".to_owned(), "remove".to_owned()),
        ("SUBSYSTEM".to_owned(), "usb".to_owned()),
        ("DEVTYPE".to_owned(), "usb_device".to_owned()),
        (
            "ID_MODEL_FROM_DATABASE".to_owned(),
            "USB Keyboard".to_owned(),
        ),
    ];
    assert_eq!(
        parse_udev_usb_event(&remove),
        Some((false, "USB Keyboard".to_owned()))
    );
}

#[test]
fn ignores_usb_interface_and_non_usb_events() {
    let interface = vec![
        ("ACTION".to_owned(), "add".to_owned()),
        ("SUBSYSTEM".to_owned(), "usb".to_owned()),
        ("DEVTYPE".to_owned(), "usb_interface".to_owned()),
    ];
    assert_eq!(parse_udev_usb_event(&interface), None);
    let input = vec![
        ("ACTION".to_owned(), "add".to_owned()),
        ("SUBSYSTEM".to_owned(), "input".to_owned()),
        ("DEVTYPE".to_owned(), "usb_device".to_owned()),
    ];
    assert_eq!(parse_udev_usb_event(&input), None);
}

#[test]
fn device_monitor_distinguishes_brightness_and_power_events() {
    let brightness = vec![
        ("SUBSYSTEM".to_owned(), "backlight".to_owned()),
        ("ACTION".to_owned(), "change".to_owned()),
    ];
    assert!(matches!(
        parse_device_event(&brightness),
        Some(DeviceEvent::Brightness)
    ));
    let power = vec![("SUBSYSTEM".to_owned(), "power_supply".to_owned())];
    assert!(matches!(
        parse_device_event(&power),
        Some(DeviceEvent::Power)
    ));
}

#[test]
fn usb_name_falls_back_to_product_then_generic_name() {
    let product = vec![
        ("ACTION".to_owned(), "add".to_owned()),
        ("SUBSYSTEM".to_owned(), "usb".to_owned()),
        ("DEVTYPE".to_owned(), "usb_device".to_owned()),
        ("PRODUCT".to_owned(), "46d_c52b_1211".to_owned()),
    ];
    assert_eq!(
        parse_udev_usb_event(&product),
        Some((true, "46d c52b 1211".to_owned()))
    );
    let bare = vec![
        ("ACTION".to_owned(), "remove".to_owned()),
        ("SUBSYSTEM".to_owned(), "usb".to_owned()),
        ("DEVTYPE".to_owned(), "usb_device".to_owned()),
    ];
    assert_eq!(
        parse_udev_usb_event(&bare),
        Some((false, "USB device".to_owned()))
    );
    let bind = vec![
        ("ACTION".to_owned(), "bind".to_owned()),
        ("SUBSYSTEM".to_owned(), "usb".to_owned()),
        ("DEVTYPE".to_owned(), "usb_device".to_owned()),
    ];
    assert_eq!(parse_udev_usb_event(&bind), None);
    assert!(matches!(
        parse_device_event(&product),
        Some(DeviceEvent::Peripheral(true, _))
    ));
}

fn readings(capacity: &str, status: &str) -> BatteryReadings {
    BatteryReadings {
        capacity: Some(format!("{capacity}\n")),
        status: Some(format!("{status}\n")),
        energy_now: Some("30000000\n".to_owned()),
        energy_full: Some("50000000\n".to_owned()),
        power_now: Some("10000000\n".to_owned()),
        charge_now: None,
        charge_full: None,
        current_now: None,
        adapters_online: vec![Some("0\n".to_owned())],
    }
}

#[test]
fn battery_status_reports_level_icon_and_estimate() {
    let status = battery_status(Some(&readings("60", "Discharging")));
    assert_eq!(status.text, "󰂁 60%");
    assert_eq!(status.level, "normal");
    assert_eq!(status.tooltip, "60% • 3h 00m");
    assert!(!status.plugged && !status.charging && status.available);

    let charging = battery_status(Some(&readings("15", "Charging")));
    assert_eq!(charging.text, "󰂄 15%");
    assert_eq!(charging.level, "warning");
    assert_eq!(charging.tooltip, "15% • 2h 00m");
    assert!(charging.plugged && charging.charging);

    let critical = battery_status(Some(&readings("5", "Full")));
    assert_eq!(critical.level, "critical");
}

#[test]
fn battery_without_readable_capacity_is_unavailable() {
    let mut bad = readings("150", "Discharging");
    let status = battery_status(Some(&bad));
    assert_eq!(status.text, "󰂎 --");
    assert_eq!(status.tooltip, "Battery data unavailable");
    assert!(!status.available);
    bad.capacity = None;
    assert!(!battery_status(Some(&bad)).available);
    let none = battery_status(None);
    assert!(none.text.is_empty() && !none.available);
}

#[test]
fn battery_estimate_falls_back_to_lowercase_status() {
    let mut r = readings("80", "Not charging");
    r.power_now = Some("0".to_owned());
    assert_eq!(battery_status(Some(&r)).tooltip, "80% • not charging");
    r.adapters_online = vec![Some("1".to_owned())];
    let plugged = battery_status(Some(&r));
    assert_eq!(plugged.text, "󰚥 80%");
    assert!(plugged.plugged && !plugged.charging);
}

#[test]
fn network_info_follows_nmcli_output() {
    let status = "wlan0:wifi:connected\nlo:loopback:connected (externally)\n";
    let list = "no:Other:40\nyes:Home\\:Net:67\n";
    let info = network_info(
        Some(status),
        None,
        None,
        Some(list),
        Some("192.168.1.5/24"),
    );
    assert_eq!(info.text, "󰤥");
    assert_eq!(info.tooltip, "Home:Net\n67% • 192.168.1.5/24");
    assert_eq!(info.status, "connected");
    assert_eq!(info.ssid.as_deref(), Some("Home:Net"));

    let disconnected = network_info(
        Some("wlan0:wifi:disconnected\n"),
        None,
        Some("disabled"),
        None,
        None,
    );
    assert_eq!(disconnected.status, "disabled");
    assert_eq!(disconnected.tooltip, "Wi-Fi: disabled");
    assert_eq!(disconnected.text, "󰖪");

    let other = network_info(Some(status), Some("wlan1"), None, Some(list), None);
    assert_eq!(other.status, "unavailable");
    assert_eq!(network_info(None, None, None, None, None).status, "unavailable");
}

#[test]
fn brightness_is_a_capped_percentage_with_icon() {
    let max = Some("255\n".to_owned());
    assert_eq!(
        brightness_level(&max, &Some("128".to_owned())),
        Some((50, "󰃝"))
    );
    assert_eq!(
        brightness_level(&max, &Some("20".to_owned())),
        Some((7, "󰃞"))
    );
    assert_eq!(
        brightness_level(&Some("0".to_owned()), &Some("5".to_owned())),
        Some((100, "󰃟"))
    );
    assert_eq!(brightness_level(&max, &None), None);
    assert_eq!(brightness_level(&Some("x".to_owned()), &max), None);
}

fn entry(name: &str, file: Option<&str>) -> (String, Option<String>) {
    (name.to_owned(), file.map(|f| f.to_owned()))
}

#[test]
fn battery_is_the_configured_one_or_the_first_own_battery_by_name() {
    let batteries = vec![
        entry("hidpp_battery_0", Some("Device\n")),
        entry("BAT1", Some("System\n")),
        entry("BAT0", None),
    ];
    assert_eq!(pick_battery(None, &batteries), Some("BAT0".to_owned()));
    assert_eq!(pick_battery(Some("BAT9"), &batteries), Some("BAT9".to_owned()));
    assert_eq!(pick_battery(None, &vec![entry("mouse", Some("Device"))]), None);
}

#[test]
fn backlight_prefers_raw_then_platform_then_name() {
    let devices = vec![
        entry("acpi_video0", Some("firmware\n")),
        entry("intel_backlight", Some("raw\n")),
        entry("amdgpu_bl0", Some("raw\n")),
    ];
    assert_eq!(pick_backlight(None, &devices), Some("amdgpu_bl0".to_owned()));
    let devices = vec![entry("b", None), entry("a", Some("platform"))];
    assert_eq!(pick_backlight(None, &devices), Some("a".to_owned()));
    assert_eq!(pick_backlight(None, &Vec::new()), None);
    assert_eq!(pick_backlight(Some("x"), &Vec::new()), Some("x".to_owned()));
}

#[test]
fn sensor_prefers_package_zone_then_cpu_monitor_then_any_zone() {
    let zones = vec![
        entry("cooling_device0", Some("Processor")),
        entry("thermal_zone0", Some("acpitz\n")),
        entry("thermal_zone1", Some("x86_pkg_temp\n")),
    ];
    let monitors = vec![(Some("coretemp\n".to_owned()), true)];
    assert_eq!(pick_sensor(&zones, &monitors), SensorChoice::Zone(2));
    let zones = vec![entry("thermal_zone0", Some("acpitz"))];
    assert_eq!(pick_sensor(&zones, &monitors), SensorChoice::Monitor(0));
    let without_input = vec![(Some("k10temp".to_owned()), false), (Some("nvme".to_owned()), true)];
    assert_eq!(pick_sensor(&zones, &without_input), SensorChoice::Zone(0));
    assert_eq!(pick_sensor(&Vec::new(), &Vec::new()), SensorChoice::Nothing);
}

#[test]
fn escaped_fields_split_back_and_count_unescaped_colons() {
    let fields = ["My:Net", r"back\slash", "", "74"];
    let line = fields
        .iter()
        .map(|f| f.replace('\\', r"\\").replace(':', r"\:"))
        .collect::<Vec<_>>()
        .join(":");
    assert_eq!(line, r"My\:Net:back\\slash::74");
    assert_eq!(split_terse(&line), fields);
    assert_eq!(split_terse(r"a\\:b").len(), 2);
    assert_eq!(split_terse("").len(), 1);
}
