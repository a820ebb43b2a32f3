use chuhshell::config::{module_title, modules, shows_panel, validate, BarModules, Config};

#[test]
fn default_config_uses_automatic_devices_and_a_200_entry_history() {
    let config = Config::default();
    assert!(config.monitors.is_empty() && config.battery.is_none() && config.wifi.is_none());
    assert_eq!(config.notification_history_limit, 200);
}

#[test]
fn device_names_must_be_plain_and_history_limit_is_clamped() {
    let mut config = Config::default();
    config.notification_history_limit = 5;
    assert_eq!(validate(config.clone()).unwrap().notification_history_limit, 10);
    config.notification_history_limit = 5000;
    assert_eq!(validate(config.clone()).unwrap().notification_history_limit, 1000);
    config.notification_history_limit = 300;
    assert_eq!(validate(config.clone()).unwrap().notification_history_limit, 300);
    let error = Err("Device names must be simple directory names".to_owned());
    for bad in ["", ".", "..", "a/b"] {
        let mut c = config.clone();
        c.backlight = Some(bad.to_owned());
        assert_eq!(validate(c).map(|_| ()), error);
    }
    let mut c = config.clone();
    c.wifi = Some("wlan0".to_owned());
    assert!(validate(c).is_ok());
}

#[test]
fn bar_modules_toggle_their_visibility() {
    let mut modules = BarModules::new(&vec!["clock".to_owned(), "wifi".to_owned(), "clock".to_owned()]);
    assert!(!modules.enabled("clock"));
    assert!(modules.enabled("battery"));
    assert!(modules.toggle("clock"));
    assert!(modules.enabled("clock"));
    assert!(!modules.toggle("battery"));
    assert!(!modules.enabled("battery"));
    assert_eq!(modules.disabled_ids(), ["battery", "wifi"]);
}

#[test]
fn panels_go_to_every_monitor_or_the_listed_connectors() {
    assert!(shows_panel(&Vec::new(), Some("eDP-1")));
    assert!(shows_panel(&Vec::new(), None));
    let listed = vec!["DP-2".to_owned()];
    assert!(shows_panel(&listed, Some("DP-2")));
    assert!(!shows_panel(&listed, Some("eDP-1")));
    assert!(!shows_panel(&listed, None));
}

#[test]
fn every_module_has_a_title_and_unknown_ids_have_none() {
    let table = modules();
    assert_eq!(table.len(), 10);
    assert_eq!(table[0], ("workspaces", "Workspaces"));
    assert_eq!(table[9], ("battery", "Battery"));
    for (id, title) in &table {
        assert_eq!(module_title(id), Some(*title));
    }
    assert_eq!(module_title("language"), Some("Keyboard layout"));
    assert_eq!(module_title("temperature"), Some("CPU temperature"));
    assert_eq!(module_title("tray"), None);
}
