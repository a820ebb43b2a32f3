use chuhshell::network::{
    action_message, bus_error_message, network_list_height, Action, ap_security, check_request, choose_adapter, connect_plan, find_saved_profile, hidden_network,
    list_notice, matches_search, profile_security, row_detail, row_icon, section, snapshot,
    strength_text, AccessPointReading, ConnectPlan, DeviceReading, Network, NetworkReadings,
    ProfileReading, Security,
};

fn device(path: &str, interface: &str, device_type: u32, state: u32) -> DeviceReading {
    DeviceReading {
        path: path.to_owned(),
        interface: interface.to_owned(),
        device_type,
        state,
    }
}

fn ap(path: &str, ssid: &str, rsn: u32, strength: u8) -> AccessPointReading {
    AccessPointReading {
        path: path.to_owned(),
        ssid: ssid.as_bytes().to_vec(),
        wpa_flags: 0,
        rsn_flags: rsn,
        flags: if rsn != 0 { 1 } else { 0 },
        strength,
        frequency: 2412,
    }
}

fn profile(path: &str, ssid: &str, key: Option<&str>) -> ProfileReading {
    ProfileReading {
        path: path.to_owned(),
        wireless: true,
        mode: "infrastructure".to_owned(),
        ssid: ssid.as_bytes().to_vec(),
        hidden: false,
        interface_name: String::new(),
        key_mgmt: key.map(str::to_owned),
    }
}

#[test]
fn security_labels_and_capabilities() {
    assert_eq!(Security::Sae.label(), "WPA3 Personal");
    assert!(Security::Personal.password() && Security::Sae.password());
    assert!(!Security::Open.password());
    assert!(!Security::Enterprise.supported() && !Security::Legacy.supported());
    assert!(Security::Enhanced.supported());
    assert_eq!(ap_security(0, 0x100, 1), Security::Personal);
    assert_eq!(ap_security(0x200, 0x100, 1), Security::Enterprise);
    assert_eq!(ap_security(0, 0x400, 1), Security::Sae);
    assert_eq!(ap_security(0, 0x800, 0), Security::Enhanced);
    assert_eq!(ap_security(0, 0, 1), Security::Legacy);
    assert_eq!(ap_security(0, 0, 0), Security::Open);
    assert_eq!(profile_security(None), Security::Open);
    assert_eq!(profile_security(Some("sae")), Security::Sae);
    assert_eq!(profile_security(Some("ieee8021x")), Security::Enterprise);
    assert_eq!(profile_security(Some("none")), Security::Legacy);
}

#[test]
fn adapters_are_sorted_and_the_preferred_or_active_one_is_shown() {
    let devices = vec![
        device("/d/3", "wlp3", 2, 30),
        device("/d/1", "eth0", 1, 100),
        device("/d/2", "wlan0", 2, 100),
    ];
    let choice = choose_adapter(&devices, None);
    let names: Vec<_> = choice.adapters.iter().map(|a| a.name.as_str()).collect();
    assert_eq!(names, ["wlan0", "wlp3"]);
    assert_eq!(choice.chosen, Some(0));
    assert!(choice.connected);
    let preferred = choose_adapter(&devices, Some("wlp3"));
    assert_eq!(preferred.chosen, Some(1));
    assert!(!preferred.connected);
    assert_eq!(choose_adapter(&vec![device("/d/1", "eth0", 1, 100)], None).chosen, None);
}

#[test]
fn snapshot_merges_access_points_and_attaches_profiles() {
    let readings = NetworkReadings {
        enabled: true,
        hardware_enabled: true,
        devices: vec![device("/d/2", "wlan0", 2, 100)],
        active_access_point: "/ap/2".to_owned(),
        active_profile: "/p/1".to_owned(),
        addresses: vec!["10.0.0.2".to_owned(), "10.0.0.3".to_owned()],
        access_points: vec![
            ap("/ap/1", "Home", 0x100, 40),
            ap("/ap/2", "Home", 0x100, 30),
            ap("/ap/3", "Cafe", 0, 80),
            ap("/ap/4", "", 0, 99),
        ],
        profiles: vec![
            profile("/p/2", "Office", Some("wpa-psk")),
            profile("/p/1", "Home", Some("sae")),
        ],
    };
    let s = snapshot(None, &readings);
    assert!(s.enabled && s.hardware_enabled);
    assert_eq!(s.device.as_ref().map(|d| d.name.as_str()), Some("wlan0"));
    assert_eq!(s.address, "10.0.0.2, 10.0.0.3");
    let names: Vec<_> = s.networks.iter().map(|n| n.name.as_str()).collect();
    assert_eq!(names, ["Home", "Cafe", "Office"]);
    let home = &s.networks[0];
    assert!(home.active);
    assert_eq!(home.access_point, "/ap/2");
    assert_eq!(home.profile.as_deref(), Some("/p/1"));
    assert_eq!(home.strength, Some(30));
    let office = &s.networks[2];
    assert_eq!(office.strength, None);
    assert_eq!(office.access_point, "/");
    assert!(!office.active);
    assert_eq!(list_notice(&s), None);
    assert_eq!(row_icon(home), "󰤨");
    assert_eq!(row_detail(home, &s.address), "10.0.0.2, 10.0.0.3");
    assert_eq!(row_detail(office, ""), "Saved · WPA / WPA2 Personal");
    assert_eq!(section(office), "SAVED NETWORKS");
    assert_eq!(strength_text(office), "—");
    assert_eq!(strength_text(&s.networks[1]), "80%");
    assert!(matches_search(&s.networks[1], "AF"));
    assert!(!matches_search(&s.networks[1], "home"));
}

#[test]
fn disabled_radio_lists_only_saved_networks() {
    let readings = NetworkReadings {
        enabled: false,
        hardware_enabled: true,
        devices: vec![device("/d/2", "wlan0", 2, 30)],
        active_access_point: "/".to_owned(),
        active_profile: String::new(),
        addresses: Vec::new(),
        access_points: vec![ap("/ap/1", "Home", 0x100, 40)],
        profiles: vec![profile("/p/1", "Home", Some("wpa-psk"))],
    };
    let s = snapshot(None, &readings);
    assert_eq!(s.networks.len(), 1);
    assert_eq!(s.networks[0].strength, None);
    assert_eq!(list_notice(&s), Some("Wi-Fi is off"));
    let none = snapshot(None, &NetworkReadings { devices: Vec::new(), ..readings });
    assert!(none.device.is_none() && none.networks.is_empty());
    assert_eq!(list_notice(&none), Some("No Wi-Fi adapter found"));
}

fn network(ssid: &str, security: Security, saved: bool) -> Network {
    Network {
        ssid: ssid.as_bytes().to_vec(),
        name: ssid.to_owned(),
        access_point: "/ap/1".to_owned(),
        profile: if saved { Some("/p/1".to_owned()) } else { None },
        security,
        strength: Some(50),
        frequency: 5180,
        active: false,
        hidden: false,
    }
}

#[test]
fn connection_requests_are_checked() {
    let long = "x".repeat(33);
    assert_eq!(
        check_request(&network(&long, Security::Open, false), ""),
        Err("Network names must contain 1–32 bytes".to_owned())
    );
    assert!(check_request(&network("", Security::Open, false), "").is_err());
    assert_eq!(check_request(&network("Home", Security::Open, false), ""), Ok(()));
    let bad = Err(
        "Enter a valid Wi-Fi password (WPA/WPA2: 8–63 characters or a 64-digit hexadecimal key)."
            .to_owned(),
    );
    assert_eq!(check_request(&network("Home", Security::Personal, false), "short"), bad);
    assert_eq!(check_request(&network("Home", Security::Personal, false), "long enough"), Ok(()));
    assert_eq!(check_request(&network("Home", Security::Personal, true), ""), Ok(()));
    assert_eq!(check_request(&network("Home", Security::Personal, false), &"a".repeat(64)), Ok(()));
    assert_eq!(check_request(&network("Home", Security::Personal, false), &"g".repeat(64)), bad);
    assert_eq!(check_request(&network("Home", Security::Sae, false), "x"), Ok(()));
    assert_eq!(check_request(&network("Home", Security::Sae, false), ""), bad);
}

#[test]
fn connection_plans() {
    assert!(matches!(
        connect_plan(&network("Home", Security::Personal, true), "new password"),
        ConnectPlan::Activate { update_password: true }
    ));
    assert!(matches!(
        connect_plan(&network("Home", Security::Open, true), ""),
        ConnectPlan::Activate { update_password: false }
    ));
    assert!(matches!(
        connect_plan(&network("Home", Security::Enhanced, false), ""),
        ConnectPlan::Create { key_mgmt: Some("owe"), store_password: false }
    ));
    assert!(matches!(
        connect_plan(&network("Home", Security::Enterprise, false), ""),
        ConnectPlan::Refuse(_)
    ));
    let profiles = vec![
        ProfileReading { mode: "ap".to_owned(), ..profile("/p/0", "Home", Some("wpa-psk")) },
        ProfileReading { interface_name: "wlan1".to_owned(), ..profile("/p/1", "Home", Some("sae")) },
        profile("/p/2", "Home", Some("sae")),
    ];
    assert_eq!(
        find_saved_profile(&profiles, &network("Home", Security::Personal, false), "wlan0"),
        Some(2)
    );
    assert_eq!(
        find_saved_profile(&profiles, &network("Home", Security::Open, false), "wlan0"),
        None
    );
}

#[test]
fn hidden_network_requests() {
    let n = hidden_network("Secret", 1);
    assert_eq!(n.ssid, b"Secret".to_vec());
    assert_eq!(n.security, Security::Sae);
    assert!(n.hidden && n.profile.is_none() && n.strength.is_none());
    assert_eq!(hidden_network("x", 2).security, Security::Open);
    assert_eq!(hidden_network("x", 0).security, Security::Personal);
}

#[test]
fn finished_requests_have_messages_and_bus_errors_lose_their_prefix() {
    assert_eq!(action_message(&Action::Radio(true)), Some("Wi-Fi enabled"));
    assert_eq!(action_message(&Action::Radio(false)), Some("Wi-Fi disabled"));
    assert_eq!(action_message(&Action::Scan("/dev/1".to_owned())), Some("Scan requested"));
    assert_eq!(action_message(&Action::Disconnect("/dev/1".to_owned())), Some("Disconnected"));
    assert_eq!(action_message(&Action::Forget("/p/1".to_owned())), Some("Saved network removed"));
    let connect = Action::Connect {
        device: "/dev/1".to_owned(),
        network: network("Home", Security::Open, false),
        password: String::new(),
    };
    assert_eq!(action_message(&connect), None);
    assert_eq!(
        bus_error_message("GDBus.Error:org.freedesktop.NetworkManager.Failed: no"),
        "org.freedesktop.NetworkManager.Failed: no"
    );
    assert_eq!(bus_error_message("Timeout was reached"), "Timeout was reached");
    assert_eq!(network_list_height(None), 360);
    assert_eq!(network_list_height(Some(1080)), 360);
    assert_eq!(network_list_height(Some(500)), 240);
    assert_eq!(network_list_height(Some(300)), 120);
}
