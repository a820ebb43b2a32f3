use chuhshell::notifications::{
    brightness_adjustment, failure_notice, invocation, is_command, layout_label,
    microphone_notice, network_transition, parse_command, power_transition, valid_command,
    volume_notice, wpctl_fields, ConnectionNotice, Invocation, Notice, NoticeKind, PowerNotice,
    SystemCommand,
};

#[test]
fn progress_is_clamped() {
    assert_eq!(
        Notice::transient(NoticeKind::Volume, "volume")
            .with_progress(140)
            .progress,
        Some(100)
    );
}

#[test]
fn persistent_events_have_longer_timeout_than_osd_values() {
    assert!(NoticeKind::Network.timeout() > NoticeKind::Volume.timeout());
    assert!(NoticeKind::Power.timeout() > NoticeKind::Brightness.timeout());
}

#[test]
fn initial_connection_state_does_not_emit_notification() {
    assert_eq!(network_transition(None, true, Some("home")), None);
    assert_eq!(power_transition(None, true, true), None);
}

#[test]
fn network_transition_reports_connect_disconnect_and_network_change() {
    assert_eq!(
        network_transition(Some(&(false, None)), true, Some("Home WiFi")),
        Some(ConnectionNotice::Connected("Home WiFi".to_owned()))
    );
    assert_eq!(
        network_transition(Some(&(true, Some("Home WiFi".to_owned()))), false, None),
        Some(ConnectionNotice::Disconnected)
    );
    assert_eq!(
        network_transition(Some(&(true, Some("Old".to_owned()))), true, Some("New")),
        Some(ConnectionNotice::Connected("New".to_owned()))
    );
}

#[test]
fn power_transition_reports_adapter_and_charging_edges() {
    assert_eq!(
        power_transition(Some((false, false)), true, true),
        Some(PowerNotice::Connected)
    );
    assert_eq!(
        power_transition(Some((true, true)), false, false),
        Some(PowerNotice::Disconnected)
    );
    assert_eq!(
        power_transition(Some((true, false)), true, true),
        Some(PowerNotice::ChargingStarted)
    );
    assert_eq!(
        power_transition(Some((true, true)), true, false),
        Some(PowerNotice::ChargingComplete)
    );
}

#[test]
fn keyboard_layout_label_is_short_and_readable() {
    assert_eq!(layout_label("Russian"), "RU");
    assert_eq!(layout_label("English (US)"), "US");
    assert_eq!(layout_label("German"), "GERMAN");
}

#[test]
fn unknown_commands_are_rejected() {
    assert!(!valid_command("nonsense"));
    assert!(valid_command("launcher"));
    assert!(valid_command("volume-up"));
}

#[test]
fn unchanged_states_and_unnamed_networks() {
    assert_eq!(
        network_transition(Some(&(true, Some("Home".to_owned()))), true, Some("Home")),
        None
    );
    assert_eq!(
        network_transition(Some(&(false, None)), true, None),
        Some(ConnectionNotice::Connected("wi-fi".to_owned()))
    );
    assert_eq!(power_transition(Some((false, true)), false, false), None);
}

#[test]
fn layout_label_uses_last_word_in_uppercase() {
    assert_eq!(layout_label("English (UK)"), "(UK)");
    assert_eq!(layout_label("  "), "  ");
    assert_eq!(layout_label("french  "), "FRENCH");
}

#[test]
fn commands_map_to_actions_and_notices() {
    assert!(is_command("brightness-scroll-down"));
    assert!(!is_command("menu"));
    assert_eq!(parse_command("brightness-key-up"), Some(SystemCommand::Brightness(true, true)));
    assert_eq!(parse_command("volume-down"), Some(SystemCommand::Volume(false)));
    assert_eq!(parse_command("menu"), None);
    assert_eq!(brightness_adjustment(true, false), "10%-");
    assert_eq!(brightness_adjustment(false, true), "5%+");
    let muted = volume_notice(48, true);
    assert_eq!(muted.title, "Volume muted · 48%");
    assert_eq!(muted.progress, Some(0));
    let loud = volume_notice(150, false);
    assert_eq!(loud.title, "Volume · 150%");
    assert_eq!(loud.progress, Some(100));
    let mic = microphone_notice(30, false);
    assert_eq!(mic.title, "Microphone on");
    assert_eq!(mic.detail.as_deref(), Some("30%"));
    let failed = failure_notice("boom");
    assert_eq!(failed.kind, NoticeKind::Peripheral);
    assert_eq!(failed.detail.as_deref(), Some("boom"));
}

#[test]
fn wpctl_output_fields() {
    assert_eq!(wpctl_fields("Volume: 0.48"), (Some("0.48".to_owned()), false));
    assert_eq!(wpctl_fields("Volume: 0.75 [MUTED]"), (Some("0.75".to_owned()), true));
    assert_eq!(wpctl_fields("not"), (None, false));
}

#[test]
fn arguments_select_what_the_program_does() {
    let args = |list: &[&str]| list.iter().map(|s| s.to_string()).collect::<Vec<_>>();
    assert_eq!(invocation(&args(&["--version"])), Invocation::Version);
    assert_eq!(invocation(&args(&["-h"])), Invocation::Help);
    assert_eq!(invocation(&args(&["doctor"])), Invocation::Doctor);
    assert_eq!(invocation(&args(&["launcher", "x"])), Invocation::Invalid);
    assert_eq!(invocation(&args(&["nonsense"])), Invocation::Invalid);
    assert_eq!(
        invocation(&args(&["volume-up"])),
        Invocation::Run(Some("volume-up".to_owned()))
    );
    assert_eq!(invocation(&args(&[])), Invocation::Run(None));
}
