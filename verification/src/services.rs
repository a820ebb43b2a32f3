//! The shell's reactions to its observers: which reading calls for a
//! system notice, and what the shell remembers between readings.
//!
//! The observers (compositor stream, Wi-Fi and hardware pollers, the udev
//! stream) run outside; each reading is handed to [`observe`], which
//! updates the remembered state and says what to show and whether the
//! hardware readings should be refreshed at once.

use vstd::prelude::*;
use vstd::string::*;
use crate::modules::{BatteryStatus, DeviceEvent, NetworkInfo};
use crate::niri::KeyboardLayouts;
use crate::notifications::{
    layout_label_spec, network_transition_spec, notice_view, power_transition_spec, Notice,
    NoticeKind, PowerNotice,
};
use crate::text::opt_view;

verus! {

/// The parts of a notice, if there is one.
pub open spec fn notice_parts(n: Option<Notice>) -> Option<
    (NoticeKind, Seq<char>, Option<Seq<char>>, Option<u8>),
> {
    match n {
        Some(n) => Some(notice_view(n)),
        None => None,
    }
}

/// The notice for new keyboard layouts: once a list of names is known, a
/// change of the current index to a listed layout shows its short label.
pub open spec fn layout_notice_spec(old: KeyboardLayouts, new: KeyboardLayouts) -> Option<
    (NoticeKind, Seq<char>, Option<Seq<char>>, Option<u8>),
> {
    if old.names@.len() > 0 && old.current_idx != new.current_idx && new.current_idx
        < new.names@.len() {
        Some(
            (
                NoticeKind::Keyboard,
                layout_label_spec(new.names@[new.current_idx as int]@),
                None,
                None,
            ),
        )
    } else {
        None
    }
}

/// The connection state a Wi-Fi reading is compared with: none before the
/// first reading or while the module was unavailable.
pub open spec fn previous_connection(old: Option<NetworkInfo>) -> Option<(bool, Option<Seq<char>>)> {
    match old {
        Some(v) => if v.status@ == "unavailable"@ {
            None
        } else {
            Some((v.status@ == "connected"@, opt_view(v.ssid)))
        },
        None => None,
    }
}

/// The notice for a Wi-Fi reading: none while the module is unavailable;
/// else the connection or disconnection that
/// [`network_transition_spec`] finds, the network's name as detail.
pub open spec fn network_notice_spec(old: Option<NetworkInfo>, info: NetworkInfo) -> Option<
    (NoticeKind, Seq<char>, Option<Seq<char>>, Option<u8>),
> {
    if info.status@ == "unavailable"@ {
        None
    } else {
        match network_transition_spec(
            previous_connection(old),
            info.status@ == "connected"@,
            opt_view(info.ssid),
        ) {
            Some(Some(name)) => Some((NoticeKind::Network, "Wi-Fi connected"@, Some(name), None)),
            Some(None) => Some((NoticeKind::Network, "Wi-Fi disconnected"@, None, None)),
            None => None,
        }
    }
}

/// The title of a power notice.
pub open spec fn power_title(event: PowerNotice) -> Seq<char> {
    match event {
        PowerNotice::Connected => "Power connected"@,
        PowerNotice::Disconnected => "Power disconnected"@,
        PowerNotice::ChargingStarted => "Charging started"@,
        PowerNotice::ChargingComplete => "Charging complete"@,
    }
}

/// The notice for a battery reading: between two readings of an available
/// battery, the change of supply that [`power_transition_spec`] finds,
/// with the battery's tooltip as detail.
pub open spec fn power_notice_spec(old: BatteryStatus, battery: BatteryStatus) -> Option<
    (NoticeKind, Seq<char>, Option<Seq<char>>, Option<u8>),
> {
    if old.available && battery.available {
        match power_transition_spec(
            Some((old.plugged, old.charging)),
            battery.plugged,
            battery.charging,
        ) {
            Some(event) => Some((NoticeKind::Power, power_title(event), Some(battery.tooltip@), None)),
            None => None,
        }
    } else {
        None
    }
}

/// The notice for a device event: a USB device connected or removed, with
/// its name; the other events only call for fresh readings.
pub open spec fn device_notice_spec(event: DeviceEvent) -> Option<
    (NoticeKind, Seq<char>, Option<Seq<char>>, Option<u8>),
> {
    match event {
        DeviceEvent::Peripheral(connected, name) => Some(
            (
                NoticeKind::Peripheral,
                if connected {
                    "Device connected"@
                } else {
                    "Device disconnected"@
                },
                Some(name@),
                None,
            ),
        ),
        _ => None,
    }
}

/// The notice for new keyboard layouts (see [`layout_notice_spec`]).
pub fn layout_notice(old: &KeyboardLayouts, new: &KeyboardLayouts) -> (r: Option<Notice>)
    ensures
        notice_parts(r) == layout_notice_spec(*old, *new),
{
    if old.names.len() > 0 && old.current_idx != new.current_idx && new.current_idx
        < new.names.len() {
        let label = crate::notifications::layout_label(new.names[new.current_idx].as_str());
        Some(Notice::transient(NoticeKind::Keyboard, label.as_str()))
    } else {
        None
    }
}

fn connection_before(old: Option<&NetworkInfo>) -> (r: Option<(bool, Option<String>)>)
    ensures
        match r {
            Some(p) => previous_connection(
                match old {
                    Some(v) => Some(*v),
                    None => None,
                },
            ) == Some((p.0, opt_view(p.1))),
            None => previous_connection(
                match old {
                    Some(v) => Some(*v),
                    None => None,
                },
            ) is None,
        },
{
    proof {
        reveal_strlit("unavailable");
        reveal_strlit("connected");
    }
    match old {
        Some(v) => if crate::text::text_eq(v.status.as_str(), "unavailable") {
            None
        } else {
            let ssid = match &v.ssid {
                Some(s) => Some(crate::text::owned(s.as_str())),
                None => None,
            };
            Some((crate::text::text_eq(v.status.as_str(), "connected"), ssid))
        },
        None => None,
    }
}

/// The notice for a Wi-Fi reading (see [`network_notice_spec`]).
pub fn network_notice(old: Option<&NetworkInfo>, info: &NetworkInfo) -> (r: Option<Notice>)
    ensures
        notice_parts(r) == network_notice_spec(
            match old {
                Some(v) => Some(*v),
                None => None,
            },
            *info,
        ),
{
    proof {
        reveal_strlit("unavailable");
        reveal_strlit("connected");
    }
    if crate::text::text_eq(info.status.as_str(), "unavailable") {
        return None;
    }
    let previous = connection_before(old);
    let ssid = match &info.ssid {
        Some(s) => Some(s.as_str()),
        None => None,
    };
    let transition = crate::notifications::network_transition(
        previous.as_ref(),
        crate::text::text_eq(info.status.as_str(), "connected"),
        ssid,
    );
    match transition {
        Some(crate::notifications::ConnectionNotice::Connected(name)) => Some(
            Notice::transient(NoticeKind::Network, "Wi-Fi connected").with_detail(name.as_str()),
        ),
        Some(crate::notifications::ConnectionNotice::Disconnected) => Some(
            Notice::transient(NoticeKind::Network, "Wi-Fi disconnected"),
        ),
        None => None,
    }
}

/// The notice for a battery reading (see [`power_notice_spec`]).
pub fn power_notice(old: &BatteryStatus, battery: &BatteryStatus) -> (r: Option<Notice>)
    ensures
        notice_parts(r) == power_notice_spec(*old, *battery),
{
    if !(old.available && battery.available) {
        return None;
    }
    let event = crate::notifications::power_transition(
        Some((old.plugged, old.charging)),
        battery.plugged,
        battery.charging,
    );
    match event {
        Some(e) => {
            let title = match e {
                PowerNotice::Connected => "Power connected",
                PowerNotice::Disconnected => "Power disconnected",
                PowerNotice::ChargingStarted => "Charging started",
                PowerNotice::ChargingComplete => "Charging complete",
            };
            Some(Notice::transient(NoticeKind::Power, title).with_detail(battery.tooltip.as_str()))
        },
        None => None,
    }
}

/// The notice for a device event (see [`device_notice_spec`]).
pub fn device_notice(event: &DeviceEvent) -> (r: Option<Notice>)
    ensures
        notice_parts(r) == device_notice_spec(*event),
{
    match event {
        DeviceEvent::Peripheral(connected, name) => Some(
            Notice::transient(
                NoticeKind::Peripheral,
                if *connected {
                    "Device connected"
                } else {
                    "Device disconnected"
                },
            ).with_detail(name.as_str()),
        ),
        _ => None,
    }
}

/// What the shell remembers between readings for its notices.
pub struct Observed {
    pub layouts: KeyboardLayouts,
    pub network: Option<NetworkInfo>,
    pub battery: BatteryStatus,
}

impl Observed {
    /// The state before any reading: no layouts, no Wi-Fi reading, and
    /// the status of a machine without a battery.
    pub fn new() -> (r: Observed)
        ensures
            r.layouts.names@.len() == 0,
            r.layouts.current_idx == 0,
            r.network is None,
            r.battery.text@.len() == 0 && r.battery.level@.len() == 0 && r.battery.tooltip@.len()
                == 0,
            !r.battery.plugged && !r.battery.charging && !r.battery.available,
    {
        Observed {
            layouts: KeyboardLayouts { names: Vec::new(), current_idx: 0 },
            network: None,
            battery: BatteryStatus::empty(),
        }
    }
}

/// A reading of one of the shell's observers.
pub enum Reading {
    /// The compositor's keyboard layouts after an event.
    Layouts(KeyboardLayouts),
    /// The Wi-Fi module's state.
    Network(NetworkInfo),
    /// The battery's state.
    Hardware(BatteryStatus),
    /// An event of the udev stream.
    Device(DeviceEvent),
}

/// What the shell does after a reading: the notice to show, and whether
/// to read the battery and backlight again at once.
pub struct Reaction {
    pub notice: Option<Notice>,
    pub refresh: bool,
}

/// Takes in a reading: the notice it calls for against what was
/// remembered, and the state remembered after it.
pub fn observe(state: &mut Observed, reading: Reading) -> (r: Reaction)
    ensures
        match reading {
            Reading::Layouts(l) => {
                &&& notice_parts(r.notice) == layout_notice_spec(old(state).layouts, l)
                &&& !r.refresh
                &&& *final(state) == Observed { layouts: l, ..*old(state) }
            },
            Reading::Network(info) => {
                &&& notice_parts(r.notice) == network_notice_spec(old(state).network, info)
                &&& !r.refresh
                &&& *final(state) == Observed { network: Some(info), ..*old(state) }
            },
            Reading::Hardware(b) => {
                &&& notice_parts(r.notice) == power_notice_spec(old(state).battery, b)
                &&& !r.refresh
                &&& *final(state) == Observed { battery: b, ..*old(state) }
            },
            Reading::Device(e) => {
                &&& notice_parts(r.notice) == device_notice_spec(e)
                &&& r.refresh == !(e is Peripheral)
                &&& *final(state) == *old(state)
            },
        },
{
    match reading {
        Reading::Layouts(l) => {
            let notice = layout_notice(&state.layouts, &l);
            state.layouts = l;
            Reaction { notice, refresh: false }
        },
        Reading::Network(info) => {
            let notice = network_notice(state.network.as_ref(), &info);
            state.network = Some(info);
            Reaction { notice, refresh: false }
        },
        Reading::Hardware(b) => {
            let notice = power_notice(&state.battery, &b);
            state.battery = b;
            Reaction { notice, refresh: false }
        },
        Reading::Device(e) => {
            let notice = device_notice(&e);
            let refresh = match e {
                DeviceEvent::Peripheral(_, _) => false,
                _ => true,
            };
            Reaction { notice, refresh }
        },
    }
}

/// Nothing is shown for the first reading of each observer: the first
/// layouts, the first Wi-Fi state and the first battery state are taken in
/// silently.
pub proof fn law_first_readings_are_silent(
    start: Observed,
    layouts: KeyboardLayouts,
    info: NetworkInfo,
    battery: BatteryStatus,
)
    requires
        start.layouts.names@.len() == 0,
        start.network is None,
        !start.battery.available,
    ensures
        layout_notice_spec(start.layouts, layouts) is None,
        network_notice_spec(start.network, info) is None,
        power_notice_spec(start.battery, battery) is None,
{
}

/// A reading that repeats what the shell remembers calls for no notice.
pub proof fn law_repeated_readings_are_silent(
    layouts: KeyboardLayouts,
    info: NetworkInfo,
    battery: BatteryStatus,
)
    ensures
        layout_notice_spec(layouts, layouts) is None,
        network_notice_spec(Some(info), info) is None,
        power_notice_spec(battery, battery) is None,
{
}

} // verus!
