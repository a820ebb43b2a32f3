//! System notices (the on-screen display): what is shown for volume,
//! brightness, keyboard layout, network, power and peripheral events, and
//! which of them a change of state calls for.

use vstd::prelude::*;
use vstd::string::*;
use crate::text::{is_white_space, lowercase, opt_str, opt_view, trailing_space, uppercase};

verus! {

/// The kind of a system notice.
#[derive(Clone, Copy, Debug, PartialEq, Eq, Structural)]
pub enum NoticeKind {
    Volume,
    Microphone,
    Brightness,
    Keyboard,
    Network,
    Power,
    Peripheral,
}

/// The icon of a notice kind.
pub open spec fn kind_icon(k: NoticeKind) -> Seq<char> {
    match k {
        NoticeKind::Volume => "󰕾"@,
        NoticeKind::Microphone => "󰍬"@,
        NoticeKind::Brightness => "󰃟"@,
        NoticeKind::Keyboard => "󰌌"@,
        NoticeKind::Network => "󰖩"@,
        NoticeKind::Power => "󰂄"@,
        NoticeKind::Peripheral => "󰂱"@,
    }
}

/// How long a notice of a kind stays, in milliseconds: four seconds for
/// events (network, power, peripherals), 1.3 seconds for values.
pub open spec fn kind_timeout(k: NoticeKind) -> u64 {
    match k {
        NoticeKind::Network | NoticeKind::Power | NoticeKind::Peripheral => 4000,
        _ => 1300,
    }
}

impl NoticeKind {
    /// The icon shown with a notice of this kind.
    pub fn icon(self) -> (r: &'static str)
        ensures
            r@ == kind_icon(self),
    {
        match self {
            NoticeKind::Volume => "󰕾",
            NoticeKind::Microphone => "󰍬",
            NoticeKind::Brightness => "󰃟",
            NoticeKind::Keyboard => "󰌌",
            NoticeKind::Network => "󰖩",
            NoticeKind::Power => "󰂄",
            NoticeKind::Peripheral => "󰂱",
        }
    }

    /// How long a notice of this kind stays, in milliseconds.
    pub fn timeout(self) -> (r: u64)
        ensures
            r == kind_timeout(self),
    {
        match self {
            NoticeKind::Network | NoticeKind::Power | NoticeKind::Peripheral => 4000,
            _ => 1300,
        }
    }
}

/// A system notice: a title, an optional detail line and an optional
/// progress bar in percent.
#[derive(Clone, Debug, PartialEq, Eq)]
pub struct Notice {
    pub kind: NoticeKind,
    pub title: String,
    pub detail: Option<String>,
    pub progress: Option<u8>,
}

/// The parts of a notice: kind, title, detail and progress.
pub open spec fn notice_view(n: Notice) -> (NoticeKind, Seq<char>, Option<Seq<char>>, Option<u8>) {
    (n.kind, n.title@, opt_view(n.detail), n.progress)
}

impl Notice {
    /// A notice with a title only.
    pub fn transient(kind: NoticeKind, title: &str) -> (r: Notice)
        ensures
            notice_view(r) == (kind, title@, None::<Seq<char>>, None::<u8>),
    {
        Notice { kind, title: crate::text::owned(title), detail: None, progress: None }
    }

    /// The notice with a detail line.
    pub fn with_detail(self, detail: &str) -> (r: Notice)
        ensures
            notice_view(r) == (self.kind, self.title@, Some(detail@), self.progress),
    {
        let mut n = self;
        n.detail = Some(crate::text::owned(detail));
        n
    }

    /// The notice with a progress bar, capped at 100 percent.
    pub fn with_progress(self, progress: u8) -> (r: Notice)
        ensures
            notice_view(r) == (
                self.kind,
                self.title@,
                opt_view(self.detail),
                Some(if progress > 100 {
                    100u8
                } else {
                    progress
                }),
            ),
    {
        let mut n = self;
        n.progress = Some(
            if progress > 100 {
                100
            } else {
                progress
            },
        );
        n
    }
}

/// A change of the Wi-Fi connection worth a notice.
#[derive(Clone, Debug, PartialEq, Eq)]
pub enum ConnectionNotice {
    Connected(String),
    Disconnected,
}

/// A change of the power supply worth a notice.
#[derive(Clone, Copy, Debug, PartialEq, Eq, Structural)]
pub enum PowerNotice {
    Connected,
    Disconnected,
    ChargingStarted,
    ChargingComplete,
}

/// The notice for a change of connection: nothing on the first reading;
/// a connection (named, or "wi-fi"), a disconnection, or a move to another
/// network.
pub open spec fn network_transition_spec(
    previous: Option<(bool, Option<Seq<char>>)>,
    connected: bool,
    ssid: Option<Seq<char>>,
) -> Option<Option<Seq<char>>> {
    match previous {
        None => None,
        Some((was_connected, was_ssid)) => {
            let name = match ssid {
                Some(s) => s,
                None => "wi-fi"@,
            };
            if !was_connected && connected {
                Some(Some(name))
            } else if was_connected && !connected {
                Some(None)
            } else if connected && was_ssid != ssid {
                Some(Some(name))
            } else {
                None
            }
        },
    }
}

/// The notice for a change of connection (see
/// [`network_transition_spec`]; `Some(None)` stands for a disconnection).
pub fn network_transition(
    previous: Option<&(bool, Option<String>)>,
    connected: bool,
    ssid: Option<&str>,
) -> (r: Option<ConnectionNotice>)
    ensures
        network_transition_spec(
            match previous {
                Some(p) => Some((p.0, opt_view(p.1))),
                None => None,
            },
            connected,
            opt_str(ssid),
        ) == match r {
            Some(ConnectionNotice::Connected(name)) => Some(Some(name@)),
            Some(ConnectionNotice::Disconnected) => Some(None),
            None => None,
        },
{
    let (was_connected, was_ssid) = match previous {
        Some(p) => (p.0, &p.1),
        None => return None,
    };
    let name = match ssid {
        Some(s) => s,
        None => "wi-fi",
    };
    if !was_connected && connected {
        return Some(ConnectionNotice::Connected(crate::text::owned(name)));
    }
    if was_connected && !connected {
        return Some(ConnectionNotice::Disconnected);
    }
    let same = match (was_ssid, ssid) {
        (Some(a), Some(b)) => crate::text::text_eq(a.as_str(), b),
        (None, None) => true,
        _ => false,
    };
    if connected && !same {
        return Some(ConnectionNotice::Connected(crate::text::owned(name)));
    }
    None
}

/// The notice for a change of power supply: nothing on the first reading;
/// the adapter plugged in or out, else (while plugged) charging starting or
/// completing.
pub open spec fn power_transition_spec(previous: Option<(bool, bool)>, plugged: bool, charging: bool) -> Option<
    PowerNotice,
> {
    match previous {
        None => None,
        Some((was_plugged, was_charging)) => if was_plugged != plugged {
            Some(
                if plugged {
                    PowerNotice::Connected
                } else {
                    PowerNotice::Disconnected
                },
            )
        } else if plugged && was_charging != charging {
            Some(
                if charging {
                    PowerNotice::ChargingStarted
                } else {
                    PowerNotice::ChargingComplete
                },
            )
        } else {
            None
        },
    }
}

/// Executable [`power_transition_spec`].
pub fn power_transition(previous: Option<(bool, bool)>, plugged: bool, charging: bool) -> (r: Option<
    PowerNotice,
>)
    ensures
        r == power_transition_spec(previous, plugged, charging),
{
    let (was_plugged, was_charging) = match previous {
        Some(p) => p,
        None => return None,
    };
    if was_plugged != plugged {
        return Some(
            if plugged {
                PowerNotice::Connected
            } else {
                PowerNotice::Disconnected
            },
        );
    }
    if plugged && was_charging != charging {
        return Some(
            if charging {
                PowerNotice::ChargingStarted
            } else {
                PowerNotice::ChargingComplete
            },
        );
    }
    None
}

/// Where the word ending at `i` starts: just after the nearest white space
/// before `i`, or at 0.
pub open spec fn word_start(s: Seq<char>, i: int) -> int
    decreases i,
{
    if i <= 0 {
        0
    } else if is_white_space(s[i - 1]) {
        i
    } else {
        word_start(s, i - 1)
    }
}

/// The last white-space separated word of a text, if it has one.
pub open spec fn last_word(s: Seq<char>) -> Option<Seq<char>> {
    let end = s.len() - trailing_space(s);
    if end <= 0 {
        None
    } else {
        Some(s.subrange(word_start(s, end), end))
    }
}

/// The short label of a keyboard layout: "RU" and "US" for the Russian and
/// US English layouts, else the last word of the name (the name itself
/// when it has none) in uppercase.
pub open spec fn layout_label_spec(name: Seq<char>) -> Seq<char> {
    if lowercase(name) == "russian"@ {
        "RU"@
    } else if lowercase(name) == "english (us)"@ {
        "US"@
    } else {
        uppercase(
            match last_word(name) {
                Some(w) => w,
                None => name,
            },
        )
    }
}

fn last_word_of(s: &str) -> (r: Option<String>)
    ensures
        opt_view(r) == last_word(s@),
{
    let v = crate::text::chars_of(s);
    let mut end: usize = v.len();
    while end > 0 && crate::text::white_space(v[end - 1])
        invariant
            v@ == s@,
            end <= v@.len(),
            forall|k: int| end <= k < v@.len() ==> is_white_space(#[trigger] v@[k]),
        decreases end,
    {
        end -= 1;
    }
    proof {
        crate::text::lemma_trailing_space(v@, v@.len() - end);
    }
    if end == 0 {
        return None;
    }
    let mut start: usize = end;
    while start > 0 && !crate::text::white_space(v[start - 1])
        invariant
            v@ == s@,
            start <= end,
            end <= v@.len(),
            word_start(v@, end as int) == word_start(v@, start as int),
        decreases start,
    {
        start -= 1;
    }
    Some(crate::text::string_of(&v.as_slice()[start..end]))
}

/// The short label of a keyboard layout (see [`layout_label_spec`]).
pub fn layout_label(name: &str) -> (r: String)
    ensures
        r@ == layout_label_spec(name@),
{
    let lower = crate::text::to_lowercase(name);
    proof {
        reveal_strlit("russian");
        reveal_strlit("english (us)");
    }
    if crate::text::text_eq(lower.as_str(), "russian") {
        return crate::text::owned("RU");
    }
    if crate::text::text_eq(lower.as_str(), "english (us)") {
        return crate::text::owned("US");
    }
    match last_word_of(name) {
        Some(w) => crate::text::to_uppercase(w.as_str()),
        None => crate::text::to_uppercase(name),
    }
}

/// Whether a text names a media or brightness command.
pub open spec fn is_command_spec(c: Seq<char>) -> bool {
    ||| c == "volume-up"@
    ||| c == "volume-down"@
    ||| c == "volume-mute"@
    ||| c == "microphone-mute"@
    ||| c == "brightness-up"@
    ||| c == "brightness-down"@
    ||| c == "brightness-key-up"@
    ||| c == "brightness-key-down"@
    ||| c == "brightness-scroll-up"@
    ||| c == "brightness-scroll-down"@
}

/// Executable [`is_command_spec`].
pub fn is_command(command: &str) -> (r: bool)
    ensures
        r == is_command_spec(command@),
{
    crate::text::text_eq(command, "volume-up") || crate::text::text_eq(command, "volume-down")
        || crate::text::text_eq(command, "volume-mute") || crate::text::text_eq(
        command,
        "microphone-mute",
    ) || crate::text::text_eq(command, "brightness-up") || crate::text::text_eq(
        command,
        "brightness-down",
    ) || crate::text::text_eq(command, "brightness-key-up") || crate::text::text_eq(
        command,
        "brightness-key-down",
    ) || crate::text::text_eq(command, "brightness-scroll-up") || crate::text::text_eq(
        command,
        "brightness-scroll-down",
    )
}

/// What a media or brightness command does.
#[derive(Clone, Copy, Debug, PartialEq, Eq, Structural)]
pub enum SystemCommand {
    /// Raise (`true`) or lower the output volume by 5%.
    Volume(bool),
    VolumeMute,
    MicrophoneMute,
    /// Change the backlight by `brightnessctl` step: 10% for the keys,
    /// 5% for the others; raising when `true`.
    Brightness(bool, bool),
}

/// The action of a command name.
pub open spec fn command_spec(c: Seq<char>) -> Option<SystemCommand> {
    if c == "volume-up"@ {
        Some(SystemCommand::Volume(true))
    } else if c == "volume-down"@ {
        Some(SystemCommand::Volume(false))
    } else if c == "volume-mute"@ {
        Some(SystemCommand::VolumeMute)
    } else if c == "microphone-mute"@ {
        Some(SystemCommand::MicrophoneMute)
    } else if c == "brightness-key-up"@ {
        Some(SystemCommand::Brightness(true, true))
    } else if c == "brightness-key-down"@ {
        Some(SystemCommand::Brightness(true, false))
    } else if c == "brightness-up"@ || c == "brightness-scroll-up"@ {
        Some(SystemCommand::Brightness(false, true))
    } else if c == "brightness-down"@ || c == "brightness-scroll-down"@ {
        Some(SystemCommand::Brightness(false, false))
    } else {
        None
    }
}

/// The action of a command name (see [`command_spec`]).
pub fn parse_command(command: &str) -> (r: Option<SystemCommand>)
    ensures
        r == command_spec(command@),
        r is Some <==> is_command_spec(command@),
{
    if crate::text::text_eq(command, "volume-up") {
        Some(SystemCommand::Volume(true))
    } else if crate::text::text_eq(command, "volume-down") {
        Some(SystemCommand::Volume(false))
    } else if crate::text::text_eq(command, "volume-mute") {
        Some(SystemCommand::VolumeMute)
    } else if crate::text::text_eq(command, "microphone-mute") {
        Some(SystemCommand::MicrophoneMute)
    } else if crate::text::text_eq(command, "brightness-key-up") {
        Some(SystemCommand::Brightness(true, true))
    } else if crate::text::text_eq(command, "brightness-key-down") {
        Some(SystemCommand::Brightness(true, false))
    } else if crate::text::text_eq(command, "brightness-up") || crate::text::text_eq(
        command,
        "brightness-scroll-up",
    ) {
        Some(SystemCommand::Brightness(false, true))
    } else if crate::text::text_eq(command, "brightness-down") || crate::text::text_eq(
        command,
        "brightness-scroll-down",
    ) {
        Some(SystemCommand::Brightness(false, false))
    } else {
        None
    }
}

/// The `brightnessctl set` argument of a brightness step.
pub fn brightness_adjustment(key: bool, up: bool) -> (r: &'static str)
    ensures
        r@ == if key {
            if up {
                "10%+"@
            } else {
                "10%-"@
            }
        } else if up {
            "5%+"@
        } else {
            "5%-"@
        },
{
    if key {
        if up {
            "10%+"
        } else {
            "10%-"
        }
    } else if up {
        "5%+"
    } else {
        "5%-"
    }
}

/// The `wpctl set-volume` step of a volume change.
pub fn volume_step(up: bool) -> (r: &'static str)
    ensures
        r@ == if up {
            "5%+"@
        } else {
            "5%-"@
        },
{
    if up {
        "5%+"
    } else {
        "5%-"
    }
}

/// The notice after a volume change: the level, marked when muted, with a
/// bar that is empty while muted.
pub fn volume_notice(percent: u8, muted: bool) -> (r: Notice)
    ensures
        notice_view(r) == (
            NoticeKind::Volume,
            (if muted {
                "Volume muted · "@
            } else {
                "Volume · "@
            }) + crate::text::decimal(percent as nat) + "%"@,
            None::<Seq<char>>,
            Some(
                if muted {
                    0u8
                } else if percent > 100 {
                    100u8
                } else {
                    percent
                },
            ),
        ),
{
    let mut title = crate::text::owned(
        if muted {
            "Volume muted · "
        } else {
            "Volume · "
        },
    );
    let digits = crate::text::decimal_string(percent as u128);
    title.append(digits.as_str());
    title.append("%");
    Notice::transient(NoticeKind::Volume, title.as_str()).with_progress(
        if muted {
            0
        } else {
            percent
        },
    )
}

/// The notice after muting or unmuting the microphone.
pub fn microphone_notice(percent: u8, muted: bool) -> (r: Notice)
    ensures
        notice_view(r) == (
            NoticeKind::Microphone,
            if muted {
                "Microphone muted"@
            } else {
                "Microphone on"@
            },
            Some(crate::text::decimal(percent as nat) + "%"@),
            None::<u8>,
        ),
{
    let mut detail = crate::text::decimal_string(percent as u128);
    detail.append("%");
    Notice::transient(
        NoticeKind::Microphone,
        if muted {
            "Microphone muted"
        } else {
            "Microphone on"
        },
    ).with_detail(detail.as_str())
}

/// The notice after a brightness change.
pub fn brightness_notice(percent: u8) -> (r: Notice)
    ensures
        notice_view(r) == (
            NoticeKind::Brightness,
            "Brightness · "@ + crate::text::decimal(percent as nat) + "%"@,
            None::<Seq<char>>,
            Some(
                if percent > 100 {
                    100u8
                } else {
                    percent
                },
            ),
        ),
{
    let mut title = crate::text::owned("Brightness · ");
    let digits = crate::text::decimal_string(percent as u128);
    title.append(digits.as_str());
    title.append("%");
    Notice::transient(NoticeKind::Brightness, title.as_str()).with_progress(percent)
}

/// The notice of a command that failed, with the error.
pub fn failure_notice(error: &str) -> (r: Notice)
    ensures
        notice_view(r) == (
            NoticeKind::Peripheral,
            "Action failed"@,
            Some(error@),
            None::<u8>,
        ),
{
    Notice::transient(NoticeKind::Peripheral, "Action failed").with_detail(error)
}

/// The fields of `wpctl get-volume` output that the volume notice needs:
/// the second white-space separated word (the level) and whether it says
/// "MUTED".
pub fn wpctl_fields(value: &str) -> (r: (Option<String>, bool))
    ensures
        opt_view(r.0) == {
            let words = crate::text::words(value@);
            if words.len() > 1 {
                Some(words[1])
            } else {
                None
            }
        },
        r.1 == crate::text::contains_text(value@, "MUTED"@),
{
    let words = crate::text::split_words(value);
    let level = if words.len() > 1 {
        Some(crate::text::owned(words[1].as_str()))
    } else {
        None
    };
    (level, crate::text::contains_str(value, "MUTED"))
}

/// Whether a text names a command of the shell: a window to open or a
/// media or brightness command.
pub open spec fn valid_command_spec(c: Seq<char>) -> bool {
    ||| c == "menu"@
    ||| c == "launcher"@
    ||| c == "manage"@
    ||| c == "notifications"@
    ||| c == "background-apps"@
    ||| is_command_spec(c)
}

/// Executable [`valid_command_spec`].
pub fn valid_command(command: &str) -> (r: bool)
    ensures
        r == valid_command_spec(command@),
{
    crate::text::text_eq(command, "menu") || crate::text::text_eq(command, "launcher")
        || crate::text::text_eq(command, "manage") || crate::text::text_eq(command, "notifications")
        || crate::text::text_eq(command, "background-apps") || is_command(command)
}

/// What the program does for its arguments.
#[derive(Clone, Debug, PartialEq, Eq)]
pub enum Invocation {
    Version,
    Help,
    Doctor,
    /// Unknown command or extra arguments.
    Invalid,
    /// Start (or reach) the shell, with a command for it, if any.
    Run(Option<String>),
}

/// What the program does for its arguments: the version, help and doctor
/// requests alone; else at most one valid command.
pub open spec fn invocation_spec(args: Seq<Seq<char>>) -> Option<Option<Seq<char>>> {
    if args.len() > 1 || (args.len() == 1 && !valid_command_spec(args[0])) {
        None
    } else if args.len() == 1 {
        Some(Some(args[0]))
    } else {
        Some(None)
    }
}

/// What the program does for its arguments (without the program name).
pub fn invocation(args: &Vec<String>) -> (r: Invocation)
    ensures
        args@.len() == 1 && args@[0]@ == "--version"@ ==> r == Invocation::Version,
        args@.len() == 1 && (args@[0]@ == "--help"@ || args@[0]@ == "-h"@) ==> r
            == Invocation::Help,
        args@.len() == 1 && args@[0]@ == "doctor"@ ==> r == Invocation::Doctor,
        !(args@.len() == 1 && (args@[0]@ == "--version"@ || args@[0]@ == "--help"@ || args@[0]@
            == "-h"@ || args@[0]@ == "doctor"@)) ==> match r {
            Invocation::Invalid => invocation_spec(crate::apps::texts(args@)) is None,
            Invocation::Run(c) => invocation_spec(crate::apps::texts(args@)) == Some(opt_view(c)),
            _ => false,
        },
{
    let ghost av = crate::apps::texts(args@);
    proof {
        reveal_strlit("--version");
        reveal_strlit("--help");
        reveal_strlit("-h");
        reveal_strlit("doctor");
        assert("--help"@[0] != "doctor"@[0]);
    }
    if args.len() == 1 {
        assert(av[0] == args@[0]@);
        let a = args[0].as_str();
        if crate::text::text_eq(a, "--version") {
            return Invocation::Version;
        }
        if crate::text::text_eq(a, "--help") || crate::text::text_eq(a, "-h") {
            return Invocation::Help;
        }
        if crate::text::text_eq(a, "doctor") {
            return Invocation::Doctor;
        }
        if !valid_command(a) {
            return Invocation::Invalid;
        }
        return Invocation::Run(Some(crate::text::owned(a)));
    }
    if args.len() > 1 {
        return Invocation::Invalid;
    }
    Invocation::Run(None)
}

/// The first reading of a state never calls for a notice, and a reading
/// that repeats the previous state calls for none either.
pub proof fn law_transitions_need_a_change(
    connected: bool,
    ssid: Option<Seq<char>>,
    plugged: bool,
    charging: bool,
)
    ensures
        network_transition_spec(None, connected, ssid) is None,
        power_transition_spec(None, plugged, charging) is None,
        network_transition_spec(Some((connected, ssid)), connected, ssid) is None,
        power_transition_spec(Some((plugged, charging)), plugged, charging) is None,
{
}

} // verus!
