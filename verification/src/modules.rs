//! Readings shown by the panel modules: battery, Wi-Fi, backlight and
//! device events. The files and commands are read by the caller; these
//! functions turn what was read into what the panel shows.

use vstd::prelude::*;
use vstd::string::*;
use crate::text::{decimal, lines_of, lowercase, parsed_unsigned, trimmed};

verus! {

/// What the Wi-Fi module shows.
#[derive(Clone, Debug, PartialEq, Eq)]
pub struct NetworkInfo {
    pub text: String,
    pub tooltip: String,
    pub status: String,
    pub ssid: Option<String>,
}

/// What the battery module shows.
#[derive(Clone, Debug, PartialEq, Eq)]
pub struct BatteryStatus {
    pub text: String,
    pub level: String,
    pub tooltip: String,
    pub plugged: bool,
    pub charging: bool,
    pub available: bool,
}

impl BatteryStatus {
    /// The status of a machine without a battery: empty texts, all flags
    /// off.
    pub fn empty() -> (r: BatteryStatus)
        ensures
            r.text@.len() == 0 && r.level@.len() == 0 && r.tooltip@.len() == 0,
            !r.plugged && !r.charging && !r.available,
    {
        BatteryStatus {
            text: String::new(),
            level: String::new(),
            tooltip: String::new(),
            plugged: false,
            charging: false,
            available: false,
        }
    }
}

impl Default for BatteryStatus {
    fn default() -> (r: BatteryStatus)
        ensures
            r.text@.len() == 0 && r.level@.len() == 0 && r.tooltip@.len() == 0,
            !r.plugged && !r.charging && !r.available,
    {
        BatteryStatus::empty()
    }
}

/// A device event worth a notice.
#[derive(Clone, Debug, PartialEq, Eq)]
pub enum DeviceEvent {
    /// A USB device was connected (`true`) or removed, with its name.
    Peripheral(bool, String),
    Brightness,
    Power,
}

/// The charge left to count down: what remains to full while charging
/// (unknown without a full capacity), else the current charge.
pub open spec fn remaining_spec(now: u64, full: Option<u64>, charging: bool) -> Option<u64> {
    if charging {
        match full {
            Some(f) => Some(if f >= now {
                (f - now) as u64
            } else {
                0u64
            }),
            None => None,
        }
    } else {
        Some(now)
    }
}

/// Executable [`remaining_spec`].
pub fn remaining_charge(now: u64, full: Option<u64>, charging: bool) -> (r: Option<u64>)
    ensures
        r == remaining_spec(now, full, charging),
{
    if charging {
        match full {
            Some(f) => Some(f.saturating_sub(now)),
            None => None,
        }
    } else {
        Some(now)
    }
}

/// Two decimal digits of `m < 100`, zero-padded.
pub open spec fn two_digits(m: nat) -> Seq<char> {
    seq![crate::text::digit_char(m / 10), crate::text::digit_char(m % 10)]
}

/// "`h`h `mm`m" for a number of minutes.
pub open spec fn estimate_text(minutes: nat) -> Seq<char> {
    decimal(minutes / 60) + "h "@ + two_digits(minutes % 60) + "m"@
}

/// The time to empty (or to full) at a given power draw, in hours and
/// zero-padded minutes; nothing without a power draw.
pub open spec fn estimate_spec(remaining: u64, power: u64) -> Option<Seq<char>> {
    if power == 0 {
        None
    } else {
        Some(estimate_text((remaining as nat * 60 / power as nat) as nat))
    }
}

/// Executable [`estimate_spec`].
pub fn format_estimate(remaining_charge: u64, power: u64) -> (r: Option<String>)
    ensures
        match r {
            Some(s) => estimate_spec(remaining_charge, power) == Some(s@),
            None => estimate_spec(remaining_charge, power) is None,
        },
{
    if power == 0 {
        return None;
    }
    let minutes: u128 = (remaining_charge as u128) * 60 / (power as u128);
    let hours = minutes / 60;
    let rest = minutes % 60;
    let mut s = crate::text::decimal_string(hours);
    s.append("h ");
    let tens = (0x30 + (rest / 10) as u8) as char;
    let ones = (0x30 + (rest % 10) as u8) as char;
    s.push(tens);
    s.push(ones);
    s.append("m");
    proof {
        reveal_strlit("h ");
        reveal_strlit("m");
        assert(s@ =~= estimate_text(minutes as nat));
    }
    Some(s)
}

/// The sysfs files that describe a battery, as read (before trimming);
/// `None` for a file that could not be read.
#[derive(Clone, Debug, PartialEq, Eq)]
pub struct BatteryReadings {
    pub capacity: Option<String>,
    pub status: Option<String>,
    pub energy_now: Option<String>,
    pub energy_full: Option<String>,
    pub power_now: Option<String>,
    pub charge_now: Option<String>,
    pub charge_full: Option<String>,
    pub current_now: Option<String>,
    /// The `online` files of the mains and USB power supplies.
    pub adapters_online: Vec<Option<String>>,
}

/// A reading of a sysfs number: trimmed and parsed as `u64`.
pub open spec fn reading(text: Option<String>) -> Option<u64> {
    match text {
        Some(t) => match parsed_unsigned(trimmed(t@), u64::MAX as nat) {
            Some(v) => Some(v as u64),
            None => None,
        },
        None => None,
    }
}

fn read_number(text: &Option<String>) -> (r: Option<u64>)
    ensures
        r == reading(*text),
{
    match text {
        Some(t) => {
            let s = crate::text::trim(t.as_str());
            match crate::text::parse_unsigned(s.as_str(), u64::MAX) {
                Some(v) => Some(v),
                None => None,
            }
        },
        None => None,
    }
}

/// The estimate from one triple of readings (charge now, full charge,
/// draw), when all it needs is there.
pub open spec fn estimate_from(
    now: Option<u64>,
    full: Option<u64>,
    power: Option<u64>,
    charging: bool,
) -> Option<Seq<char>> {
    match (now, power) {
        (Some(n), Some(p)) if p > 0 => match remaining_spec(n, full, charging) {
            Some(rem) => estimate_spec(rem, p),
            None => None,
        },
        _ => None,
    }
}

/// The battery tooltip's estimate: from the energy readings, else from the
/// charge readings, else the lowercase status.
pub open spec fn battery_estimate_spec(r: BatteryReadings, status: Seq<char>) -> Seq<char> {
    let charging = crate::text::eq_ignore_ascii_case(status, "charging"@);
    match estimate_from(
        reading(r.energy_now),
        reading(r.energy_full),
        reading(r.power_now),
        charging,
    ) {
        Some(e) => e,
        None => match estimate_from(
            reading(r.charge_now),
            reading(r.charge_full),
            reading(r.current_now),
            charging,
        ) {
            Some(e) => e,
            None => lowercase(status),
        },
    }
}

fn estimate_step(
    now: &Option<String>,
    full: &Option<String>,
    power: &Option<String>,
    charging: bool,
) -> (r: Option<String>)
    ensures
        match r {
            Some(s) => estimate_from(reading(*now), reading(*full), reading(*power), charging)
                == Some(s@),
            None => estimate_from(reading(*now), reading(*full), reading(*power), charging) is None,
        },
{
    let n = match read_number(now) {
        Some(n) => n,
        None => return None,
    };
    let p = match read_number(power) {
        Some(p) => p,
        None => return None,
    };
    if p == 0 {
        return None;
    }
    match remaining_charge(n, read_number(full), charging) {
        Some(rem) => format_estimate(rem, p),
        None => None,
    }
}

/// The tooltip estimate of a battery.
pub fn battery_estimate(readings: &BatteryReadings, status: &str) -> (r: String)
    ensures
        r@ == battery_estimate_spec(*readings, status@),
{
    let charging = crate::text::equal_ignoring_ascii_case(status, "charging");
    match estimate_step(&readings.energy_now, &readings.energy_full, &readings.power_now, charging) {
        Some(e) => e,
        None => match estimate_step(
            &readings.charge_now,
            &readings.charge_full,
            &readings.current_now,
            charging,
        ) {
            Some(e) => e,
            None => crate::text::to_lowercase(status),
        },
    }
}

/// The battery tooltip's estimate, by the readings there are: the energy
/// readings when the energy and a positive power draw can be read;
/// otherwise the charge readings when the charge and a positive current
/// can be read (time to empty from the charge, or, while charging, time
/// to full from what is missing to the full charge); otherwise the status
/// in lowercase.
pub proof fn law_battery_estimate_sources(r: BatteryReadings, status: Seq<char>)
    ensures
        ({
            let charging = crate::text::eq_ignore_ascii_case(status, "charging"@);
            let energy_usable = reading(r.energy_now) is Some && (reading(r.power_now) matches Some(
                p,
            ) && p > 0);
            let charge_usable = reading(r.charge_now) is Some && (reading(r.current_now) matches Some(
                c,
            ) && c > 0);
            &&& !charging && energy_usable ==> battery_estimate_spec(r, status) == estimate_spec(
                reading(r.energy_now)->0,
                reading(r.power_now)->0,
            )->0
            &&& !charging && !energy_usable && charge_usable ==> battery_estimate_spec(r, status)
                == estimate_spec(reading(r.charge_now)->0, reading(r.current_now)->0)->0
            &&& charging && !energy_usable && charge_usable && reading(r.charge_full) is Some
                ==> battery_estimate_spec(r, status) == estimate_spec(
                (if reading(r.charge_full)->0 >= reading(r.charge_now)->0 {
                    reading(r.charge_full)->0 - reading(r.charge_now)->0
                } else {
                    0
                }) as u64,
                reading(r.current_now)->0,
            )->0
            &&& !energy_usable && !charge_usable ==> battery_estimate_spec(r, status) == lowercase(
                status,
            )
        }),
{
}

/// The icon of a battery: charging, plugged in, or by charge level.
pub open spec fn battery_icon(online: bool, charging: bool, capacity: nat) -> Seq<char> {
    if online && charging {
        "󰂄"@
    } else if online {
        "󰚥"@
    } else if capacity <= 10 {
        "󰂎"@
    } else if capacity <= 30 {
        "󰁻"@
    } else if capacity <= 50 {
        "󰁾"@
    } else if capacity <= 75 {
        "󰂁"@
    } else {
        "󰁹"@
    }
}

/// The level class of a battery.
pub open spec fn battery_level(capacity: nat) -> Seq<char> {
    if capacity <= 10 {
        "critical"@
    } else if capacity <= 20 {
        "warning"@
    } else {
        "normal"@
    }
}

/// The trimmed text of a file that may be missing, empty when missing.
pub open spec fn trimmed_or_empty(text: Option<String>) -> Seq<char> {
    match text {
        Some(t) => trimmed(t@),
        None => Seq::empty(),
    }
}

/// Whether a mains or USB supply reports itself online.
pub open spec fn any_online(online: Seq<Option<String>>) -> bool {
    exists|i: int| 0 <= i < online.len() && trimmed_or_empty(#[trigger] online[i]) == "1"@
}

fn trimmed_text(text: &Option<String>) -> (r: String)
    ensures
        r@ == trimmed_or_empty(*text),
{
    match text {
        Some(t) => crate::text::trim(t.as_str()),
        None => String::new(),
    }
}

fn adapter_online(online: &Vec<Option<String>>) -> (r: bool)
    ensures
        r == any_online(online@),
{
    let mut i: usize = 0;
    while i < online.len()
        invariant
            i <= online@.len(),
            forall|k: int| 0 <= k < i ==> trimmed_or_empty(#[trigger] online@[k]) != "1"@,
        decreases online@.len() - i,
    {
        let t = trimmed_text(&online[i]);
        if crate::text::text_eq(t.as_str(), "1") {
            return true;
        }
        i += 1;
    }
    false
}

/// What the battery module shows for the readings of a battery: nothing
/// without a battery; "unavailable" without a readable capacity of at most
/// 100; else an icon, the capacity, its level class and the estimate.
pub fn battery_status(readings: Option<&BatteryReadings>) -> (r: BatteryStatus)
    ensures
        match readings {
            None => r.text@.len() == 0 && r.level@.len() == 0 && r.tooltip@.len() == 0 && !r.plugged
                && !r.charging && !r.available,
            Some(b) => {
                let capacity = trimmed_or_empty(b.capacity);
                let status = trimmed_or_empty(b.status);
                let charging = crate::text::eq_ignore_ascii_case(status, "charging"@);
                let online = any_online(b.adapters_online@) || charging;
                match (b.capacity, parsed_unsigned(capacity, u32::MAX as nat)) {
                    (Some(_), Some(value)) if value <= 100 => {
                        &&& r.text@ == battery_icon(online, charging, value) + " "@ + capacity
                            + "%"@
                        &&& r.level@ == battery_level(value)
                        &&& r.tooltip@ == capacity + "% • "@ + battery_estimate_spec(*b, status)
                        &&& r.plugged == online
                        &&& r.charging == charging
                        &&& r.available
                    },
                    _ => {
                        &&& r.text@ == "󰂎 --"@
                        &&& r.tooltip@ == "Battery data unavailable"@
                        &&& r.level@.len() == 0
                        &&& !r.plugged && !r.charging && !r.available
                    },
                }
            },
        },
{
    let b = match readings {
        None => return BatteryStatus::empty(),
        Some(b) => b,
    };
    let unavailable = BatteryStatus {
        text: crate::text::owned("󰂎 --"),
        level: String::new(),
        tooltip: crate::text::owned("Battery data unavailable"),
        plugged: false,
        charging: false,
        available: false,
    };
    if b.capacity.is_none() {
        return unavailable;
    }
    let capacity = trimmed_text(&b.capacity);
    let value = match crate::text::parse_unsigned(capacity.as_str(), u32::MAX as u64) {
        Some(v) => {
            if v > 100 {
                return unavailable;
            }
            v
        },
        None => return unavailable,
    };
    let status = trimmed_text(&b.status);
    let charging = crate::text::equal_ignoring_ascii_case(status.as_str(), "charging");
    let online = adapter_online(&b.adapters_online) || charging;
    let icon = if online && charging {
        "󰂄"
    } else if online {
        "󰚥"
    } else if value <= 10 {
        "󰂎"
    } else if value <= 30 {
        "󰁻"
    } else if value <= 50 {
        "󰁾"
    } else if value <= 75 {
        "󰂁"
    } else {
        "󰁹"
    };
    let level = if value <= 10 {
        "critical"
    } else if value <= 20 {
        "warning"
    } else {
        "normal"
    };
    let mut text = crate::text::owned(icon);
    text.append(" ");
    text.append(capacity.as_str());
    text.append("%");
    let mut tooltip = crate::text::owned(capacity.as_str());
    tooltip.append("% • ");
    let estimate = battery_estimate(b, status.as_str());
    tooltip.append(estimate.as_str());
    BatteryStatus {
        text,
        level: crate::text::owned(level),
        tooltip,
        plugged: online,
        charging,
        available: true,
    }
}

/// The fields of a line of `nmcli --terse` output: split at colons that
/// are not escaped by a backslash; a backslash keeps the next character.
pub open spec fn terse_fields(line: Seq<char>) -> Seq<Seq<char>>
    decreases line.len(),
{
    terse_scan(line, 0, false, Seq::empty(), Seq::empty())
}

/// Scans `line` from `i` with the fields `done`, the field being read
/// `current`, and whether the previous character was an escape.
pub open spec fn terse_scan(
    line: Seq<char>,
    i: int,
    escaped: bool,
    done: Seq<Seq<char>>,
    current: Seq<char>,
) -> Seq<Seq<char>>
    decreases line.len() - i,
{
    if i < 0 || i >= line.len() {
        done.push(current)
    } else {
        let ch = line[i];
        if escaped {
            terse_scan(line, i + 1, false, done, current.push(ch))
        } else if ch == '\\' {
            terse_scan(line, i + 1, true, done, current)
        } else if ch == ':' {
            terse_scan(line, i + 1, false, done.push(current), Seq::empty())
        } else {
            terse_scan(line, i + 1, false, done, current.push(ch))
        }
    }
}

/// Splits a line of `nmcli --terse` output into fields.
pub fn split_terse(line: &str) -> (r: Vec<String>)
    ensures
        r@.map_values(|f: String| f@) == terse_fields(line@),
{
    let v = crate::text::chars_of(line);
    let mut fields: Vec<String> = Vec::new();
    let mut current: Vec<char> = Vec::new();
    let mut escaped = false;
    let mut i: usize = 0;
    assert(fields@.map_values(|f: String| f@) =~= Seq::<Seq<char>>::empty());
    assert(current@ =~= Seq::<char>::empty());
    while i < v.len()
        invariant
            v@ == line@,
            i <= v@.len(),
            terse_fields(line@) == terse_scan(
                line@,
                i as int,
                escaped,
                fields@.map_values(|f: String| f@),
                current@,
            ),
        decreases v@.len() - i,
    {
        let ch = v[i];
        if escaped {
            current.push(ch);
            escaped = false;
        } else if ch == '\\' {
            escaped = true;
        } else if ch == ':' {
            let ghost before = fields@.map_values(|f: String| f@);
            let field = crate::text::string_of(current.as_slice());
            fields.push(field);
            current = Vec::new();
            assert(fields@.map_values(|f: String| f@) =~= before.push(field@));
        } else {
            current.push(ch);
        }
        i += 1;
    }
    let ghost before = fields@.map_values(|f: String| f@);
    let field = crate::text::string_of(current.as_slice());
    fields.push(field);
    assert(fields@.map_values(|f: String| f@) =~= before.push(field@));
    fields
}

/// How many fields separators a line holds from `i` on: its colons that
/// no backslash escapes, where a backslash escapes the character after it.
pub open spec fn field_breaks(line: Seq<char>, i: int, escaped: bool) -> nat
    decreases line.len() - i,
{
    if i < 0 || i >= line.len() {
        0
    } else if escaped {
        field_breaks(line, i + 1, false)
    } else if line[i] == '\\' {
        field_breaks(line, i + 1, true)
    } else if line[i] == ':' {
        1 + field_breaks(line, i + 1, false)
    } else {
        field_breaks(line, i + 1, false)
    }
}

proof fn lemma_scan_count(
    line: Seq<char>,
    i: int,
    escaped: bool,
    done: Seq<Seq<char>>,
    current: Seq<char>,
)
    requires
        0 <= i,
    ensures
        terse_scan(line, i, escaped, done, current).len() == done.len() + 1 + field_breaks(
            line,
            i,
            escaped,
        ),
    decreases line.len() - i,
{
    if i < line.len() {
        let ch = line[i];
        if escaped {
            lemma_scan_count(line, i + 1, false, done, current.push(ch));
        } else if ch == '\\' {
            lemma_scan_count(line, i + 1, true, done, current);
        } else if ch == ':' {
            lemma_scan_count(line, i + 1, false, done.push(current), Seq::empty());
        } else {
            lemma_scan_count(line, i + 1, false, done, current.push(ch));
        }
    }
}

/// A line splits into one field more than it has unescaped colons, so
/// never into none.
pub proof fn law_terse_field_count(line: Seq<char>)
    ensures
        terse_fields(line).len() == 1 + field_breaks(line, 0, false),
{
    lemma_scan_count(line, 0, false, Seq::empty(), Seq::empty());
}

/// A field as `nmcli --terse` writes it: a backslash before every
/// backslash and colon.
pub open spec fn terse_escape(f: Seq<char>) -> Seq<char>
    decreases f.len(),
{
    if f.len() == 0 {
        Seq::empty()
    } else {
        (if f[0] == '\\' || f[0] == ':' {
            seq!['\\', f[0]]
        } else {
            seq![f[0]]
        }) + terse_escape(f.drop_first())
    }
}

/// The fields of a line, each escaped.
pub open spec fn escaped_fields(fields: Seq<Seq<char>>) -> Seq<Seq<char>> {
    fields.map_values(|f: Seq<char>| terse_escape(f))
}

proof fn lemma_scan_escaped(
    line: Seq<char>,
    i: int,
    f: Seq<char>,
    done: Seq<Seq<char>>,
    current: Seq<char>,
)
    requires
        0 <= i,
        i + terse_escape(f).len() <= line.len(),
        line.subrange(i, i + terse_escape(f).len()) == terse_escape(f),
    ensures
        terse_scan(line, i, false, done, current) == terse_scan(
            line,
            i + terse_escape(f).len(),
            false,
            done,
            current + f,
        ),
    decreases f.len(),
{
    let e = terse_escape(f);
    if f.len() == 0 {
        assert(current + f =~= current);
    } else {
        let rest = terse_escape(f.drop_first());
        let c = f[0];
        assert(line.subrange(i, i + e.len())[0] == line[i]);
        if c == '\\' || c == ':' {
            assert(e =~= seq!['\\', c] + rest);
            assert(line[i] == '\\');
            assert(line.subrange(i, i + e.len())[1] == line[i + 1]);
            assert(line[i + 1] == c);
            assert(line.subrange(i + 2, i + 2 + rest.len()) =~= rest) by {
                assert forall|k: int| 0 <= k < rest.len() implies line.subrange(
                    i + 2,
                    i + 2 + rest.len(),
                )[k] == rest[k] by {
                    assert(line.subrange(i, i + e.len())[k + 2] == e[k + 2]);
                }
            }
            assert(terse_scan(line, i, false, done, current) == terse_scan(
                line,
                i + 1,
                true,
                done,
                current,
            ));
            assert(terse_scan(line, i + 1, true, done, current) == terse_scan(
                line,
                i + 2,
                false,
                done,
                current.push(c),
            ));
            lemma_scan_escaped(line, i + 2, f.drop_first(), done, current.push(c));
            assert(i + e.len() == i + 2 + rest.len());
        } else {
            assert(e =~= seq![c] + rest);
            assert(line[i] == c);
            assert(line.subrange(i + 1, i + 1 + rest.len()) =~= rest) by {
                assert forall|k: int| 0 <= k < rest.len() implies line.subrange(
                    i + 1,
                    i + 1 + rest.len(),
                )[k] == rest[k] by {
                    assert(line.subrange(i, i + e.len())[k + 1] == e[k + 1]);
                }
            }
            assert(terse_scan(line, i, false, done, current) == terse_scan(
                line,
                i + 1,
                false,
                done,
                current.push(c),
            ));
            lemma_scan_escaped(line, i + 1, f.drop_first(), done, current.push(c));
            assert(i + e.len() == i + 1 + rest.len());
        }
        assert(current.push(c) + f.drop_first() =~= current + f);
    }
}

proof fn lemma_joined_front(parts: Seq<Seq<char>>, sep: Seq<char>)
    requires
        parts.len() >= 2,
    ensures
        crate::text::joined(parts, sep) == parts[0] + sep + crate::text::joined(
            parts.drop_first(),
            sep,
        ),
    decreases parts.len(),
{
    if parts.len() == 2 {
        assert(parts.drop_last() =~= seq![parts[0]]);
        assert(parts.drop_first() =~= seq![parts[1]]);
        assert(crate::text::joined(parts.drop_last(), sep) == parts[0]);
        assert(crate::text::joined(parts.drop_first(), sep) == parts[1]);
        assert(crate::text::joined(parts, sep) == crate::text::joined(parts.drop_last(), sep) + sep
            + parts.last());
    } else {
        lemma_joined_front(parts.drop_last(), sep);
        assert(parts.drop_last().drop_first() =~= parts.drop_first().drop_last());
        assert(parts.drop_last()[0] == parts[0]);
        assert(parts.drop_first().last() == parts.last());
        let j = crate::text::joined(parts.drop_last().drop_first(), sep);
        assert(crate::text::joined(parts, sep) == crate::text::joined(parts.drop_last(), sep) + sep
            + parts.last());
        assert(crate::text::joined(parts.drop_first(), sep) == crate::text::joined(
            parts.drop_first().drop_last(),
            sep,
        ) + sep + parts.drop_first().last());
        assert(parts[0] + sep + j + sep + parts.last() =~= parts[0] + sep + (j + sep
            + parts.last()));
    }
}

proof fn lemma_scan_fields(line: Seq<char>, i: int, fields: Seq<Seq<char>>, done: Seq<Seq<char>>)
    requires
        fields.len() >= 1,
        0 <= i <= line.len(),
        line.subrange(i, line.len() as int) == crate::text::joined(escaped_fields(fields), seq![':']),
    ensures
        terse_scan(line, i, false, done, Seq::empty()) == done + fields,
    decreases fields.len(),
{
    let sep = seq![':'];
    let ef = escaped_fields(fields);
    let e0 = terse_escape(fields[0]);
    assert(ef[0] == e0);
    let tail = line.subrange(i, line.len() as int);
    if fields.len() == 1 {
        assert(ef =~= seq![e0]);
        assert(tail == e0);
        assert(line.subrange(i, i + e0.len()) =~= e0);
        lemma_scan_escaped(line, i, fields[0], done, Seq::empty());
        assert(Seq::<char>::empty() + fields[0] =~= fields[0]);
        assert(done.push(fields[0]) =~= done + fields);
    } else {
        lemma_joined_front(ef, sep);
        assert(ef.drop_first() =~= escaped_fields(fields.drop_first()));
        let rest = crate::text::joined(escaped_fields(fields.drop_first()), sep);
        assert(tail =~= e0 + sep + rest);
        assert(tail.len() == e0.len() + 1 + rest.len());
        assert(i + e0.len() + 1 <= line.len());
        assert(line.subrange(i, i + e0.len()) =~= e0) by {
            assert forall|k: int| 0 <= k < e0.len() implies line.subrange(i, i + e0.len())[k]
                == e0[k] by {
                assert(tail[k] == line[i + k]);
                assert(tail[k] == e0[k]);
            }
        }
        lemma_scan_escaped(line, i, fields[0], done, Seq::empty());
        let j = i + e0.len();
        assert(tail[e0.len() as int] == line[j]);
        assert(line[j] == ':');
        assert(Seq::<char>::empty() + fields[0] =~= fields[0]);
        assert(line.subrange(j + 1, line.len() as int) =~= rest) by {
            assert forall|k: int| 0 <= k < rest.len() implies line.subrange(
                j + 1,
                line.len() as int,
            )[k] == rest[k] by {
                assert(tail[e0.len() + 1 + k] == line[j + 1 + k]);
                assert(tail[e0.len() + 1 + k] == rest[k]);
            }
        }
        lemma_scan_fields(line, j + 1, fields.drop_first(), done.push(fields[0]));
        assert(done.push(fields[0]) + fields.drop_first() =~= done + fields);
    }
}

/// Splitting fields that were escaped and joined with colons gives them
/// back.
pub proof fn law_terse_round_trip(fields: Seq<Seq<char>>)
    requires
        fields.len() >= 1,
    ensures
        terse_fields(crate::text::joined(escaped_fields(fields), ":"@)) == fields,
{
    reveal_strlit(":");
    assert(":"@ =~= seq![':']);
    let line = crate::text::joined(escaped_fields(fields), ":"@);
    assert(line.subrange(0, line.len() as int) =~= line);
    lemma_scan_fields(line, 0, fields, Seq::empty());
    assert(Seq::<Seq<char>>::empty() + fields =~= fields);
}

/// The Wi-Fi icon for a signal strength in percent.
pub open spec fn signal_icon_spec(signal: u8) -> Seq<char> {
    if signal <= 24 {
        "󰤟"@
    } else if signal <= 49 {
        "󰤢"@
    } else if signal <= 74 {
        "󰤥"@
    } else {
        "󰤨"@
    }
}

/// Executable [`signal_icon_spec`].
pub fn signal_icon(signal: u8) -> (r: &'static str)
    ensures
        r@ == signal_icon_spec(signal),
{
    if signal <= 24 {
        "󰤟"
    } else if signal <= 49 {
        "󰤢"
    } else if signal <= 74 {
        "󰤥"
    } else {
        "󰤨"
    }
}

/// What the Wi-Fi module shows without a connection.
pub fn unavailable_network(status: &str) -> (r: NetworkInfo)
    ensures
        network_view(r) == unavailable_view(status@),
{
    let mut tooltip = crate::text::owned("Wi-Fi: ");
    tooltip.append(status);
    NetworkInfo {
        text: crate::text::owned("󰖪"),
        tooltip,
        status: crate::text::owned(status),
        ssid: None,
    }
}

/// The fields of the lines of some `nmcli --terse` output.
pub open spec fn terse_rows(output: Seq<char>) -> Seq<Seq<Seq<char>>> {
    lines_of(output).map_values(|l: Seq<char>| terse_fields(l))
}

/// Whether a row of `DEVICE,TYPE,STATE` describes a Wi-Fi device that the
/// configuration allows.
pub open spec fn wifi_candidate(row: Seq<Seq<char>>, configured: Option<Seq<char>>) -> bool {
    &&& row.len() > 1 && row[1] == "wifi"@
    &&& match configured {
        Some(name) => row.len() > 0 && row[0] == name,
        None => true,
    }
}

/// The Wi-Fi devices that `nmcli device status` lists.
pub enum WifiDevice {
    /// No usable Wi-Fi device.
    Missing,
    /// Wi-Fi devices, none connected.
    Disconnected,
    /// The first connected Wi-Fi device, by interface name.
    Connected(String),
}

/// The connected interface of the Wi-Fi rows, if any.
pub open spec fn connected_interface(rows: Seq<Seq<Seq<char>>>, configured: Option<Seq<char>>) -> Option<
    Seq<char>,
>
    decreases rows.len(),
{
    if rows.len() == 0 {
        None
    } else {
        let row = rows[0];
        if wifi_candidate(row, configured) && row.len() > 2 && row[2] == "connected"@ {
            Some(row[0])
        } else {
            connected_interface(rows.drop_first(), configured)
        }
    }
}

/// Whether some row is a Wi-Fi candidate.
pub open spec fn has_wifi(rows: Seq<Seq<Seq<char>>>, configured: Option<Seq<char>>) -> bool {
    exists|i: int| 0 <= i < rows.len() && wifi_candidate(#[trigger] rows[i], configured)
}

fn is_wifi_candidate(row: &Vec<String>, configured: Option<&str>) -> (r: bool)
    ensures
        r == wifi_candidate(row@.map_values(|f: String| f@), match configured {
            Some(c) => Some(c@),
            None => None,
        }),
{
    let ghost rv = row@.map_values(|f: String| f@);
    if row.len() <= 1 || !crate::text::text_eq(row[1].as_str(), "wifi") {
        return false;
    }
    assert(rv[1] == row@[1]@);
    match configured {
        Some(name) => {
            assert(rv[0] == row@[0]@);
            crate::text::text_eq(row[0].as_str(), name)
        },
        None => true,
    }
}

fn terse_table(output: &str) -> (r: Vec<Vec<String>>)
    ensures
        r@.map_values(|row: Vec<String>| row@.map_values(|f: String| f@)) == terse_rows(output@),
{
    let ls = crate::text::lines(output);
    let mut rows: Vec<Vec<String>> = Vec::new();
    let mut i: usize = 0;
    while i < ls.len()
        invariant
            ls@.map_values(|l: String| l@) == lines_of(output@),
            i <= ls@.len(),
            rows@.len() == i,
            forall|k: int|
                0 <= k < i ==> (#[trigger] rows@[k])@.map_values(|f: String| f@) == terse_fields(
                    ls@[k]@,
                ),
        decreases ls@.len() - i,
    {
        rows.push(split_terse(ls[i].as_str()));
        i += 1;
    }
    let ghost rv = rows@.map_values(|row: Vec<String>| row@.map_values(|f: String| f@));
    let ghost lv = ls@.map_values(|l: String| l@);
    assert forall|k: int| 0 <= k < rv.len() implies #[trigger] rv[k] == terse_rows(output@)[k] by {
        assert(lines_of(output@)[k] == lv[k]);
    }
    assert(rv =~= terse_rows(output@));
    rows
}

/// The state of the Wi-Fi devices in `nmcli -t -f DEVICE,TYPE,STATE device
/// status` output, restricted to the configured interface if any.
pub fn wifi_device(output: &str, configured: Option<&str>) -> (r: WifiDevice)
    ensures
        ({
            let rows = terse_rows(output@);
            let conf = match configured {
                Some(c) => Some(c@),
                None => None,
            };
            match r {
                WifiDevice::Missing => !has_wifi(rows, conf),
                WifiDevice::Disconnected => has_wifi(rows, conf) && connected_interface(rows, conf)
                    is None,
                WifiDevice::Connected(name) => has_wifi(rows, conf) && connected_interface(
                    rows,
                    conf,
                ) == Some(name@),
            }
        }),
{
    let rows = terse_table(output);
    let ghost rv = rows@.map_values(|row: Vec<String>| row@.map_values(|f: String| f@));
    let ghost conf = match configured {
        Some(c) => Some(c@),
        None => None,
    };
    let mut any = false;
    let mut i: usize = 0;
    assert(rv.skip(0) =~= rv);
    while i < rows.len()
        invariant
            rv == rows@.map_values(|row: Vec<String>| row@.map_values(|f: String| f@)),
            rv == terse_rows(output@),
            conf == match configured {
                Some(c) => Some(c@),
                None => None::<Seq<char>>,
            },
            i <= rows@.len(),
            any == exists|k: int| 0 <= k < i && wifi_candidate(#[trigger] rv[k], conf),
            connected_interface(rv, conf) == connected_interface(rv.skip(i as int), conf),
        decreases rows@.len() - i,
    {
        let row = &rows[i];
        assert(rv[i as int] == row@.map_values(|f: String| f@));
        assert(rv.skip(i as int).drop_first() =~= rv.skip(i + 1));
        assert(rv.skip(i as int)[0] == rv[i as int]);
        if is_wifi_candidate(row, configured) {
            any = true;
            if row.len() > 2 && crate::text::text_eq(row[2].as_str(), "connected") {
                assert(rv[i as int][2] == row@[2]@ && rv[i as int][0] == row@[0]@);
                proof {
                    assert(has_wifi(rv, conf));
                }
                return WifiDevice::Connected(crate::text::owned(row[0].as_str()));
            }
            proof {
                if row.len() > 2 {
                    assert(rv[i as int][2] == row@[2]@);
                }
            }
        }
        i += 1;
    }
    assert(rv.skip(rows@.len() as int).len() == 0);
    if any {
        WifiDevice::Disconnected
    } else {
        WifiDevice::Missing
    }
}

/// The status of a disconnected adapter: "disabled" when `nmcli radio
/// wifi` says so, else "disconnected".
pub fn radio_status(radio: Option<&str>) -> (r: &'static str)
    ensures
        r@ == match radio {
            Some(t) if t@ == "disabled"@ => "disabled"@,
            _ => "disconnected"@,
        },
{
    match radio {
        Some(t) => if crate::text::text_eq(t, "disabled") {
            "disabled"
        } else {
            "disconnected"
        },
        None => "disconnected",
    }
}

/// The first row whose first field is "yes".
pub open spec fn active_row(rows: Seq<Seq<Seq<char>>>) -> Option<Seq<Seq<char>>>
    decreases rows.len(),
{
    if rows.len() == 0 {
        None
    } else if rows[0].len() > 0 && rows[0][0] == "yes"@ {
        Some(rows[0])
    } else {
        active_row(rows.drop_first())
    }
}

/// The signal of an active-network row: its third field parsed as a
/// percentage byte, 0 when absent or unreadable.
pub open spec fn row_signal(row: Seq<Seq<char>>) -> u8 {
    if row.len() > 2 {
        match parsed_unsigned(row[2], 255) {
            Some(v) => v as u8,
            None => 0,
        }
    } else {
        0
    }
}

/// The network name of an active-network row, if not empty.
pub open spec fn row_ssid(row: Seq<Seq<char>>) -> Option<Seq<char>> {
    if row.len() > 1 && row[1].len() > 0 {
        Some(row[1])
    } else {
        None
    }
}

/// The shown parts of a Wi-Fi module: icon, tooltip, status and network
/// name.
pub open spec fn network_view(r: NetworkInfo) -> (Seq<char>, Seq<char>, Seq<char>, Option<Seq<char>>) {
    (r.text@, r.tooltip@, r.status@, match r.ssid {
        Some(s) => Some(s@),
        None => None,
    })
}

/// The Wi-Fi module without a connection, for a status.
pub open spec fn unavailable_view(status: Seq<char>) -> (Seq<char>, Seq<char>, Seq<char>, Option<Seq<char>>) {
    ("󰖪"@, "Wi-Fi: "@ + status, status, None)
}

/// The Wi-Fi module for a connection, from `nmcli -t -f ACTIVE,SSID,SIGNAL
/// device wifi list` output and the address: the signal icon, and a tooltip
/// with the network name, signal and address; "unavailable" when no
/// network is active.
pub open spec fn connected_view(list: Seq<char>, ip: Seq<char>) -> (Seq<char>, Seq<char>, Seq<char>, Option<Seq<char>>) {
    match active_row(terse_rows(list)) {
        None => unavailable_view("unavailable"@),
        Some(row) => {
            let signal = row_signal(row);
            let name = match row_ssid(row) {
                Some(s) => s,
                None => "Wi-Fi"@,
            };
            (
                signal_icon_spec(signal),
                name + "\n"@ + decimal(signal as nat) + "% • "@ + ip,
                "connected"@,
                row_ssid(row),
            )
        },
    }
}

/// What the Wi-Fi module shows for a connection (see [`connected_view`]).
pub fn connected_network(list: &str, ip: &str) -> (r: NetworkInfo)
    ensures
        network_view(r) == connected_view(list@, ip@),
{
    let rows = terse_table(list);
    let ghost rv = rows@.map_values(|row: Vec<String>| row@.map_values(|f: String| f@));
    let mut i: usize = 0;
    assert(rv.skip(0) =~= rv);
    while i < rows.len()
        invariant
            rv == rows@.map_values(|row: Vec<String>| row@.map_values(|f: String| f@)),
            rv == terse_rows(list@),
            i <= rows@.len(),
            active_row(rv) == active_row(rv.skip(i as int)),
        decreases rows@.len() - i,
    {
        let row = &rows[i];
        assert(rv[i as int] == row@.map_values(|f: String| f@));
        assert(rv.skip(i as int).drop_first() =~= rv.skip(i + 1));
        assert(rv.skip(i as int)[0] == rv[i as int]);
        if row.len() > 0 && crate::text::text_eq(row[0].as_str(), "yes") {
            assert(rv[i as int][0] == row@[0]@);
            let ghost rw = rv[i as int];
            let ssid: Option<String> = if row.len() > 1 && row[1].unicode_len() > 0 {
                assert(rw[1] == row@[1]@);
                Some(crate::text::owned(row[1].as_str()))
            } else {
                proof {
                    if row.len() > 1 {
                        assert(rw[1] == row@[1]@);
                    }
                }
                None
            };
            let signal: u8 = if row.len() > 2 {
                assert(rw[2] == row@[2]@);
                match crate::text::parse_unsigned(row[2].as_str(), 255) {
                    Some(v) => v as u8,
                    None => 0,
                }
            } else {
                0
            };
            let mut tooltip = match &ssid {
                Some(s) => crate::text::owned(s.as_str()),
                None => crate::text::owned("Wi-Fi"),
            };
            tooltip.append("\n");
            let digits = crate::text::decimal_string(signal as u128);
            tooltip.append(digits.as_str());
            tooltip.append("% • ");
            tooltip.append(ip);
            return NetworkInfo {
                text: crate::text::owned(signal_icon(signal)),
                tooltip,
                status: crate::text::owned("connected"),
                ssid,
            };
        }
        i += 1;
    }
    assert(rv.skip(rows@.len() as int).len() == 0);
    unavailable_network("unavailable")
}

/// What the Wi-Fi module shows, from the outputs of the `nmcli` queries:
/// the device status, then (for a disconnected adapter) the radio state,
/// or (for a connected one) its network list and address. A query that
/// failed or was not made is `None`.
pub fn network_info(
    device_status: Option<&str>,
    configured: Option<&str>,
    radio: Option<&str>,
    wifi_list: Option<&str>,
    ip: Option<&str>,
) -> (r: NetworkInfo)
    ensures
        network_view(r) == match device_status {
            None => unavailable_view("unavailable"@),
            Some(out) => {
                let rows = terse_rows(out@);
                let conf = match configured {
                    Some(c) => Some(c@),
                    None => None,
                };
                if !has_wifi(rows, conf) {
                    unavailable_view("unavailable"@)
                } else if connected_interface(rows, conf) is None {
                    unavailable_view(
                        match radio {
                            Some(t) if t@ == "disabled"@ => "disabled"@,
                            _ => "disconnected"@,
                        },
                    )
                } else {
                    match wifi_list {
                        None => unavailable_view("unavailable"@),
                        Some(list) => connected_view(
                            list@,
                            match ip {
                                Some(a) => a@,
                                None => Seq::empty(),
                            },
                        ),
                    }
                }
            },
        },
{
    let out = match device_status {
        Some(o) => o,
        None => return unavailable_network("unavailable"),
    };
    match wifi_device(out, configured) {
        WifiDevice::Missing => unavailable_network("unavailable"),
        WifiDevice::Disconnected => unavailable_network(radio_status(radio)),
        WifiDevice::Connected(_) => match wifi_list {
            None => unavailable_network("unavailable"),
            Some(list) => {
                let address = match ip {
                    Some(a) => a,
                    None => "",
                };
                proof {
                    reveal_strlit("");
                }
                connected_network(list, address)
            },
        },
    }
}

/// The backlight level: the current brightness as a percentage of the
/// maximum (at least 1), capped at 100, with its icon.
pub open spec fn brightness_spec(max: Option<u64>, current: Option<u64>) -> Option<(u8, Seq<char>)> {
    match (max, current) {
        (Some(m), Some(c)) => {
            let scaled = if c * 100 > u64::MAX {
                u64::MAX as int
            } else {
                c * 100
            };
            let divisor = if m < 1 {
                1
            } else {
                m as int
            };
            let p = if scaled / divisor > 100 {
                100
            } else {
                scaled / divisor
            };
            Some(
                (
                    p as u8,
                    if p <= 15 {
                        "󰃞"@
                    } else if p <= 50 {
                        "󰃝"@
                    } else {
                        "󰃟"@
                    },
                ),
            )
        },
        _ => None,
    }
}

/// The backlight level from the `max_brightness` and `brightness` files of
/// a device, as read.
pub fn brightness_level(max_text: &Option<String>, current_text: &Option<String>) -> (r: Option<
    (u8, &'static str),
>)
    ensures
        match r {
            Some((p, icon)) => brightness_spec(reading(*max_text), reading(*current_text)) == Some(
                (p, icon@),
            ),
            None => brightness_spec(reading(*max_text), reading(*current_text)) is None,
        },
{
    let max = match read_number(max_text) {
        Some(m) => m,
        None => return None,
    };
    let current = match read_number(current_text) {
        Some(c) => c,
        None => return None,
    };
    let scaled: u64 = if current > u64::MAX / 100 {
        u64::MAX
    } else {
        current * 100
    };
    let divisor = if max < 1 {
        1
    } else {
        max
    };
    let quotient = scaled / divisor;
    let percent: u8 = if quotient > 100 {
        100
    } else {
        quotient as u8
    };
    let icon = if percent <= 15 {
        "󰃞"
    } else if percent <= 50 {
        "󰃝"
    } else {
        "󰃟"
    };
    Some((percent, icon))
}

/// The `KEY=value` properties of a udev event, as text.
pub open spec fn properties_view(props: Seq<(String, String)>) -> Seq<(Seq<char>, Seq<char>)> {
    props.map_values(|kv: (String, String)| (kv.0@, kv.1@))
}

/// Whether the properties hold `key` with `value`.
pub open spec fn has_property(props: Seq<(Seq<char>, Seq<char>)>, key: Seq<char>, value: Seq<char>) -> bool {
    exists|i: int| 0 <= i < props.len() && #[trigger] props[i] == (key, value)
}

/// The value of the first property named `key`.
pub open spec fn property(props: Seq<(Seq<char>, Seq<char>)>, key: Seq<char>) -> Option<Seq<char>>
    decreases props.len(),
{
    if props.len() == 0 {
        None
    } else if props[0].0 == key {
        Some(props[0].1)
    } else {
        property(props.drop_first(), key)
    }
}

/// The name of a USB device: its model from the database, else its model,
/// else its product id, else "USB device"; underscores read as spaces.
pub open spec fn usb_name(props: Seq<(Seq<char>, Seq<char>)>) -> Seq<char> {
    let raw = match property(props, "ID_MODEL_FROM_DATABASE"@) {
        Some(v) => v,
        None => match property(props, "ID_MODEL"@) {
            Some(v) => v,
            None => match property(props, "PRODUCT"@) {
                Some(v) => v,
                None => "USB device"@,
            },
        },
    };
    crate::text::replaced(raw, '_', ' ')
}

/// A USB device added (`true`) or removed, with its name; nothing for
/// other subsystems, USB interfaces and other actions.
pub open spec fn usb_event(props: Seq<(Seq<char>, Seq<char>)>) -> Option<(bool, Seq<char>)> {
    if property(props, "SUBSYSTEM"@) != Some("usb"@) || property(props, "DEVTYPE"@) != Some(
        "usb_device"@,
    ) {
        None
    } else {
        match property(props, "ACTION"@) {
            Some(a) => if a == "add"@ {
                Some((true, usb_name(props)))
            } else if a == "remove"@ {
                Some((false, usb_name(props)))
            } else {
                None
            },
            None => None,
        }
    }
}

/// The event of a block of udev properties: a power-supply change, a
/// backlight change, a USB device, or nothing.
pub open spec fn device_event(props: Seq<(Seq<char>, Seq<char>)>) -> Option<(int, bool, Seq<char>)> {
    if has_property(props, "SUBSYSTEM"@, "power_supply"@) {
        Some((2, false, Seq::empty()))
    } else if has_property(props, "SUBSYSTEM"@, "backlight"@) && has_property(
        props,
        "ACTION"@,
        "change"@,
    ) {
        Some((1, false, Seq::empty()))
    } else {
        match usb_event(props) {
            Some((connected, name)) => Some((0, connected, name)),
            None => None,
        }
    }
}

/// A [`DeviceEvent`] as (kind, connected, name): 0 for a peripheral, 1 for
/// brightness, 2 for power.
pub open spec fn event_view(e: DeviceEvent) -> (int, bool, Seq<char>) {
    match e {
        DeviceEvent::Peripheral(connected, name) => (0, connected, name@),
        DeviceEvent::Brightness => (1, false, Seq::empty()),
        DeviceEvent::Power => (2, false, Seq::empty()),
    }
}

fn find_property<'a>(props: &'a [(String, String)], key: &str) -> (r: Option<&'a str>)
    ensures
        match r {
            Some(v) => property(properties_view(props@), key@) == Some(v@),
            None => property(properties_view(props@), key@) is None,
        },
{
    let ghost pv = properties_view(props@);
    let mut i: usize = 0;
    assert(pv.skip(0) =~= pv);
    while i < props.len()
        invariant
            pv == properties_view(props@),
            i <= props@.len(),
            property(pv, key@) == property(pv.skip(i as int), key@),
        decreases props@.len() - i,
    {
        assert(pv.skip(i as int).drop_first() =~= pv.skip(i + 1));
        assert(pv.skip(i as int)[0] == pv[i as int]);
        assert(pv[i as int] == (props@[i as int].0@, props@[i as int].1@));
        if crate::text::text_eq(props[i].0.as_str(), key) {
            return Some(props[i].1.as_str());
        }
        i += 1;
    }
    assert(pv.skip(props@.len() as int).len() == 0);
    None
}

fn holds_property(props: &[(String, String)], key: &str, value: &str) -> (r: bool)
    ensures
        r == has_property(properties_view(props@), key@, value@),
{
    let ghost pv = properties_view(props@);
    let mut i: usize = 0;
    while i < props.len()
        invariant
            pv == properties_view(props@),
            i <= props@.len(),
            forall|k: int| 0 <= k < i ==> #[trigger] pv[k] != (key@, value@),
        decreases props@.len() - i,
    {
        assert(pv[i as int] == (props@[i as int].0@, props@[i as int].1@));
        if crate::text::text_eq(props[i].0.as_str(), key) && crate::text::text_eq(
            props[i].1.as_str(),
            value,
        ) {
            return true;
        }
        i += 1;
    }
    false
}

/// The USB device event of a block of udev properties (see [`usb_event`]).
pub fn parse_udev_usb_event(properties: &[(String, String)]) -> (r: Option<(bool, String)>)
    ensures
        match r {
            Some((connected, name)) => usb_event(properties_view(properties@)) == Some(
                (connected, name@),
            ),
            None => usb_event(properties_view(properties@)) is None,
        },
{
    let ghost pv = properties_view(properties@);
    let subsystem = find_property(properties, "SUBSYSTEM");
    let devtype = find_property(properties, "DEVTYPE");
    proof {
        reveal_strlit("usb");
        reveal_strlit("usb_device");
    }
    let usb = match subsystem {
        Some(v) => crate::text::text_eq(v, "usb"),
        None => false,
    };
    let device = match devtype {
        Some(v) => crate::text::text_eq(v, "usb_device"),
        None => false,
    };
    if !usb || !device {
        return None;
    }
    let connected = match find_property(properties, "ACTION") {
        Some(a) => if crate::text::text_eq(a, "add") {
            true
        } else if crate::text::text_eq(a, "remove") {
            false
        } else {
            return None;
        },
        None => return None,
    };
    let raw = match find_property(properties, "ID_MODEL_FROM_DATABASE") {
        Some(v) => v,
        None => match find_property(properties, "ID_MODEL") {
            Some(v) => v,
            None => match find_property(properties, "PRODUCT") {
                Some(v) => v,
                None => "USB device",
            },
        },
    };
    Some((connected, crate::text::replace_char(raw, '_', ' ')))
}

/// The event of a block of udev properties (see [`device_event`]).
pub fn parse_device_event(properties: &[(String, String)]) -> (r: Option<DeviceEvent>)
    ensures
        match r {
            Some(e) => device_event(properties_view(properties@)) == Some(event_view(e)),
            None => device_event(properties_view(properties@)) is None,
        },
{
    if holds_property(properties, "SUBSYSTEM", "power_supply") {
        return Some(DeviceEvent::Power);
    }
    if holds_property(properties, "SUBSYSTEM", "backlight") && holds_property(
        properties,
        "ACTION",
        "change",
    ) {
        return Some(DeviceEvent::Brightness);
    }
    match parse_udev_usb_event(properties) {
        Some((connected, name)) => Some(DeviceEvent::Peripheral(connected, name)),
        None => None,
    }
}

/// Whether a battery reports itself as the battery of a peripheral.
pub open spec fn device_scope(scope: Option<String>) -> bool {
    trimmed_or_empty(scope) == "Device"@ && scope is Some
}

/// The test for a battery that is not a peripheral's.
pub open spec fn own_battery() -> spec_fn((String, Option<String>)) -> bool {
    |b: (String, Option<String>)| !device_scope(b.1)
}

/// The battery to show among the batteries of the power-supply class,
/// listed with the contents of their `scope` files: the configured one, or
/// else the first by name that is not a peripheral's.
pub open spec fn battery_choice(
    configured: Option<Seq<char>>,
    batteries: Seq<(String, Option<String>)>,
    order: Seq<usize>,
) -> Option<Seq<char>> {
    match configured {
        Some(name) => Some(name),
        None => {
            let sorted = crate::order::permuted(batteries, order);
            match crate::text::first_where(sorted, own_battery()) {
                Some(i) => Some(sorted[i].0@),
                None => None,
            }
        },
    }
}

/// The names of entries, as keys for ordering by name.
pub open spec fn name_keys(entries: Seq<(String, Option<String>)>) -> Seq<Seq<u32>> {
    entries.map_values(|e: (String, Option<String>)| crate::order::text_key(e.0@))
}

fn name_order(entries: &Vec<(String, Option<String>)>) -> (r: Vec<usize>)
    ensures
        crate::order::is_stable_order(name_keys(entries@), r@),
{
    let mut keys: Vec<Vec<u32>> = Vec::new();
    let mut i: usize = 0;
    while i < entries.len()
        invariant
            i <= entries@.len(),
            keys@.len() == i,
            forall|k: int|
                0 <= k < i ==> (#[trigger] keys@[k])@ == crate::order::text_key(entries@[k].0@),
        decreases entries@.len() - i,
    {
        keys.push(crate::order::key_of_text(entries[i].0.as_str()));
        i += 1;
    }
    assert(keys@.map_values(|k: Vec<u32>| k@) =~= name_keys(entries@));
    crate::order::stable_order(&keys)
}

/// The battery to show (see [`battery_choice`]).
pub fn pick_battery(configured: Option<&str>, batteries: &Vec<(String, Option<String>)>) -> (r:
    Option<String>)
    ensures
        exists|order: Seq<usize>|
            #[trigger] crate::order::is_stable_order(name_keys(batteries@), order)
                && crate::text::opt_view(r) == battery_choice(
                crate::text::opt_str(configured),
                batteries@,
                order,
            ),
{
    let order = name_order(batteries);
    if let Some(name) = configured {
        return Some(crate::text::owned(name));
    }
    let ghost sorted = crate::order::permuted(batteries@, order@);
    let ghost p = own_battery();
    let mut k: usize = 0;
    while k < order.len()
        invariant
            configured is None,
            crate::order::is_stable_order(name_keys(batteries@), order@),
            crate::order::is_permutation(order@, batteries@.len()),
            sorted == crate::order::permuted(batteries@, order@),
            p == own_battery(),
            k <= order@.len(),
            forall|j: int| 0 <= j < k ==> !p(#[trigger] sorted[j]),
        decreases order@.len() - k,
    {
        let b = &batteries[order[k]];
        assert(sorted[k as int] == *b);
        let scope = trimmed_text(&b.1);
        proof {
            reveal_strlit("Device");
        }
        if !(b.1.is_some() && crate::text::text_eq(scope.as_str(), "Device")) {
            proof {
                crate::text::lemma_first_where(sorted, p, k as int);
            }
            return Some(crate::text::owned(b.0.as_str()));
        }
        k += 1;
    }
    proof {
        crate::text::lemma_first_where(sorted, p, k as int);
    }
    None
}

/// The rank of a backlight by its type: raw firmware controls first, then
/// platform ones, then the rest.
pub open spec fn backlight_rank(kind: Option<String>) -> u32 {
    let k = trimmed_or_empty(kind);
    if k == "raw"@ {
        0
    } else if k == "platform"@ {
        1
    } else {
        2
    }
}

/// Backlights are ordered by rank, then by name.
pub open spec fn backlight_keys(devices: Seq<(String, Option<String>)>) -> Seq<Seq<u32>> {
    devices.map_values(
        |e: (String, Option<String>)| seq![backlight_rank(e.1)] + crate::order::text_key(e.0@),
    )
}

/// The backlight to control among the devices of the backlight class,
/// listed with the contents of their `type` files: the configured one, or
/// else the first by rank and name.
pub fn pick_backlight(configured: Option<&str>, devices: &Vec<(String, Option<String>)>) -> (r:
    Option<String>)
    ensures
        configured is Some ==> crate::text::opt_view(r) == crate::text::opt_str(configured),
        configured is None ==> exists|order: Seq<usize>|
            #[trigger] crate::order::is_stable_order(backlight_keys(devices@), order)
                && crate::text::opt_view(r) == if devices@.len() == 0 {
                None
            } else {
                Some(devices@[order[0] as int].0@)
            },
{
    if let Some(name) = configured {
        return Some(crate::text::owned(name));
    }
    let mut keys: Vec<Vec<u32>> = Vec::new();
    let mut i: usize = 0;
    while i < devices.len()
        invariant
            i <= devices@.len(),
            keys@.len() == i,
            forall|k: int|
                0 <= k < i ==> (#[trigger] keys@[k])@ == seq![backlight_rank(devices@[k].1)]
                    + crate::order::text_key(devices@[k].0@),
        decreases devices@.len() - i,
    {
        let kind = trimmed_text(&devices[i].1);
        proof {
            reveal_strlit("raw");
            reveal_strlit("platform");
        }
        let rank: u32 = if crate::text::text_eq(kind.as_str(), "raw") {
            0
        } else if crate::text::text_eq(kind.as_str(), "platform") {
            1
        } else {
            2
        };
        let mut key = crate::order::key_of_text(devices[i].0.as_str());
        key.insert(0, rank);
        assert(key@ =~= seq![backlight_rank(devices@[i as int].1)] + crate::order::text_key(
            devices@[i as int].0@,
        ));
        keys.push(key);
        i += 1;
    }
    assert(keys@.map_values(|k: Vec<u32>| k@) =~= backlight_keys(devices@));
    let order = crate::order::stable_order(&keys);
    if devices.len() == 0 {
        return None;
    }
    Some(crate::text::owned(devices[order[0]].0.as_str()))
}

/// Where the temperature is read: a thermal zone or a hardware monitor,
/// by position in the listings.
#[derive(Clone, Copy, Debug, PartialEq, Eq, Structural)]
pub enum SensorChoice {
    Zone(usize),
    Monitor(usize),
    Nothing,
}

/// Whether an entry of the thermal class is a thermal zone.
pub open spec fn is_zone(name: Seq<char>) -> bool {
    name.len() >= 12 && name.subrange(0, 12) == "thermal_zone"@
}

/// Whether a hardware monitor is a known CPU sensor with a temperature
/// input.
pub open spec fn cpu_monitor(name: Option<String>, has_input: bool) -> bool {
    has_input && match name {
        Some(n) => {
            let t = trimmed(n@);
            t == "coretemp"@ || t == "k10temp"@ || t == "zenpower"@ || t == "cpu_thermal"@
        },
        None => false,
    }
}

/// The test for a package-temperature zone.
pub open spec fn package_zone() -> spec_fn((String, Option<String>)) -> bool {
    |z: (String, Option<String>)|
        is_zone(z.0@) && trimmed_or_empty(z.1) == "x86_pkg_temp"@ && z.1 is Some
}

/// The test for a thermal zone.
pub open spec fn any_zone() -> spec_fn((String, Option<String>)) -> bool {
    |z: (String, Option<String>)| is_zone(z.0@)
}

/// The test for a CPU monitor.
pub open spec fn cpu_sensor() -> spec_fn((Option<String>, bool)) -> bool {
    |m: (Option<String>, bool)| cpu_monitor(m.0, m.1)
}

/// The sensor to read, from the thermal-class entries in listing order
/// (with their `type` files) and the hardware monitors (with their `name`
/// files and whether they have a first temperature input): the first
/// package-temperature zone, else the first CPU monitor, else the first
/// zone.
pub open spec fn sensor_choice(
    zones: Seq<(String, Option<String>)>,
    monitors: Seq<(Option<String>, bool)>,
) -> SensorChoice {
    match crate::text::first_where(zones, package_zone()) {
        Some(i) => SensorChoice::Zone(i as usize),
        None => match crate::text::first_where(monitors, cpu_sensor()) {
            Some(i) => SensorChoice::Monitor(i as usize),
            None => match crate::text::first_where(zones, any_zone()) {
                Some(i) => SensorChoice::Zone(i as usize),
                None => SensorChoice::Nothing,
            },
        },
    }
}

fn zone_entry(name: &str) -> (r: bool)
    ensures
        r == is_zone(name@),
{
    proof {
        reveal_strlit("thermal_zone");
    }
    crate::text::starts_with_text(name, "thermal_zone")
}

/// The sensor to read (see [`sensor_choice`]).
pub fn pick_sensor(zones: &Vec<(String, Option<String>)>, monitors: &Vec<(Option<String>, bool)>) -> (r:
    SensorChoice)
    ensures
        r == sensor_choice(zones@, monitors@),
{
    let ghost package = package_zone();
    let ghost zone = any_zone();
    let ghost cpu = cpu_sensor();
    let mut fallback: Option<usize> = None;
    let mut i: usize = 0;
    while i < zones.len()
        invariant
            package == package_zone(),
            zone == any_zone(),
            i <= zones@.len(),
            forall|k: int| 0 <= k < i ==> !package(#[trigger] zones@[k]),
            match fallback {
                Some(f) => f < i && zone(zones@[f as int]) && forall|k: int|
                    0 <= k < f ==> !zone(#[trigger] zones@[k]),
                None => forall|k: int| 0 <= k < i ==> !zone(#[trigger] zones@[k]),
            },
        decreases zones@.len() - i,
    {
        let z = &zones[i];
        if zone_entry(z.0.as_str()) {
            let kind = trimmed_text(&z.1);
            proof {
                reveal_strlit("x86_pkg_temp");
            }
            if z.1.is_some() && crate::text::text_eq(kind.as_str(), "x86_pkg_temp") {
                proof {
                    crate::text::lemma_first_where(zones@, package, i as int);
                }
                return SensorChoice::Zone(i);
            }
            if fallback.is_none() {
                fallback = Some(i);
            }
        }
        i += 1;
    }
    proof {
        crate::text::lemma_first_where(zones@, package, i as int);
    }
    let mut m: usize = 0;
    while m < monitors.len()
        invariant
            cpu == cpu_sensor(),
            zone == any_zone(),
            crate::text::first_where(zones@, package_zone()) is None,
            match fallback {
                Some(f) => f < zones@.len() && zone(zones@[f as int]) && forall|k: int|
                    0 <= k < f ==> !zone(#[trigger] zones@[k]),
                None => forall|k: int| 0 <= k < zones@.len() ==> !zone(#[trigger] zones@[k]),
            },
            m <= monitors@.len(),
            forall|k: int| 0 <= k < m ==> !cpu(#[trigger] monitors@[k]),
        decreases monitors@.len() - m,
    {
        let entry = &monitors[m];
        let hit = entry.1 && match &entry.0 {
            Some(n) => {
                let t = crate::text::trim(n.as_str());
                crate::text::text_eq(t.as_str(), "coretemp") || crate::text::text_eq(
                    t.as_str(),
                    "k10temp",
                ) || crate::text::text_eq(t.as_str(), "zenpower") || crate::text::text_eq(
                    t.as_str(),
                    "cpu_thermal",
                )
            },
            None => false,
        };
        if hit {
            proof {
                crate::text::lemma_first_where(monitors@, cpu, m as int);
            }
            return SensorChoice::Monitor(m);
        }
        m += 1;
    }
    proof {
        crate::text::lemma_first_where(monitors@, cpu, m as int);
    }
    match fallback {
        Some(f) => {
            proof {
                crate::text::lemma_first_where(zones@, zone, f as int);
            }
            SensorChoice::Zone(f)
        },
        None => {
            proof {
                crate::text::lemma_first_where(zones@, zone, zones@.len() as int);
            }
            SensorChoice::Nothing
        },
    }
}

} // verus!
