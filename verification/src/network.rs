//! Wi-Fi networks as NetworkManager describes them.
//!
//! The bus calls are made by the caller, which hands over what it read;
//! this module decides which adapter to show, merges the access points
//! that share a network name, attaches the saved profiles, orders the list,
//! and checks a connection request before it is sent.

use vstd::prelude::*;
use vstd::string::*;
use crate::order::{is_stable_order, permuted, text_key};
use crate::text::{first_where, joined, lossy_text, lowercase, opt_str, opt_view};

verus! {

/// The security of a network.
#[derive(Clone, Copy, Debug, PartialEq, Eq, Structural)]
pub enum Security {
    Open,
    Personal,
    Sae,
    Enhanced,
    Enterprise,
    Legacy,
}

/// The label of a security kind.
pub open spec fn security_label(s: Security) -> Seq<char> {
    match s {
        Security::Open => "Open network"@,
        Security::Personal => "WPA / WPA2 Personal"@,
        Security::Sae => "WPA3 Personal"@,
        Security::Enhanced => "Enhanced Open"@,
        Security::Enterprise => "Enterprise"@,
        Security::Legacy => "WEP / legacy security"@,
    }
}

impl Security {
    /// The label shown for this security.
    pub fn label(self) -> (r: &'static str)
        ensures
            r@ == security_label(self),
    {
        match self {
            Security::Open => "Open network",
            Security::Personal => "WPA / WPA2 Personal",
            Security::Sae => "WPA3 Personal",
            Security::Enhanced => "Enhanced Open",
            Security::Enterprise => "Enterprise",
            Security::Legacy => "WEP / legacy security",
        }
    }

    /// Whether joining asks for a password (WPA personal and WPA3).
    pub open spec fn needs_password(self) -> bool {
        self is Personal || self is Sae
    }

    /// Executable [`Security::needs_password`].
    pub fn password(self) -> (r: bool)
        ensures
            r == self.needs_password(),
    {
        match self {
            Security::Personal | Security::Sae => true,
            _ => false,
        }
    }

    /// Whether a new connection can be set up from here (all but
    /// enterprise and legacy networks).
    pub open spec fn is_supported(self) -> bool {
        !(self is Enterprise || self is Legacy)
    }

    /// Executable [`Security::is_supported`].
    pub fn supported(self) -> (r: bool)
        ensures
            r == self.is_supported(),
    {
        match self {
            Security::Enterprise | Security::Legacy => false,
            _ => true,
        }
    }

    /// Whether a profile of one security serves a network of the other:
    /// the same security, or two password kinds.
    pub open spec fn compatible_with(self, other: Security) -> bool {
        self == other || (self.needs_password() && other.needs_password())
    }

    /// Executable [`Security::compatible_with`].
    pub fn compatible(self, other: Security) -> (r: bool)
        ensures
            r == self.compatible_with(other),
    {
        self == other || (self.password() && other.password())
    }
}

/// A network of the list: seen by an access point, saved as a profile, or
/// both.
#[derive(Clone, Debug, PartialEq, Eq)]
pub struct Network {
    pub ssid: Vec<u8>,
    pub name: String,
    pub access_point: String,
    pub profile: Option<String>,
    pub security: Security,
    pub strength: Option<u8>,
    pub frequency: u32,
    pub active: bool,
    pub hidden: bool,
}

/// A [`Network`] with its texts as character sequences.
pub struct NetworkModel {
    pub ssid: Seq<u8>,
    pub name: Seq<char>,
    pub access_point: Seq<char>,
    pub profile: Option<Seq<char>>,
    pub security: Security,
    pub strength: Option<u8>,
    pub frequency: u32,
    pub active: bool,
    pub hidden: bool,
}

impl View for Network {
    type V = NetworkModel;

    open spec fn view(&self) -> NetworkModel {
        NetworkModel {
            ssid: self.ssid@,
            name: self.name@,
            access_point: self.access_point@,
            profile: opt_view(self.profile),
            security: self.security,
            strength: self.strength,
            frequency: self.frequency,
            active: self.active,
            hidden: self.hidden,
        }
    }
}

/// The models of a list of networks.
pub open spec fn networks_view(n: Seq<Network>) -> Seq<NetworkModel> {
    n.map_values(|x: Network| x@)
}

/// A Wi-Fi adapter: its bus object and interface name.
#[derive(Clone, Debug, PartialEq, Eq)]
pub struct Adapter {
    pub path: String,
    pub name: String,
}

/// The texts of an adapter.
pub open spec fn adapter_view(a: Adapter) -> (Seq<char>, Seq<char>) {
    (a.path@, a.name@)
}

/// What the Wi-Fi menu shows.
#[derive(Clone, Debug, PartialEq, Eq)]
pub struct Snapshot {
    pub enabled: bool,
    pub hardware_enabled: bool,
    pub adapters: Vec<Adapter>,
    pub device: Option<Adapter>,
    pub networks: Vec<Network>,
    pub address: String,
}

/// A network device as the bus lists it.
#[derive(Clone, Debug, PartialEq, Eq)]
pub struct DeviceReading {
    pub path: String,
    pub interface: String,
    /// NetworkManager's device type; 2 is Wi-Fi.
    pub device_type: u32,
    /// NetworkManager's device state; 100 is activated.
    pub state: u32,
}

/// An access point as the bus describes it.
#[derive(Clone, Debug, PartialEq, Eq)]
pub struct AccessPointReading {
    pub path: String,
    pub ssid: Vec<u8>,
    pub wpa_flags: u32,
    pub rsn_flags: u32,
    pub flags: u32,
    pub strength: u8,
    pub frequency: u32,
}

/// A saved connection profile, as far as the list needs it.
#[derive(Clone, Debug, PartialEq, Eq)]
pub struct ProfileReading {
    pub path: String,
    /// Whether the profile has a Wi-Fi section.
    pub wireless: bool,
    pub mode: String,
    pub ssid: Vec<u8>,
    pub hidden: bool,
    /// The interface the profile is bound to; empty when unbound.
    pub interface_name: String,
    /// The key management of the security section, if it has one.
    pub key_mgmt: Option<String>,
}

/// The security an access point advertises by its WPA, RSN and privacy
/// flags.
pub open spec fn ap_security_spec(wpa_flags: u32, rsn_flags: u32, flags: u32) -> Security {
    let f = wpa_flags | rsn_flags;
    if f & 0x200 != 0 || f & 0x2000 != 0 {
        Security::Enterprise
    } else if f & 0x100 != 0 {
        Security::Personal
    } else if f & 0x400 != 0 {
        Security::Sae
    } else if f & 0x1800 != 0 {
        Security::Enhanced
    } else if flags & 1 != 0 {
        Security::Legacy
    } else {
        Security::Open
    }
}

/// Executable [`ap_security_spec`].
pub fn ap_security(wpa_flags: u32, rsn_flags: u32, flags: u32) -> (r: Security)
    ensures
        r == ap_security_spec(wpa_flags, rsn_flags, flags),
{
    let f = wpa_flags | rsn_flags;
    if f & 0x200 != 0 || f & 0x2000 != 0 {
        Security::Enterprise
    } else if f & 0x100 != 0 {
        Security::Personal
    } else if f & 0x400 != 0 {
        Security::Sae
    } else if f & 0x1800 != 0 {
        Security::Enhanced
    } else if flags & 1 != 0 {
        Security::Legacy
    } else {
        Security::Open
    }
}

/// The security of a saved profile by its key management.
pub open spec fn profile_security_spec(key_mgmt: Option<Seq<char>>) -> Security {
    match key_mgmt {
        None => Security::Open,
        Some(k) => if k == "wpa-psk"@ {
            Security::Personal
        } else if k == "sae"@ {
            Security::Sae
        } else if k == "owe"@ {
            Security::Enhanced
        } else if k == "wpa-eap"@ || k == "wpa-eap-suite-b-192"@ || k == "ieee8021x"@ {
            Security::Enterprise
        } else {
            Security::Legacy
        },
    }
}

/// Executable [`profile_security_spec`].
pub fn profile_security(key_mgmt: Option<&str>) -> (r: Security)
    ensures
        r == profile_security_spec(match key_mgmt {
            Some(k) => Some(k@),
            None => None,
        }),
{
    match key_mgmt {
        None => Security::Open,
        Some(k) => if crate::text::text_eq(k, "wpa-psk") {
            Security::Personal
        } else if crate::text::text_eq(k, "sae") {
            Security::Sae
        } else if crate::text::text_eq(k, "owe") {
            Security::Enhanced
        } else if crate::text::text_eq(k, "wpa-eap") || crate::text::text_eq(
            k,
            "wpa-eap-suite-b-192",
        ) || crate::text::text_eq(k, "ieee8021x") {
            Security::Enterprise
        } else {
            Security::Legacy
        },
    }
}

/// Whether one signal strength beats another (a known strength beats an
/// unknown one).
pub open spec fn stronger(a: Option<u8>, b: Option<u8>) -> bool {
    match (a, b) {
        (Some(x), Some(y)) => x > y,
        (Some(_), None) => true,
        _ => false,
    }
}

/// The network an access point shows.
pub open spec fn ap_network(ap: AccessPointReading, active_ap: Seq<char>, connected: bool) -> NetworkModel {
    NetworkModel {
        ssid: ap.ssid@,
        name: lossy_text(ap.ssid@),
        access_point: ap.path@,
        profile: None,
        security: ap_security_spec(ap.wpa_flags, ap.rsn_flags, ap.flags),
        strength: Some(ap.strength),
        frequency: ap.frequency,
        active: ap.path@ == active_ap && connected,
        hidden: false,
    }
}

/// The position of the network with a name and security.
pub open spec fn same_network(nets: Seq<NetworkModel>, ssid: Seq<u8>, security: Security) -> Option<
    int,
> {
    first_where(nets, |m: NetworkModel| m.ssid == ssid && m.security == security)
}

/// Adds an access point's network: it replaces the entry of the same name
/// and security when it is the active one or the entry is inactive and
/// weaker; a new name and security is appended.
pub open spec fn merge_ap(nets: Seq<NetworkModel>, n: NetworkModel) -> Seq<NetworkModel> {
    match same_network(nets, n.ssid, n.security) {
        Some(i) => if n.active || (!nets[i].active && stronger(n.strength, nets[i].strength)) {
            nets.update(i, n)
        } else {
            nets
        },
        None => nets.push(n),
    }
}

/// The networks of the access points, in the order first seen; access
/// points without a name are left out.
pub open spec fn merged_aps(aps: Seq<AccessPointReading>, active_ap: Seq<char>, connected: bool) -> Seq<
    NetworkModel,
>
    decreases aps.len(),
{
    if aps.len() == 0 {
        Seq::empty()
    } else {
        let before = merged_aps(aps.drop_last(), active_ap, connected);
        let ap = aps.last();
        if ap.ssid@.len() == 0 {
            before
        } else {
            merge_ap(before, ap_network(ap, active_ap, connected))
        }
    }
}

fn same_network_index(nets: &Vec<Network>, ssid: &Vec<u8>, security: Security) -> (r: Option<
    usize,
>)
    ensures
        match r {
            Some(i) => same_network(networks_view(nets@), ssid@, security) == Some(i as int),
            None => same_network(networks_view(nets@), ssid@, security) is None,
        },
{
    let ghost nv = networks_view(nets@);
    let ghost p = |m: NetworkModel| m.ssid == ssid@ && m.security == security;
    let mut i: usize = 0;
    while i < nets.len()
        invariant
            nv == networks_view(nets@),
            p == (|m: NetworkModel| m.ssid == ssid@ && m.security == security),
            i <= nets@.len(),
            forall|k: int| 0 <= k < i ==> !p(#[trigger] nv[k]),
        decreases nets@.len() - i,
    {
        assert(nv[i as int] == nets@[i as int]@);
        if crate::text::bytes_eq(nets[i].ssid.as_slice(), ssid.as_slice()) && nets[i].security
            == security {
            proof {
                crate::text::lemma_first_where(nv, p, i as int);
            }
            return Some(i);
        }
        i += 1;
    }
    proof {
        crate::text::lemma_first_where(nv, p, i as int);
    }
    None
}

fn copy_bytes(b: &Vec<u8>) -> (r: Vec<u8>)
    ensures
        r@ == b@,
{
    let mut out: Vec<u8> = Vec::new();
    let mut i: usize = 0;
    while i < b.len()
        invariant
            i <= b@.len(),
            out@ == b@.take(i as int),
        decreases b@.len() - i,
    {
        out.push(b[i]);
        i += 1;
        assert(out@ =~= b@.take(i as int));
    }
    assert(b@.take(b@.len() as int) =~= b@);
    out
}

/// The networks of the access points (see [`merged_aps`]).
pub fn merge_access_points(aps: &Vec<AccessPointReading>, active_ap: &str, connected: bool) -> (r: Vec<
    Network,
>)
    ensures
        networks_view(r@) == merged_aps(aps@, active_ap@, connected),
{
    let mut nets: Vec<Network> = Vec::new();
    let mut i: usize = 0;
    assert(networks_view(nets@) =~= merged_aps(aps@.take(0), active_ap@, connected));
    while i < aps.len()
        invariant
            i <= aps@.len(),
            networks_view(nets@) == merged_aps(aps@.take(i as int), active_ap@, connected),
        decreases aps@.len() - i,
    {
        let ghost before = networks_view(nets@);
        assert(aps@.take(i + 1).drop_last() =~= aps@.take(i as int));
        assert(aps@.take(i + 1).last() == aps@[i as int]);
        let ap = &aps[i];
        if ap.ssid.len() > 0 {
            let network = Network {
                ssid: copy_bytes(&ap.ssid),
                name: crate::text::from_utf8_lossy(ap.ssid.as_slice()),
                access_point: crate::text::owned(ap.path.as_str()),
                profile: None,
                security: ap_security(ap.wpa_flags, ap.rsn_flags, ap.flags),
                strength: Some(ap.strength),
                frequency: ap.frequency,
                active: crate::text::text_eq(ap.path.as_str(), active_ap) && connected,
                hidden: false,
            };
            let ghost n = network@;
            assert(n == ap_network(*ap, active_ap@, connected));
            match same_network_index(&nets, &network.ssid, network.security) {
                Some(j) => {
                    proof {
                        crate::text::lemma_first_where_found(
                            before,
                            |m: NetworkModel| m.ssid == n.ssid && m.security == n.security,
                        );
                    }
                    assert(nets@[j as int]@ == before[j as int]);
                    let replace = network.active || (!nets[j].active && match nets[j].strength {
                        Some(s) => ap.strength > s,
                        None => true,
                    });
                    if replace {
                        nets.set(j, network);
                        assert(networks_view(nets@) =~= before.update(j as int, n));
                    }
                },
                None => {
                    nets.push(network);
                    assert(networks_view(nets@) =~= before.push(n));
                },
            }
        }
        i += 1;
    }
    assert(aps@.take(aps@.len() as int) =~= aps@);
    nets
}

/// Whether a saved profile belongs in the list of a device: a Wi-Fi
/// profile with a name, not an access-point profile, and bound to no
/// interface or to this one.
pub open spec fn profile_usable(p: ProfileReading, device: Seq<char>) -> bool {
    &&& p.wireless
    &&& p.mode@ != "ap"@
    &&& p.interface_name@.len() == 0 || p.interface_name@ == device
    &&& p.ssid@.len() > 0
}

/// The position of the first network a profile can be attached to: same
/// name, compatible security, no profile yet.
pub open spec fn profile_slot(nets: Seq<NetworkModel>, ssid: Seq<u8>, security: Security) -> Option<
    int,
> {
    first_where(
        nets,
        |m: NetworkModel| m.ssid == ssid && m.security.compatible_with(security) && m.profile is None,
    )
}

/// Attaches a saved profile to its network, or lists it as a saved
/// network out of range.
pub open spec fn attach_profile(
    nets: Seq<NetworkModel>,
    p: ProfileReading,
    active_profile: Seq<char>,
    connected: bool,
) -> Seq<NetworkModel> {
    let security = profile_security_spec(opt_view(p.key_mgmt));
    match profile_slot(nets, p.ssid@, security) {
        Some(i) => nets.update(
            i,
            NetworkModel {
                ssid: nets[i].ssid,
                name: nets[i].name,
                access_point: nets[i].access_point,
                profile: Some(p.path@),
                security: nets[i].security,
                strength: nets[i].strength,
                frequency: nets[i].frequency,
                active: nets[i].active,
                hidden: p.hidden,
            },
        ),
        None => nets.push(
            NetworkModel {
                ssid: p.ssid@,
                name: lossy_text(p.ssid@),
                access_point: "/"@,
                profile: Some(p.path@),
                security,
                strength: None,
                frequency: 0,
                active: p.path@ == active_profile && connected,
                hidden: p.hidden,
            },
        ),
    }
}

/// Attaches, in order, the usable profiles that are (`active_first`) or
/// are not the active profile.
pub open spec fn attach_pass(
    nets: Seq<NetworkModel>,
    ps: Seq<ProfileReading>,
    device: Seq<char>,
    active_profile: Seq<char>,
    connected: bool,
    active_first: bool,
) -> Seq<NetworkModel>
    decreases ps.len(),
{
    if ps.len() == 0 {
        nets
    } else {
        let before = attach_pass(nets, ps.drop_last(), device, active_profile, connected, active_first);
        let p = ps.last();
        if (p.path@ == active_profile) == active_first && profile_usable(p, device) {
            attach_profile(before, p, active_profile, connected)
        } else {
            before
        }
    }
}

/// The saved profiles attached to the networks: the active profile first,
/// then the others in the order listed.
pub open spec fn with_profiles(
    nets: Seq<NetworkModel>,
    ps: Seq<ProfileReading>,
    device: Seq<char>,
    active_profile: Seq<char>,
    connected: bool,
) -> Seq<NetworkModel> {
    attach_pass(
        attach_pass(nets, ps, device, active_profile, connected, true),
        ps,
        device,
        active_profile,
        connected,
        false,
    )
}

fn profile_slot_index(nets: &Vec<Network>, ssid: &Vec<u8>, security: Security) -> (r: Option<usize>)
    ensures
        match r {
            Some(i) => profile_slot(networks_view(nets@), ssid@, security) == Some(i as int),
            None => profile_slot(networks_view(nets@), ssid@, security) is None,
        },
{
    let ghost nv = networks_view(nets@);
    let ghost p = |m: NetworkModel|
        m.ssid == ssid@ && m.security.compatible_with(security) && m.profile is None;
    let mut i: usize = 0;
    while i < nets.len()
        invariant
            nv == networks_view(nets@),
            p == (|m: NetworkModel|
                m.ssid == ssid@ && m.security.compatible_with(security) && m.profile is None),
            i <= nets@.len(),
            forall|k: int| 0 <= k < i ==> !p(#[trigger] nv[k]),
        decreases nets@.len() - i,
    {
        assert(nv[i as int] == nets@[i as int]@);
        if crate::text::bytes_eq(nets[i].ssid.as_slice(), ssid.as_slice()) && nets[i].security.compatible(
            security,
        ) && nets[i].profile.is_none() {
            proof {
                crate::text::lemma_first_where(nv, p, i as int);
            }
            return Some(i);
        }
        i += 1;
    }
    proof {
        crate::text::lemma_first_where(nv, p, i as int);
    }
    None
}

fn copy_text(o: &Option<String>) -> (r: Option<String>)
    ensures
        opt_view(r) == opt_view(*o),
{
    match o {
        Some(t) => Some(crate::text::owned(t.as_str())),
        None => None,
    }
}

fn attach_pass_exec(
    nets: Vec<Network>,
    profiles: &Vec<ProfileReading>,
    device: &str,
    active_profile: &str,
    connected: bool,
    active_first: bool,
) -> (r: Vec<Network>)
    ensures
        networks_view(r@) == attach_pass(
            networks_view(nets@),
            profiles@,
            device@,
            active_profile@,
            connected,
            active_first,
        ),
{
    let ghost start = networks_view(nets@);
    let mut nets = nets;
    let mut i: usize = 0;
    assert(profiles@.take(0).len() == 0);
    while i < profiles.len()
        invariant
            i <= profiles@.len(),
            networks_view(nets@) == attach_pass(
                start,
                profiles@.take(i as int),
                device@,
                active_profile@,
                connected,
                active_first,
            ),
        decreases profiles@.len() - i,
    {
        let ghost before = networks_view(nets@);
        assert(profiles@.take(i + 1).drop_last() =~= profiles@.take(i as int));
        assert(profiles@.take(i + 1).last() == profiles@[i as int]);
        let p = &profiles[i];
        let is_active = crate::text::text_eq(p.path.as_str(), active_profile);
        let usable = p.wireless && !crate::text::text_eq(p.mode.as_str(), "ap") && (
        p.interface_name.unicode_len() == 0 || crate::text::text_eq(p.interface_name.as_str(), device))
            && p.ssid.len() > 0;
        if is_active == active_first && usable {
            let key = match &p.key_mgmt {
                Some(k) => Some(k.as_str()),
                None => None,
            };
            let security = profile_security(key);
            assert(security == profile_security_spec(opt_view(p.key_mgmt)));
            match profile_slot_index(&nets, &p.ssid, security) {
                Some(j) => {
                    proof {
                        crate::text::lemma_first_where_found(
                            before,
                            |m: NetworkModel|
                                m.ssid == p.ssid@ && m.security.compatible_with(security)
                                    && m.profile is None,
                        );
                    }
                    assert(nets@[j as int]@ == before[j as int]);
                    let old = &nets[j];
                    let updated = Network {
                        ssid: copy_bytes(&old.ssid),
                        name: crate::text::owned(old.name.as_str()),
                        access_point: crate::text::owned(old.access_point.as_str()),
                        profile: Some(crate::text::owned(p.path.as_str())),
                        security: old.security,
                        strength: old.strength,
                        frequency: old.frequency,
                        active: old.active,
                        hidden: p.hidden,
                    };
                    let ghost u = updated@;
                    nets.set(j, updated);
                    assert(networks_view(nets@) =~= attach_profile(
                        before,
                        *p,
                        active_profile@,
                        connected,
                    ));
                },
                None => {
                    let network = Network {
                        ssid: copy_bytes(&p.ssid),
                        name: crate::text::from_utf8_lossy(p.ssid.as_slice()),
                        access_point: crate::text::owned("/"),
                        profile: Some(crate::text::owned(p.path.as_str())),
                        security,
                        strength: None,
                        frequency: 0,
                        active: is_active && connected,
                        hidden: p.hidden,
                    };
                    nets.push(network);
                    assert(networks_view(nets@) =~= attach_profile(
                        before,
                        *p,
                        active_profile@,
                        connected,
                    ));
                },
            }
        }
        i += 1;
    }
    assert(profiles@.take(profiles@.len() as int) =~= profiles@);
    nets
}

/// The saved profiles attached to the networks (see [`with_profiles`]).
pub fn attach_profiles(
    nets: Vec<Network>,
    profiles: &Vec<ProfileReading>,
    device: &str,
    active_profile: &str,
    connected: bool,
) -> (r: Vec<Network>)
    ensures
        networks_view(r@) == with_profiles(
            networks_view(nets@),
            profiles@,
            device@,
            active_profile@,
            connected,
        ),
{
    let first = attach_pass_exec(nets, profiles, device, active_profile, connected, true);
    attach_pass_exec(first, profiles, device, active_profile, connected, false)
}

/// The sort key of a network: active first, then networks in range, by
/// falling strength, then by lowercase name.
pub open spec fn network_key(n: NetworkModel) -> Seq<u32> {
    seq![
        if n.active {
            0u32
        } else {
            1u32
        },
        if n.strength is Some {
            0u32
        } else {
            1u32
        },
        (255 - match n.strength {
            Some(s) => s as int,
            None => 0int,
        }) as u32,
    ] + text_key(lowercase(n.name))
}

/// The sort keys of a list of networks.
pub open spec fn network_keys(nets: Seq<NetworkModel>) -> Seq<Seq<u32>> {
    nets.map_values(|n: NetworkModel| network_key(n))
}

fn key_of_network(n: &Network) -> (r: Vec<u32>)
    ensures
        r@ == network_key(n@),
{
    let lower = crate::text::to_lowercase(n.name.as_str());
    let mut k = crate::order::key_of_text(lower.as_str());
    let strength: u8 = match n.strength {
        Some(s) => s,
        None => 0,
    };
    k.insert(0, (255 - strength) as u32);
    k.insert(0, if n.strength.is_some() { 0 } else { 1 });
    k.insert(0, if n.active { 0 } else { 1 });
    assert(k@ =~= network_key(n@));
    k
}

/// The list in display order: a stable sort by [`network_key`].
pub fn sort_networks(nets: Vec<Network>) -> (r: Vec<Network>)
    ensures
        exists|order: Seq<usize>|
            is_stable_order(network_keys(networks_view(nets@)), order) && networks_view(r@)
                == permuted(networks_view(nets@), order),
{
    let mut keys: Vec<Vec<u32>> = Vec::new();
    let mut i: usize = 0;
    while i < nets.len()
        invariant
            i <= nets@.len(),
            keys@.len() == i,
            forall|k: int| 0 <= k < i ==> (#[trigger] keys@[k])@ == network_key(nets@[k]@),
        decreases nets@.len() - i,
    {
        keys.push(key_of_network(&nets[i]));
        i += 1;
    }
    let ghost nv = networks_view(nets@);
    assert(keys@.map_values(|k: Vec<u32>| k@) =~= network_keys(nv));
    let order = crate::order::stable_order(&keys);
    let ghost given = nets@;
    let r = crate::order::apply_order(nets, &order);
    assert(networks_view(r@) =~= permuted(nv, order@));
    r
}

/// The Wi-Fi devices among the devices, in the order listed.
pub open spec fn wifi_list(devices: Seq<DeviceReading>) -> Seq<DeviceReading>
    decreases devices.len(),
{
    if devices.len() == 0 {
        Seq::empty()
    } else {
        let before = wifi_list(devices.drop_last());
        if devices.last().device_type == 2 {
            before.push(devices.last())
        } else {
            before
        }
    }
}

/// Devices are ordered by interface name.
pub open spec fn device_keys(devices: Seq<DeviceReading>) -> Seq<Seq<u32>> {
    devices.map_values(|d: DeviceReading| text_key(d.interface@))
}

/// The adapter of a device.
pub open spec fn device_adapter(d: DeviceReading) -> (Seq<char>, Seq<char>) {
    (d.path@, d.interface@)
}

/// The test for a device with an interface name.
pub open spec fn named_device(name: Seq<char>) -> spec_fn(DeviceReading) -> bool {
    |d: DeviceReading| d.interface@ == name
}

/// The test for an activated device.
pub open spec fn activated_device() -> spec_fn(DeviceReading) -> bool {
    |d: DeviceReading| d.state == 100
}

/// The adapter to show among the sorted Wi-Fi devices: the preferred one
/// by name, else the first activated one, else the first.
pub open spec fn chosen_index(sorted: Seq<DeviceReading>, preferred: Option<Seq<char>>) -> Option<int> {
    let named = match preferred {
        Some(name) => first_where(sorted, named_device(name)),
        None => None,
    };
    match named {
        Some(i) => Some(i),
        None => match first_where(sorted, activated_device()) {
            Some(i) => Some(i),
            None => if sorted.len() > 0 {
                Some(0)
            } else {
                None
            },
        },
    }
}

/// The Wi-Fi adapters in name order, and the one to show.
pub struct AdapterChoice {
    pub adapters: Vec<Adapter>,
    /// The position in `adapters` of the adapter to show.
    pub chosen: Option<usize>,
    /// Whether that adapter is activated.
    pub connected: bool,
}

/// Whether `c` lists the devices in the stable order `order` of
/// [`device_keys`] and makes the choice of [`chosen_index`].
pub open spec fn is_choice(
    c: AdapterChoice,
    devices: Seq<DeviceReading>,
    preferred: Option<Seq<char>>,
    order: Seq<usize>,
) -> bool {
    let sorted = permuted(wifi_list(devices), order);
    &&& is_stable_order(device_keys(wifi_list(devices)), order)
    &&& c.adapters@.map_values(|a: Adapter| adapter_view(a)) == sorted.map_values(
        |d: DeviceReading| device_adapter(d),
    )
    &&& c.chosen == match chosen_index(sorted, preferred) {
        Some(i) => Some(i as usize),
        None => None,
    }
    &&& c.connected == match chosen_index(sorted, preferred) {
        Some(i) => sorted[i].state == 100,
        None => false,
    }
}

fn wifi_positions(devices: &Vec<DeviceReading>) -> (r: Vec<usize>)
    ensures
        r@.map_values(|k: usize| devices@[k as int]) == wifi_list(devices@),
        forall|j: int| 0 <= j < r@.len() ==> #[trigger] r@[j] < devices@.len(),
{
    let mut r: Vec<usize> = Vec::new();
    let mut i: usize = 0;
    assert(r@.map_values(|k: usize| devices@[k as int]) =~= wifi_list(devices@.take(0)));
    while i < devices.len()
        invariant
            i <= devices@.len(),
            r@.map_values(|k: usize| devices@[k as int]) == wifi_list(devices@.take(i as int)),
            forall|j: int| 0 <= j < r@.len() ==> #[trigger] r@[j] < devices@.len(),
        decreases devices@.len() - i,
    {
        let ghost before = r@.map_values(|k: usize| devices@[k as int]);
        assert(devices@.take(i + 1).drop_last() =~= devices@.take(i as int));
        assert(devices@.take(i + 1).last() == devices@[i as int]);
        if devices[i].device_type == 2 {
            r.push(i);
            assert(r@.map_values(|k: usize| devices@[k as int]) =~= before.push(devices@[i as int]));
        }
        i += 1;
    }
    assert(devices@.take(devices@.len() as int) =~= devices@);
    r
}

/// The first listed device with a name, or (without a name) the first
/// activated one.
fn find_device(devices: &Vec<DeviceReading>, pos: &Vec<usize>, name: Option<&str>) -> (r: Option<
    usize,
>)
    requires
        forall|j: int| 0 <= j < pos@.len() ==> #[trigger] pos@[j] < devices@.len(),
    ensures
        ({
            let listed = pos@.map_values(|k: usize| devices@[k as int]);
            let found = match name {
                Some(n) => first_where(listed, named_device(n@)),
                None => first_where(listed, activated_device()),
            };
            match r {
                Some(i) => found == Some(i as int) && i < pos@.len(),
                None => found is None,
            }
        }),
{
    let ghost listed = pos@.map_values(|k: usize| devices@[k as int]);
    let ghost p = match name {
        Some(n) => named_device(n@),
        None => activated_device(),
    };
    let mut k: usize = 0;
    while k < pos.len()
        invariant
            forall|j: int| 0 <= j < pos@.len() ==> #[trigger] pos@[j] < devices@.len(),
            listed == pos@.map_values(|k: usize| devices@[k as int]),
            p == match name {
                Some(n) => named_device(n@),
                None => activated_device(),
            },
            k <= pos@.len(),
            forall|j: int| 0 <= j < k ==> !p(#[trigger] listed[j]),
        decreases pos@.len() - k,
    {
        let d = &devices[pos[k]];
        assert(listed[k as int] == *d);
        let hit = match name {
            Some(n) => crate::text::text_eq(d.interface.as_str(), n),
            None => d.state == 100,
        };
        if hit {
            proof {
                crate::text::lemma_first_where(listed, p, k as int);
            }
            return Some(k);
        }
        k += 1;
    }
    proof {
        crate::text::lemma_first_where(listed, p, k as int);
    }
    None
}

/// The Wi-Fi adapters in name order and the one to show (see
/// [`chosen_index`]).
pub fn choose_adapter(devices: &Vec<DeviceReading>, preferred: Option<&str>) -> (r: AdapterChoice)
    ensures
        exists|order: Seq<usize>|
            #[trigger] is_choice(r, devices@, opt_str(preferred), order),
{
    let wifi = wifi_positions(devices);
    let ghost wl = wifi_list(devices@);
    let mut keys: Vec<Vec<u32>> = Vec::new();
    let mut i: usize = 0;
    while i < wifi.len()
        invariant
            wifi@.map_values(|k: usize| devices@[k as int]) == wl,
            forall|j: int| 0 <= j < wifi@.len() ==> #[trigger] wifi@[j] < devices@.len(),
            i <= wifi@.len(),
            keys@.len() == i,
            forall|k: int|
                0 <= k < i ==> (#[trigger] keys@[k])@ == text_key(devices@[wifi@[k] as int].interface@),
        decreases wifi@.len() - i,
    {
        keys.push(crate::order::key_of_text(devices[wifi[i]].interface.as_str()));
        i += 1;
    }
    assert(keys@.map_values(|k: Vec<u32>| k@) =~= device_keys(wl)) by {
        assert forall|k: int| 0 <= k < wl.len() implies #[trigger] wl[k] == devices@[wifi@[k] as int] by {
            assert(wifi@.map_values(|k: usize| devices@[k as int])[k] == devices@[wifi@[k] as int]);
        }
    }
    let order = crate::order::stable_order(&keys);
    let ghost sorted = permuted(wl, order@);
    let pos = crate::order::apply_order(wifi, &order);
    assert(pos@.len() == sorted.len());
    assert forall|k: int| 0 <= k < pos@.len() implies #[trigger] sorted[k] == devices@[pos@[k] as int]
        && #[trigger] pos@[k] < devices@.len() by {
        let w = order@[k] as int;
        assert(wifi@.map_values(|k: usize| devices@[k as int])[w] == devices@[wifi@[w] as int]);
    }
    let mut adapters: Vec<Adapter> = Vec::new();
    let mut i: usize = 0;
    while i < pos.len()
        invariant
            i <= pos@.len(),
            pos@.len() == sorted.len(),
            forall|k: int| 0 <= k < pos@.len() ==> #[trigger] sorted[k] == devices@[pos@[k] as int],
            forall|k: int| 0 <= k < pos@.len() ==> #[trigger] pos@[k] < devices@.len(),
            adapters@.len() == i,
            forall|k: int|
                0 <= k < i ==> adapter_view(#[trigger] adapters@[k]) == device_adapter(sorted[k]),
        decreases pos@.len() - i,
    {
        let d = &devices[pos[i]];
        adapters.push(
            Adapter {
                path: crate::text::owned(d.path.as_str()),
                name: crate::text::owned(d.interface.as_str()),
            },
        );
        i += 1;
    }
    assert(adapters@.map_values(|a: Adapter| adapter_view(a)) =~= sorted.map_values(
        |d: DeviceReading| device_adapter(d),
    ));
    let ghost pref = opt_str(preferred);
    assert(sorted =~= pos@.map_values(|k: usize| devices@[k as int]));
    let named = match preferred {
        Some(name) => find_device(devices, &pos, Some(name)),
        None => None,
    };
    let chosen = match named {
        Some(k) => Some(k),
        None => match find_device(devices, &pos, None) {
            Some(k) => Some(k),
            None => if pos.len() > 0 {
                Some(0)
            } else {
                None
            },
        },
    };
    let connected = match chosen {
        Some(k) => {
            assert(sorted[k as int] == devices@[pos@[k as int] as int]);
            devices[pos[k]].state == 100
        },
        None => false,
    };
    let r = AdapterChoice { adapters, chosen, connected };
    assert(r.chosen == match chosen_index(sorted, pref) {
        Some(i) => Some(i as usize),
        None => None::<usize>,
    });
    assert(is_choice(r, devices@, pref, order@));
    r
}

/// What the bus reported for the Wi-Fi menu. The fields after `devices`
/// describe the adapter that [`choose_adapter`] picks; the access points
/// are read only while Wi-Fi is enabled.
pub struct NetworkReadings {
    pub enabled: bool,
    pub hardware_enabled: bool,
    pub devices: Vec<DeviceReading>,
    /// The adapter's active access point, "/" for none.
    pub active_access_point: String,
    /// The profile of the adapter's active connection, empty for none.
    pub active_profile: String,
    /// The adapter's IPv4 addresses.
    pub addresses: Vec<String>,
    pub access_points: Vec<AccessPointReading>,
    pub profiles: Vec<ProfileReading>,
}

/// The networks of an adapter before ordering: its access points while
/// Wi-Fi is enabled, then the saved profiles.
pub open spec fn listed_networks(r: NetworkReadings, device: DeviceReading) -> Seq<NetworkModel> {
    let connected = device.state == 100;
    let seen = if r.enabled && r.hardware_enabled {
        merged_aps(r.access_points@, r.active_access_point@, connected)
    } else {
        Seq::empty()
    };
    with_profiles(seen, r.profiles@, device.interface@, r.active_profile@, connected)
}

/// Whether `s` is the menu for the readings, with the adapters in the
/// stable name order `order`: the adapter shown is [`chosen_index`]'s;
/// without one the list and address are empty; with one the address joins
/// its addresses and the list is [`listed_networks`] stably sorted by
/// [`network_key`].
pub open spec fn is_snapshot(
    s: Snapshot,
    r: NetworkReadings,
    preferred: Option<Seq<char>>,
    order: Seq<usize>,
) -> bool {
    let sorted = permuted(wifi_list(r.devices@), order);
    &&& is_stable_order(device_keys(wifi_list(r.devices@)), order)
    &&& s.enabled == r.enabled
    &&& s.hardware_enabled == r.hardware_enabled
    &&& s.adapters@.map_values(|a: Adapter| adapter_view(a)) == sorted.map_values(
        |d: DeviceReading| device_adapter(d),
    )
    &&& match chosen_index(sorted, preferred) {
        None => s.device is None && s.networks@.len() == 0 && s.address@.len() == 0,
        Some(i) => {
            &&& s.device matches Some(a) && adapter_view(a) == device_adapter(sorted[i])
            &&& s.address@ == joined(r.addresses@.map_values(|a: String| a@), ", "@)
            &&& exists|n: Seq<usize>|
                #[trigger] is_stable_order(network_keys(listed_networks(r, sorted[i])), n)
                    && networks_view(s.networks@) == permuted(listed_networks(r, sorted[i]), n)
        },
    }
}

/// The Wi-Fi menu for the readings (see [`is_snapshot`]).
pub fn snapshot(preferred: Option<&str>, readings: &NetworkReadings) -> (s: Snapshot)
    ensures
        exists|order: Seq<usize>| #[trigger] is_snapshot(s, *readings, opt_str(preferred), order),
{
    let choice = choose_adapter(&readings.devices, preferred);
    let ghost order = choose|order: Seq<usize>|
        #[trigger] is_choice(choice, readings.devices@, opt_str(preferred), order);
    let ghost sorted = permuted(wifi_list(readings.devices@), order);
    let k = match choice.chosen {
        Some(k) => k,
        None => {
            let s = Snapshot {
                enabled: readings.enabled,
                hardware_enabled: readings.hardware_enabled,
                adapters: choice.adapters,
                device: None,
                networks: Vec::new(),
                address: String::new(),
            };
            assert(is_snapshot(s, *readings, opt_str(preferred), order));
            return s;
        },
    };
    assert(sorted.len() == choice.adapters@.len()) by {
        assert(choice.adapters@.map_values(|a: Adapter| adapter_view(a)).len() == sorted.len());
    }
    proof {
        crate::text::lemma_first_where_found(sorted, activated_device());
        match opt_str(preferred) {
            Some(name) => crate::text::lemma_first_where_found(sorted, named_device(name)),
            None => {},
        }
    }
    assert(k < choice.adapters@.len()) by {
        assert(choice.adapters@.map_values(|a: Adapter| adapter_view(a)).len() == sorted.len());
    }
    assert(adapter_view(choice.adapters@[k as int]) == device_adapter(sorted[k as int])) by {
        assert(choice.adapters@.map_values(|a: Adapter| adapter_view(a))[k as int] == adapter_view(
            choice.adapters@[k as int],
        ));
    }
    let name = crate::text::owned(choice.adapters[k].name.as_str());
    let device = Adapter {
        path: crate::text::owned(choice.adapters[k].path.as_str()),
        name: crate::text::owned(choice.adapters[k].name.as_str()),
    };
    let address = crate::text::join(&readings.addresses, ", ");
    let seen = if readings.enabled && readings.hardware_enabled {
        merge_access_points(
            &readings.access_points,
            readings.active_access_point.as_str(),
            choice.connected,
        )
    } else {
        Vec::new()
    };
    assert(networks_view(seen@) =~= if readings.enabled && readings.hardware_enabled {
        merged_aps(readings.access_points@, readings.active_access_point@, choice.connected)
    } else {
        Seq::empty()
    });
    let nets = attach_profiles(
        seen,
        &readings.profiles,
        name.as_str(),
        readings.active_profile.as_str(),
        choice.connected,
    );
    assert(is_choice(choice, readings.devices@, opt_str(preferred), order));
    assert(choice.chosen == Some(k));
    assert(chosen_index(sorted, opt_str(preferred)) is Some);
    assert(0 <= chosen_index(sorted, opt_str(preferred))->0 < sorted.len());
    assert(choice.adapters@.len() == choice.adapters.len());
    assert(chosen_index(sorted, opt_str(preferred)) == Some(k as int));
    assert(sorted[k as int].interface@ == name@);
    assert(choice.connected == (sorted[k as int].state == 100));
    assert(networks_view(nets@) == listed_networks(*readings, sorted[k as int]));
    let networks = sort_networks(nets);
    let s = Snapshot {
        enabled: readings.enabled,
        hardware_enabled: readings.hardware_enabled,
        adapters: choice.adapters,
        device: Some(device),
        networks,
        address,
    };
    assert(is_snapshot(s, *readings, opt_str(preferred), order));
    s
}

/// The refusal of a network name that is empty or longer than 32 bytes.
pub open spec fn name_error() -> Seq<char> {
    "Network names must contain 1–32 bytes"@
}

/// The refusal of an unusable password.
pub open spec fn password_error() -> Seq<char> {
    "Enter a valid Wi-Fi password (WPA/WPA2: 8–63 characters or a 64-digit hexadecimal key)."@
}

/// Whether a character is a hexadecimal digit.
pub open spec fn is_hex_digit(c: char) -> bool {
    ('0' <= c && c <= '9') || ('a' <= c && c <= 'f') || ('A' <= c && c <= 'F')
}

/// Whether a password suits a security: any non-empty one for WPA3, else
/// 8 to 63 bytes or 64 hexadecimal digits.
pub open spec fn valid_password(security: Security, password: Seq<char>) -> bool {
    if security is Sae {
        password.len() > 0
    } else {
        ||| 8 <= crate::text::utf8_len(password) <= 63
        ||| crate::text::utf8_len(password) == 64 && forall|i: int|
            0 <= i < password.len() ==> is_hex_digit(#[trigger] password[i])
    }
}

/// Why a connection request is refused before anything is sent: a bad
/// network name, or a bad password where one is needed (a new network, or
/// a saved one whose password is being replaced).
pub open spec fn request_error(n: NetworkModel, password: Seq<char>) -> Option<Seq<char>> {
    if n.ssid.len() == 0 || n.ssid.len() > 32 {
        Some(name_error())
    } else if n.security.needs_password() && (n.profile is None || password.len() > 0)
        && !valid_password(n.security, password) {
        Some(password_error())
    } else {
        None
    }
}

fn all_hex(s: &str) -> (r: bool)
    ensures
        r == forall|i: int| 0 <= i < s@.len() ==> is_hex_digit(#[trigger] s@[i]),
{
    let v = crate::text::chars_of(s);
    let mut i: usize = 0;
    while i < v.len()
        invariant
            v@ == s@,
            i <= v@.len(),
            forall|k: int| 0 <= k < i ==> is_hex_digit(#[trigger] v@[k]),
        decreases v@.len() - i,
    {
        let c = v[i];
        if !(('0' <= c && c <= '9') || ('a' <= c && c <= 'f') || ('A' <= c && c <= 'F')) {
            assert(!is_hex_digit(v@[i as int]));
            return false;
        }
        i += 1;
    }
    true
}

/// Checks a connection request (see [`request_error`]).
pub fn check_request(network: &Network, password: &str) -> (r: Result<(), String>)
    ensures
        match r {
            Ok(()) => request_error(network@, password@) is None,
            Err(e) => request_error(network@, password@) == Some(e@),
        },
{
    if network.ssid.len() == 0 || network.ssid.len() > 32 {
        return Err(crate::text::owned("Network names must contain 1–32 bytes"));
    }
    let empty = password.unicode_len() == 0;
    if network.security.password() && (network.profile.is_none() || !empty) {
        let valid = if network.security == Security::Sae {
            !empty
        } else {
            (crate::text::fits_bytes(password, 63) && !crate::text::fits_bytes(password, 7)) || (
            crate::text::fits_bytes(password, 64) && !crate::text::fits_bytes(password, 63)
                && all_hex(password))
        };
        if !valid {
            return Err(
                crate::text::owned(
                    "Enter a valid Wi-Fi password (WPA/WPA2: 8–63 characters or a 64-digit hexadecimal key).",
                ),
            );
        }
    }
    Ok(())
}

/// Whether a saved profile can connect a network on an interface: a Wi-Fi
/// profile of the same name, not an access point, of compatible security,
/// bound to no interface or to this one.
pub open spec fn profile_serves(p: ProfileReading, n: NetworkModel, interface: Seq<char>) -> bool {
    &&& p.wireless
    &&& p.ssid@ == n.ssid
    &&& p.mode@ != "ap"@
    &&& n.security.compatible_with(profile_security_spec(opt_view(p.key_mgmt)))
    &&& p.interface_name@.len() == 0 || p.interface_name@ == interface
}

/// The test of [`profile_serves`] for a network and interface.
pub open spec fn serving(n: NetworkModel, interface: Seq<char>) -> spec_fn(ProfileReading) -> bool {
    |p: ProfileReading| profile_serves(p, n, interface)
}

/// The first saved profile that can connect a network without one (see
/// [`profile_serves`]).
pub fn find_saved_profile(profiles: &Vec<ProfileReading>, network: &Network, interface: &str) -> (r:
    Option<usize>)
    ensures
        match r {
            Some(i) => first_where(profiles@, serving(network@, interface@)) == Some(i as int),
            None => first_where(profiles@, serving(network@, interface@)) is None,
        },
{
    let ghost f = serving(network@, interface@);
    let mut i: usize = 0;
    while i < profiles.len()
        invariant
            f == serving(network@, interface@),
            i <= profiles@.len(),
            forall|k: int| 0 <= k < i ==> !f(#[trigger] profiles@[k]),
        decreases profiles@.len() - i,
    {
        let p = &profiles[i];
        let key = match &p.key_mgmt {
            Some(k) => Some(k.as_str()),
            None => None,
        };
        if p.wireless && crate::text::bytes_eq(p.ssid.as_slice(), network.ssid.as_slice())
            && !crate::text::text_eq(p.mode.as_str(), "ap") && network.security.compatible(
            profile_security(key),
        ) && (p.interface_name.unicode_len() == 0 || crate::text::text_eq(
            p.interface_name.as_str(),
            interface,
        )) {
            proof {
                crate::text::lemma_first_where(profiles@, f, i as int);
            }
            return Some(i);
        }
        i += 1;
    }
    proof {
        crate::text::lemma_first_where(profiles@, f, i as int);
    }
    None
}

/// The key management of a new connection profile; none for an open
/// network.
pub open spec fn new_key_mgmt(s: Security) -> Option<Seq<char>> {
    match s {
        Security::Open => None,
        Security::Sae => Some("sae"@),
        Security::Enhanced => Some("owe"@),
        _ => Some("wpa-psk"@),
    }
}

/// Executable [`new_key_mgmt`].
pub fn key_mgmt(security: Security) -> (r: Option<&'static str>)
    ensures
        opt_str(r) == new_key_mgmt(security),
{
    match security {
        Security::Open => None,
        Security::Sae => Some("sae"),
        Security::Enhanced => Some("owe"),
        _ => Some("wpa-psk"),
    }
}

/// How a checked request is carried out.
pub enum ConnectPlan {
    /// Activate the saved profile, first storing the new password when
    /// one was typed for a password network.
    Activate { update_password: bool },
    /// Create and activate a profile with this key management (none for
    /// an open network), storing the password for a password network.
    Create { key_mgmt: Option<&'static str>, store_password: bool },
    /// Refuse: new enterprise and legacy networks need a profile made
    /// elsewhere.
    Refuse(String),
}

/// The refusal of a new network that needs a profile made elsewhere.
pub open spec fn unsupported_error() -> Seq<char> {
    "This network needs an existing Enterprise or legacy connection profile."@
}

/// How a checked request for a network (with its saved profile, if any
/// was found) is carried out.
pub fn connect_plan(network: &Network, password: &str) -> (r: ConnectPlan)
    ensures
        match r {
            ConnectPlan::Activate { update_password } => network.profile is Some && update_password
                == (password@.len() > 0 && network.security.needs_password()),
            ConnectPlan::Create { key_mgmt, store_password } => {
                &&& network.profile is None
                &&& network.security.is_supported()
                &&& opt_str(key_mgmt) == new_key_mgmt(network.security)
                &&& store_password == network.security.needs_password()
            },
            ConnectPlan::Refuse(e) => network.profile is None && !network.security.is_supported()
                && e@ == unsupported_error(),
        },
{
    if network.profile.is_some() {
        ConnectPlan::Activate {
            update_password: password.unicode_len() > 0 && network.security.password(),
        }
    } else if !network.security.supported() {
        ConnectPlan::Refuse(
            crate::text::owned(
                "This network needs an existing Enterprise or legacy connection profile.",
            ),
        )
    } else {
        ConnectPlan::Create {
            key_mgmt: key_mgmt(network.security),
            store_password: network.security.password(),
        }
    }
}

/// What an activation state means: connected (2), failed (3 or 4), or
/// still under way.
pub open spec fn activation_outcome_spec(state: u32, name: Seq<char>) -> Option<
    Result<Seq<char>, Seq<char>>,
> {
    if state == 2 {
        Some(Ok("Connected to "@ + name))
    } else if state == 3 || state == 4 {
        Some(Err("Could not connect. Check the password and network availability."@))
    } else {
        None
    }
}

/// The result of a connection attempt in an activation state (see
/// [`activation_outcome_spec`]).
pub fn activation_outcome(state: u32, name: &str) -> (r: Option<Result<String, String>>)
    ensures
        activation_outcome_spec(state, name@) == match r {
            Some(Ok(m)) => Some(Ok(m@)),
            Some(Err(e)) => Some(Err(e@)),
            None => None,
        },
{
    if state == 2 {
        let mut m = crate::text::owned("Connected to ");
        m.append(name);
        Some(Ok(m))
    } else if state == 3 || state == 4 {
        Some(
            Err(
                crate::text::owned(
                    "Could not connect. Check the password and network availability.",
                ),
            ),
        )
    } else {
        None
    }
}

/// The message of a radio switch.
pub fn radio_message(enabled: bool) -> (r: &'static str)
    ensures
        r@ == if enabled {
            "Wi-Fi enabled"@
        } else {
            "Wi-Fi disabled"@
        },
{
    if enabled {
        "Wi-Fi enabled"
    } else {
        "Wi-Fi disabled"
    }
}

/// A request of the Wi-Fi menu.
pub enum Action {
    /// Switch Wi-Fi on or off.
    Radio(bool),
    /// Ask the adapter (by bus path) to scan.
    Scan(String),
    /// Connect the adapter to a network, with the password typed.
    Connect { device: String, network: Network, password: String },
    /// Disconnect the adapter.
    Disconnect(String),
    /// Delete a saved profile (by bus path).
    Forget(String),
}

/// The message shown once a request is carried out; a connection's
/// message comes from the activation's outcome instead.
pub open spec fn action_message_spec(action: Action) -> Option<Seq<char>> {
    match action {
        Action::Radio(enabled) => Some(
            if enabled {
                "Wi-Fi enabled"@
            } else {
                "Wi-Fi disabled"@
            },
        ),
        Action::Scan(_) => Some("Scan requested"@),
        Action::Disconnect(_) => Some("Disconnected"@),
        Action::Forget(_) => Some("Saved network removed"@),
        Action::Connect { .. } => None,
    }
}

/// The message shown once a request is carried out (see
/// [`action_message_spec`]).
pub fn action_message(action: &Action) -> (r: Option<&'static str>)
    ensures
        opt_str(r) == action_message_spec(*action),
{
    match action {
        Action::Radio(enabled) => Some(radio_message(*enabled)),
        Action::Scan(_) => Some("Scan requested"),
        Action::Disconnect(_) => Some("Disconnected"),
        Action::Forget(_) => Some("Saved network removed"),
        Action::Connect { .. } => None,
    }
}

/// The text of a bus error as the menu shows it: without a leading
/// `GDBus.Error:`.
pub open spec fn bus_error_text(message: Seq<char>) -> Seq<char> {
    let prefix = "GDBus.Error:"@;
    if prefix.len() <= message.len() && message.subrange(0, prefix.len() as int) == prefix {
        message.subrange(prefix.len() as int, message.len() as int)
    } else {
        message
    }
}

/// The text of a bus error (see [`bus_error_text`]).
pub fn bus_error_message(message: &str) -> (r: String)
    ensures
        r@ == bus_error_text(message@),
{
    let prefix = "GDBus.Error:";
    if crate::text::starts_with_text(message, prefix) {
        proof {
            reveal_strlit("GDBus.Error:");
        }
        let v = crate::text::chars_of(message);
        crate::text::string_of(&v.as_slice()[12..v.len()])
    } else {
        crate::text::owned(message)
    }
}

/// The tallest the network list may be on a monitor `monitor_height`
/// pixels high (360 when the monitor is unknown): the monitor's height
/// less 260, held between 120 and 360.
pub fn network_list_height(monitor_height: Option<i32>) -> (r: i32)
    requires
        match monitor_height {
            Some(h) => h >= i32::MIN + 260,
            None => true,
        },
    ensures
        r == match monitor_height {
            None => 360,
            Some(h) => if h - 260 < 120 {
                120
            } else if h - 260 > 360 {
                360
            } else {
                h - 260
            },
        },
{
    match monitor_height {
        None => 360,
        Some(h) => {
            let v = h - 260;
            if v < 120 {
                120
            } else if v > 360 {
                360
            } else {
                v
            }
        },
    }
}

/// The notice above the list: no adapter, blocked, or switched off.
pub open spec fn list_notice_spec(adapters: nat, hardware_enabled: bool, enabled: bool) -> Option<Seq<char>> {
    if adapters == 0 {
        Some("No Wi-Fi adapter found"@)
    } else if !hardware_enabled {
        Some("Wi-Fi is blocked by the hardware switch"@)
    } else if !enabled {
        Some("Wi-Fi is off"@)
    } else {
        None
    }
}

/// The notice above the list of a snapshot (see [`list_notice_spec`]).
pub fn list_notice(s: &Snapshot) -> (r: Option<&'static str>)
    ensures
        opt_str(r) == list_notice_spec(s.adapters@.len(), s.hardware_enabled, s.enabled),
{
    if s.adapters.len() == 0 {
        Some("No Wi-Fi adapter found")
    } else if !s.hardware_enabled {
        Some("Wi-Fi is blocked by the hardware switch")
    } else if !s.enabled {
        Some("Wi-Fi is off")
    } else {
        None
    }
}

/// Whether a network's name matches a search, compared in lowercase.
pub fn matches_search(network: &Network, query: &str) -> (r: bool)
    ensures
        r == crate::text::contains_text(lowercase(network.name@), lowercase(query@)),
{
    let name = crate::text::to_lowercase(network.name.as_str());
    let q = crate::text::to_lowercase(query);
    crate::text::contains_str(name.as_str(), q.as_str())
}

/// The section a network is listed under.
pub open spec fn section_spec(n: NetworkModel) -> Seq<char> {
    if n.active {
        "CONNECTED"@
    } else if n.strength is Some {
        "AVAILABLE NETWORKS"@
    } else {
        "SAVED NETWORKS"@
    }
}

/// Executable [`section_spec`].
pub fn section(network: &Network) -> (r: &'static str)
    ensures
        r@ == section_spec(network@),
{
    if network.active {
        "CONNECTED"
    } else if network.strength.is_some() {
        "AVAILABLE NETWORKS"
    } else {
        "SAVED NETWORKS"
    }
}

/// The icon of a list row: full signal for the active network, else by
/// strength (an unknown strength counts as none).
pub open spec fn row_icon_spec(n: NetworkModel) -> Seq<char> {
    if n.active {
        "󰤨"@
    } else {
        crate::modules::signal_icon_spec(
            match n.strength {
                Some(s) => s,
                None => 0,
            },
        )
    }
}

/// Executable [`row_icon_spec`].
pub fn row_icon(network: &Network) -> (r: &'static str)
    ensures
        r@ == row_icon_spec(network@),
{
    if network.active {
        "󰤨"
    } else {
        crate::modules::signal_icon(
            match network.strength {
                Some(s) => s,
                None => 0,
            },
        )
    }
}

/// The second line of a list row: the address (or "Connected") of the
/// active network, else its security, marked when saved.
pub open spec fn row_detail_spec(n: NetworkModel, address: Seq<char>) -> Seq<char> {
    if n.active {
        if address.len() == 0 {
            "Connected"@
        } else {
            address
        }
    } else if n.profile is Some {
        "Saved · "@ + security_label(n.security)
    } else {
        security_label(n.security)
    }
}

/// Executable [`row_detail_spec`].
pub fn row_detail(network: &Network, address: &str) -> (r: String)
    ensures
        r@ == row_detail_spec(network@, address@),
{
    if network.active {
        if address.unicode_len() == 0 {
            crate::text::owned("Connected")
        } else {
            crate::text::owned(address)
        }
    } else if network.profile.is_some() {
        let mut r = crate::text::owned("Saved · ");
        r.append(network.security.label());
        r
    } else {
        crate::text::owned(network.security.label())
    }
}

/// The strength column of a list row: a percentage, or a dash.
pub fn strength_text(network: &Network) -> (r: String)
    ensures
        r@ == match network.strength {
            Some(s) => crate::text::decimal(s as nat) + "%"@,
            None => "—"@,
        },
{
    match network.strength {
        Some(s) => {
            let mut r = crate::text::decimal_string(s as u128);
            r.append("%");
            r
        },
        None => crate::text::owned("—"),
    }
}

/// The line shown when no network is listed: a hint to scan, or that the
/// search matched nothing.
pub fn empty_list_text(query: &str) -> (r: &'static str)
    ensures
        r@ == if query@.len() == 0 {
            "No networks found. Try scanning again."@
        } else {
            "No matching networks"@
        },
{
    if query.unicode_len() == 0 {
        "No networks found. Try scanning again."
    } else {
        "No matching networks"
    }
}

/// The security chosen in the hidden-network form: WPA3 (1), open (2),
/// else WPA personal.
pub open spec fn hidden_security_spec(selected: u32) -> Security {
    if selected == 1 {
        Security::Sae
    } else if selected == 2 {
        Security::Open
    } else {
        Security::Personal
    }
}

/// The network of a hidden-network request.
pub fn hidden_network(name: &str, selected: u32) -> (r: Network)
    ensures
        r.ssid@ == name.spec_bytes(),
        r.name@ == name@,
        r.access_point@ == "/"@,
        r.profile is None,
        r.security == hidden_security_spec(selected),
        r.strength is None,
        r.frequency == 0,
        !r.active,
        r.hidden,
{
    let security = if selected == 1 {
        Security::Sae
    } else if selected == 2 {
        Security::Open
    } else {
        Security::Personal
    };
    let bytes = name.as_bytes();
    let mut ssid: Vec<u8> = Vec::new();
    let mut i: usize = 0;
    while i < bytes.len()
        invariant
            bytes@ == name.spec_bytes(),
            i <= bytes@.len(),
            ssid@ == bytes@.take(i as int),
        decreases bytes@.len() - i,
    {
        ssid.push(bytes[i]);
        i += 1;
        assert(ssid@ =~= bytes@.take(i as int));
    }
    assert(bytes@.take(bytes@.len() as int) =~= bytes@);
    Network {
        ssid,
        name: crate::text::owned(name),
        access_point: crate::text::owned("/"),
        profile: None,
        security,
        strength: None,
        frequency: 0,
        active: false,
        hidden: true,
    }
}

/// In the ordered list the active networks come first, and among the
/// others the networks in range come before the saved ones out of range.
pub proof fn law_active_networks_first(nets: Seq<NetworkModel>, order: Seq<usize>)
    requires
        is_stable_order(network_keys(nets), order),
    ensures
        ({
            let listed = permuted(nets, order);
            forall|i: int, j: int|
                0 <= i < j < listed.len() ==> (#[trigger] listed[j].active ==> #[trigger] listed[i].active)
                    && (!listed[i].active && listed[i].strength is None ==> listed[j].strength is None)
        }),
{
    let listed = permuted(nets, order);
    let keys = network_keys(nets);
    assert forall|i: int, j: int| 0 <= i < j < listed.len() implies (#[trigger] listed[j].active
        ==> #[trigger] listed[i].active) && (!listed[i].active && listed[i].strength is None
        ==> listed[j].strength is None) by {
        let x = order[i] as int;
        let y = order[j] as int;
        assert(crate::order::before(keys, x, y));
        assert(listed[i] == nets[x] && listed[j] == nets[y]);
        assert(keys[x] == network_key(nets[x]) && keys[y] == network_key(nets[y]));
        let kx = keys[x];
        let ky = keys[y];
        assert(kx[0] == (if nets[x].active { 0u32 } else { 1u32 }));
        assert(ky[0] == (if nets[y].active { 0u32 } else { 1u32 }));
        assert(kx[1] == (if nets[x].strength is Some { 0u32 } else { 1u32 }));
        assert(ky[1] == (if nets[y].strength is Some { 0u32 } else { 1u32 }));
        assert(kx.drop_first()[0] == kx[1] && ky.drop_first()[0] == ky[1]);
        if kx != ky {
            assert(crate::order::lex_lt(kx, ky));
            assert(kx.len() > 2 && ky.len() > 2);
            if kx[0] == ky[0] {
                assert(crate::order::lex_lt(kx.drop_first(), ky.drop_first()));
            }
        }
    }
}

/// Among networks of the same standing (both active or both not) that
/// are in range, the ordered list shows the stronger signal first.
pub proof fn law_in_range_by_falling_strength(nets: Seq<NetworkModel>, order: Seq<usize>)
    requires
        is_stable_order(network_keys(nets), order),
    ensures
        ({
            let listed = permuted(nets, order);
            forall|i: int, j: int|
                0 <= i < j < listed.len() && (#[trigger] listed[i]).active == (#[trigger] listed[j]).active
                    && listed[i].strength is Some && listed[j].strength is Some
                    ==> listed[i].strength->0 >= listed[j].strength->0
        }),
{
    let listed = permuted(nets, order);
    let keys = network_keys(nets);
    assert forall|i: int, j: int|
        0 <= i < j < listed.len() && (#[trigger] listed[i]).active == (#[trigger] listed[j]).active
            && listed[i].strength is Some && listed[j].strength is Some implies listed[i].strength->0
        >= listed[j].strength->0 by {
        let x = order[i] as int;
        let y = order[j] as int;
        assert(crate::order::before(keys, x, y));
        assert(listed[i] == nets[x] && listed[j] == nets[y]);
        assert(keys[x] == network_key(nets[x]) && keys[y] == network_key(nets[y]));
        let kx = keys[x];
        let ky = keys[y];
        let sx = nets[x].strength->0;
        let sy = nets[y].strength->0;
        assert(kx[0] == ky[0] && kx[1] == ky[1]);
        assert(kx[2] == (255 - sx) as u32 && ky[2] == (255 - sy) as u32);
        assert(kx.len() > 2 && ky.len() > 2);
        if kx != ky {
            assert(crate::order::lex_lt(kx, ky));
            assert(kx.drop_first()[0] == kx[1] && ky.drop_first()[0] == ky[1]);
            assert(crate::order::lex_lt(kx.drop_first(), ky.drop_first()));
            assert(kx.drop_first().drop_first()[0] == kx[2]);
            assert(ky.drop_first().drop_first()[0] == ky[2]);
            assert(crate::order::lex_lt(kx.drop_first().drop_first(), ky.drop_first().drop_first()));
            assert(kx[2] <= ky[2]);
        } else {
            assert(kx[2] == ky[2]);
        }
    }
}

/// Whether an access point is one of those a network entry stands for:
/// it has a name, and the entry's name and security.
pub open spec fn serves(ap: AccessPointReading, m: NetworkModel) -> bool {
    ap.ssid@.len() > 0 && ap.ssid@ == m.ssid && ap_security_spec(ap.wpa_flags, ap.rsn_flags, ap.flags)
        == m.security
}

proof fn lemma_merged_strength(aps: Seq<AccessPointReading>, active_ap: Seq<char>, connected: bool)
    ensures
        ({
            let nets = merged_aps(aps, active_ap, connected);
            &&& forall|k: int| 0 <= k < nets.len() ==> (#[trigger] nets[k]).strength is Some
            &&& forall|j: int|
                0 <= j < aps.len() && (#[trigger] aps[j]).ssid@.len() > 0 ==> exists|k: int|
                    0 <= k < nets.len() && #[trigger] serves(aps[j], nets[k])
            &&& forall|k: int, j: int|
                0 <= k < nets.len() && 0 <= j < aps.len() && !nets[k].active && #[trigger] serves(
                    aps[j],
                    #[trigger] nets[k],
                ) ==> !(aps[j].path@ == active_ap && connected) && aps[j].strength
                    <= nets[k].strength->0
        }),
    decreases aps.len(),
{
    if aps.len() > 0 {
        let front = aps.drop_last();
        lemma_merged_strength(front, active_ap, connected);
        law_merged_networks_distinct(front, active_ap, connected);
        let before = merged_aps(front, active_ap, connected);
        let nets = merged_aps(aps, active_ap, connected);
        let x = aps.last();
        let last = front.len() as int;
        assert(aps[last] == x);
        assert forall|j: int| 0 <= j < front.len() implies aps[j] == front[j] by {}
        if x.ssid@.len() == 0 {
            assert(nets == before);
            assert forall|j: int|
                0 <= j < aps.len() && (#[trigger] aps[j]).ssid@.len() > 0 implies exists|k: int|
                    0 <= k < nets.len() && #[trigger] serves(aps[j], nets[k]) by {
                assert(j < last);
                assert(aps[j] == front[j]);
            }
            assert forall|k: int, j: int|
                0 <= k < nets.len() && 0 <= j < aps.len() && !nets[k].active && #[trigger] serves(
                    aps[j],
                    #[trigger] nets[k],
                ) implies !(aps[j].path@ == active_ap && connected) && aps[j].strength
                <= nets[k].strength->0 by {
                assert(j < last);
                assert(aps[j] == front[j]);
            }
        } else {
            let n = ap_network(x, active_ap, connected);
            let f = |m: NetworkModel| m.ssid == n.ssid && m.security == n.security;
            crate::text::lemma_first_where_found(before, f);
            assert(serves(x, n));
            match same_network(before, n.ssid, n.security) {
                Some(i) => {
                    let replaced = n.active || (!before[i].active && stronger(
                        n.strength,
                        before[i].strength,
                    ));
                    assert(nets == if replaced {
                        before.update(i, n)
                    } else {
                        before
                    });
                    assert(nets.len() == before.len());
                    assert forall|k: int| 0 <= k < nets.len() implies (#[trigger] nets[k]).strength is Some by {
                        if k != i || !replaced {
                            assert(nets[k] == before[k]);
                        }
                    }
                    assert forall|j: int|
                        0 <= j < aps.len() && (#[trigger] aps[j]).ssid@.len() > 0 implies exists|
                        k: int,
                    | 0 <= k < nets.len() && #[trigger] serves(aps[j], nets[k]) by {
                        if j == last {
                            assert(serves(aps[j], nets[i]));
                        } else {
                            assert(aps[j] == front[j]);
                            let k = choose|k: int| 0 <= k < before.len() && #[trigger] serves(front[j], before[k]);
                            if k == i && replaced {
                                assert(serves(aps[j], nets[i]));
                            } else {
                                assert(nets[k] == before[k]);
                                assert(serves(aps[j], nets[k]));
                            }
                        }
                    }
                    assert forall|k: int, j: int|
                        0 <= k < nets.len() && 0 <= j < aps.len() && !nets[k].active && #[trigger] serves(
                            aps[j],
                            #[trigger] nets[k],
                        ) implies !(aps[j].path@ == active_ap && connected) && aps[j].strength
                        <= nets[k].strength->0 by {
                        if k == i {
                            if j == last {
                                if replaced {
                                    assert(nets[k] == n);
                                } else {
                                    assert(nets[k] == before[i]);
                                    assert(!n.active);
                                }
                            } else {
                                assert(aps[j] == front[j]);
                                if replaced {
                                    assert(nets[k] == n);
                                    assert(!n.active);
                                    assert(f(before[i]));
                                    assert(serves(front[j], before[i]));
                                } else {
                                    assert(nets[k] == before[i]);
                                }
                            }
                        } else {
                            assert(nets[k] == before[k]);
                            if j == last {
                                assert(f(before[k]));
                                assert(f(before[i]));
                                if k < i {
                                    assert(false);
                                } else {
                                    assert(before[i].ssid == before[k].ssid && before[i].security
                                        == before[k].security);
                                    assert(false);
                                }
                            } else {
                                assert(aps[j] == front[j]);
                            }
                        }
                    }
                },
                None => {
                    assert(nets == before.push(n));
                    assert forall|k: int| 0 <= k < nets.len() implies (#[trigger] nets[k]).strength is Some by {
                        if k < before.len() {
                            assert(nets[k] == before[k]);
                        }
                    }
                    assert forall|j: int|
                        0 <= j < aps.len() && (#[trigger] aps[j]).ssid@.len() > 0 implies exists|
                        k: int,
                    | 0 <= k < nets.len() && #[trigger] serves(aps[j], nets[k]) by {
                        if j == last {
                            assert(serves(aps[j], nets[before.len() as int]));
                        } else {
                            assert(aps[j] == front[j]);
                            let k = choose|k: int| 0 <= k < before.len() && #[trigger] serves(front[j], before[k]);
                            assert(nets[k] == before[k]);
                            assert(serves(aps[j], nets[k]));
                        }
                    }
                    assert forall|k: int, j: int|
                        0 <= k < nets.len() && 0 <= j < aps.len() && !nets[k].active && #[trigger] serves(
                            aps[j],
                            #[trigger] nets[k],
                        ) implies !(aps[j].path@ == active_ap && connected) && aps[j].strength
                        <= nets[k].strength->0 by {
                        if k == before.len() {
                            assert(nets[k] == n);
                            if j < last {
                                assert(aps[j] == front[j]);
                                let q = choose|q: int| 0 <= q < before.len() && #[trigger] serves(front[j], before[q]);
                                assert(f(before[q]));
                                assert(false);
                            }
                        } else {
                            assert(nets[k] == before[k]);
                            if j == last {
                                assert(f(before[k]));
                                assert(false);
                            } else {
                                assert(aps[j] == front[j]);
                            }
                        }
                    }
                },
            }
        }
    }
}

/// Every listed network that is not the active one shows the strongest of
/// its access points: no access point with its name and security is
/// stronger, and none of them is the active one.
pub proof fn law_inactive_networks_show_strongest(
    aps: Seq<AccessPointReading>,
    active_ap: Seq<char>,
    connected: bool,
)
    ensures
        ({
            let nets = merged_aps(aps, active_ap, connected);
            forall|k: int, j: int|
                0 <= k < nets.len() && 0 <= j < aps.len() && !nets[k].active && aps[j].ssid@.len() > 0
                    && (#[trigger] aps[j]).ssid@ == (#[trigger] nets[k]).ssid && ap_security_spec(
                    aps[j].wpa_flags,
                    aps[j].rsn_flags,
                    aps[j].flags,
                ) == nets[k].security ==> (nets[k].strength matches Some(s) && aps[j].strength <= s
                    && !(aps[j].path@ == active_ap && connected))
        }),
{
    lemma_merged_strength(aps, active_ap, connected);
    let nets = merged_aps(aps, active_ap, connected);
    assert forall|k: int, j: int|
        0 <= k < nets.len() && 0 <= j < aps.len() && !nets[k].active && aps[j].ssid@.len() > 0
            && (#[trigger] aps[j]).ssid@ == (#[trigger] nets[k]).ssid && ap_security_spec(
            aps[j].wpa_flags,
            aps[j].rsn_flags,
            aps[j].flags,
        ) == nets[k].security implies (nets[k].strength matches Some(s) && aps[j].strength <= s
        && !(aps[j].path@ == active_ap && connected)) by {
        assert(serves(aps[j], nets[k]));
    }
}

/// Among the networks seen by access points, no two share a name and a
/// security: an access point either joins the entry of its network or
/// adds a new one.
pub proof fn law_merged_networks_distinct(
    aps: Seq<AccessPointReading>,
    active_ap: Seq<char>,
    connected: bool,
)
    ensures
        ({
            let nets = merged_aps(aps, active_ap, connected);
            forall|i: int, j: int|
                0 <= i < j < nets.len() ==> !(#[trigger] nets[i].ssid == #[trigger] nets[j].ssid
                    && nets[i].security == nets[j].security)
        }),
    decreases aps.len(),
{
    if aps.len() > 0 {
        let before = merged_aps(aps.drop_last(), active_ap, connected);
        law_merged_networks_distinct(aps.drop_last(), active_ap, connected);
        let ap = aps.last();
        if ap.ssid@.len() > 0 {
            let n = ap_network(ap, active_ap, connected);
            let f = |m: NetworkModel| m.ssid == n.ssid && m.security == n.security;
            crate::text::lemma_first_where_found(before, f);
            let nets = merged_aps(aps, active_ap, connected);
            assert forall|i: int, j: int| 0 <= i < j < nets.len() implies !(
            #[trigger] nets[i].ssid == #[trigger] nets[j].ssid && nets[i].security
                == nets[j].security) by {
                match same_network(before, n.ssid, n.security) {
                    Some(k) => {
                        if nets[i].ssid == nets[j].ssid && nets[i].security == nets[j].security {
                            if i == k {
                                assert(nets[j] == before[j] || nets[j] == n);
                            } else if j == k {
                                assert(nets[i] == before[i] || nets[i] == n);
                            } else {
                                assert(nets[i] == before[i] && nets[j] == before[j]);
                            }
                        }
                    },
                    None => {
                        if j == before.len() {
                            assert(nets[i] == before[i]);
                            assert(!f(before[i]));
                        } else {
                            assert(nets[i] == before[i] && nets[j] == before[j]);
                        }
                    },
                }
            }
        }
    }
}

} // verus!
