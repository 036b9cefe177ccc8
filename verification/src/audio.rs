//! The audio model: sinks and sources as the sound server lists them, the
//! icons and volume percentages the bar shows, and what a request of the
//! bar asks of the server.
//!
//! A device's volume is the average of its channel volumes, where 65536 is
//! 100%. The bar's thresholds are fractions of that; on these integers they
//! are exact: `avg / 65536 > 0.66` holds for `avg >= 43254`, `> 0.33` for
//! `avg >= 21627`, and the percentage is `avg * 100 / 65536` rounded down.

use crate::icons::StaticIcon;
use crate::text::{str_contains, str_eq};
use vstd::prelude::*;

verus! {

/// The volume of a channel at 100%.
pub const NORMAL_VOLUME: u32 = 65536;

/// What kind of device a port leads to.
#[derive(Clone, Copy, PartialEq, Eq, Structural, Debug)]
pub enum DeviceType {
    Headphones,
    Speaker,
    Headset,
    Hdmi,
}

impl DeviceType {
    pub fn get_icon(&self) -> (r: StaticIcon)
        ensures
            r == match *self {
                DeviceType::Speaker => StaticIcon::Speaker3,
                DeviceType::Headphones => StaticIcon::Headphones1,
                DeviceType::Headset => StaticIcon::Headset,
                DeviceType::Hdmi => StaticIcon::MonitorSpeaker,
            },
    {
        match self {
            DeviceType::Speaker => StaticIcon::Speaker3,
            DeviceType::Headphones => StaticIcon::Headphones1,
            DeviceType::Headset => StaticIcon::Headset,
            DeviceType::Hdmi => StaticIcon::MonitorSpeaker,
        }
    }
}

/// A port of a device.
pub struct Port {
    pub name: String,
    pub description: String,
    pub device_type: DeviceType,
    pub active: bool,
}

/// A sink or a source; `volume` is the average channel volume.
pub struct Device {
    pub name: String,
    pub description: String,
    pub volume: u32,
    pub is_mute: bool,
    pub ports: Vec<Port>,
}

/// The server's default sink and source.
pub struct ServerInfo {
    pub default_sink: String,
    pub default_source: String,
}

impl Default for ServerInfo {
    fn default() -> (r: Self)
        ensures
            r.default_sink@.len() == 0,
            r.default_source@.len() == 0,
    {
        ServerInfo { default_sink: String::new(), default_source: String::new() }
    }
}

/// Some port of the device is the active one.
pub open spec fn has_active_port(d: Device) -> bool {
    exists|i: int| 0 <= i < d.ports@.len() && (#[trigger] d.ports@[i]).active
}

/// The first device with an active port and the name, if any.
pub open spec fn shown_device(ds: Seq<Device>, name: Seq<char>) -> Option<Device>
    decreases ds.len(),
{
    if ds.len() == 0 {
        None
    } else if has_active_port(ds[0]) && ds[0].name@ == name {
        Some(ds[0])
    } else {
        shown_device(ds.drop_first(), name)
    }
}

/// The speaker icon for a volume.
pub open spec fn speaker_for(volume: u32) -> StaticIcon {
    if volume >= 43254 {
        StaticIcon::Speaker3
    } else if volume >= 21627 {
        StaticIcon::Speaker2
    } else {
        StaticIcon::Speaker1
    }
}

fn any_active(ports: &Vec<Port>) -> (r: bool)
    ensures
        r == exists|i: int| 0 <= i < ports@.len() && (#[trigger] ports@[i]).active,
{
    let mut i: usize = 0;
    while i < ports.len()
        invariant
            i <= ports@.len(),
            forall|j: int| 0 <= j < i ==> !(#[trigger] ports@[j]).active,
        decreases ports@.len() - i,
    {
        if ports[i].active {
            return true;
        }
        i = i + 1;
    }
    false
}

fn find_shown(ds: &Vec<Device>, name: &str) -> (r: Option<usize>)
    ensures
        match r {
            Some(i) => i < ds@.len() && shown_device(ds@, name@) == Some(ds@[i as int]),
            None => shown_device(ds@, name@) is None,
        },
{
    let mut i: usize = 0;
    assert(ds@.skip(0) =~= ds@);
    while i < ds.len()
        invariant
            i <= ds@.len(),
            shown_device(ds@, name@) == shown_device(ds@.skip(i as int), name@),
        decreases ds@.len() - i,
    {
        assert(ds@.skip(i as int).drop_first() =~= ds@.skip(i + 1));
        assert(ds@.skip(i as int)[0] == ds@[i as int]);
        if any_active(&ds[i].ports) && str_eq(ds[i].name.as_str(), name) {
            return Some(i);
        }
        i = i + 1;
    }
    None
}

/// The sink icon: muted or no shown default sink gives the silent speaker,
/// else one by volume.
pub fn sink_icon(sinks: &Vec<Device>, default_sink: &str) -> (r: StaticIcon)
    ensures
        r == match shown_device(sinks@, default_sink@) {
            Some(d) => if d.is_mute {
                StaticIcon::Speaker0
            } else {
                speaker_for(d.volume)
            },
            None => StaticIcon::Speaker0,
        },
{
    match find_shown(sinks, default_sink) {
        Some(i) => {
            let d = &sinks[i];
            if d.is_mute {
                StaticIcon::Speaker0
            } else if d.volume >= 43254 {
                StaticIcon::Speaker3
            } else if d.volume >= 21627 {
                StaticIcon::Speaker2
            } else {
                StaticIcon::Speaker1
            }
        },
        None => StaticIcon::Speaker0,
    }
}

/// The microphone icon: on only for a shown default source that is not
/// muted.
pub fn source_icon(sources: &Vec<Device>, default_source: &str) -> (r: StaticIcon)
    ensures
        r == match shown_device(sources@, default_source@) {
            Some(d) => if d.is_mute {
                StaticIcon::Mic0
            } else {
                StaticIcon::Mic1
            },
            None => StaticIcon::Mic0,
        },
{
    match find_shown(sources, default_source) {
        Some(i) => if sources[i].is_mute {
            StaticIcon::Mic0
        } else {
            StaticIcon::Mic1
        },
        None => StaticIcon::Mic0,
    }
}

/// The volume percentage of the shown default device, rounded down; 0 when
/// it is muted or there is none.
pub fn compute_volume_pct(devices: &Vec<Device>, default_name: &str) -> (r: i32)
    ensures
        r == match shown_device(devices@, default_name@) {
            Some(d) => if d.is_mute {
                0
            } else {
                d.volume * 100 / 65536
            },
            None => 0,
        },
{
    match find_shown(devices, default_name) {
        Some(i) => {
            let d = &devices[i];
            if d.is_mute {
                0
            } else {
                let p: u64 = d.volume as u64 * 100 / 65536;
                assert(p <= 6553600);
                p as i32
            }
        },
        None => 0,
    }
}

/// Everything the bar shows of audio.
pub struct AudioData {
    pub server_info: ServerInfo,
    pub sinks: Vec<Device>,
    pub sources: Vec<Device>,
    pub cur_sink_volume: i32,
    pub cur_source_volume: i32,
}

impl Default for AudioData {
    fn default() -> (r: Self)
        ensures
            r.server_info.default_sink@.len() == 0,
            r.server_info.default_source@.len() == 0,
            r.sinks@.len() == 0,
            r.sources@.len() == 0,
            r.cur_sink_volume == 0,
            r.cur_source_volume == 0,
    {
        AudioData {
            server_info: ServerInfo::default(),
            sinks: Vec::new(),
            sources: Vec::new(),
            cur_sink_volume: 0,
            cur_source_volume: 0,
        }
    }
}

/// A request of the bar.
pub enum AudioCmd {
    ToggleSinkMute,
    ToggleSourceMute,
    SinkVolume(i32),
    SourceVolume(i32),
    DefaultSink(String, String),
    DefaultSource(String, String),
}

/// What the bar asks of the sound server: the volume ones carry the new
/// loudest channel volume, to which the device's channels are scaled.
pub enum AudioRequest {
    SinkMute(String, bool),
    SourceMute(String, bool),
    SinkVolume(String, u32),
    SourceVolume(String, u32),
    DefaultSink(String, String),
    DefaultSource(String, String),
}

/// The first device with the name, active port or not.
pub open spec fn named_device(ds: Seq<Device>, name: Seq<char>) -> Option<Device>
    decreases ds.len(),
{
    if ds.len() == 0 {
        None
    } else if ds[0].name@ == name {
        Some(ds[0])
    } else {
        named_device(ds.drop_first(), name)
    }
}

/// The channel volume of a percentage, kept within 0..=100%:
/// `65536 * (pct / 100)` rounded down.
pub open spec fn volume_of_percent(pct: i32) -> u32 {
    if pct <= 0 {
        0
    } else if pct >= 100 {
        65536
    } else {
        (pct * 65536 / 100) as u32
    }
}

fn find_named(ds: &Vec<Device>, name: &str) -> (r: Option<usize>)
    ensures
        match r {
            Some(i) => i < ds@.len() && named_device(ds@, name@) == Some(ds@[i as int]),
            None => named_device(ds@, name@) is None,
        },
{
    let mut i: usize = 0;
    assert(ds@.skip(0) =~= ds@);
    while i < ds.len()
        invariant
            i <= ds@.len(),
            named_device(ds@, name@) == named_device(ds@.skip(i as int), name@),
        decreases ds@.len() - i,
    {
        assert(ds@.skip(i as int).drop_first() =~= ds@.skip(i + 1));
        assert(ds@.skip(i as int)[0] == ds@[i as int]);
        if str_eq(ds[i].name.as_str(), name) {
            return Some(i);
        }
        i = i + 1;
    }
    None
}

/// The channel volume of a percentage, kept within 0..=100%.
pub fn percent_volume(pct: i32) -> (r: u32)
    ensures
        r == volume_of_percent(pct),
{
    if pct <= 0 {
        0
    } else if pct >= 100 {
        65536
    } else {
        let v: u32 = pct as u32 * 65536 / 100;
        v
    }
}

/// What a request asks of the server: mute toggles and volumes act on the
/// default device (the first of that name), and nothing is asked when it is
/// not listed; default changes pass through.
pub fn audio_request(cmd: &AudioCmd, sinks: &Vec<Device>, sources: &Vec<Device>, info: &ServerInfo) -> (r: Option<AudioRequest>)
    ensures
        match *cmd {
            AudioCmd::ToggleSinkMute => match named_device(sinks@, info.default_sink@) {
                Some(d) => r matches Some(AudioRequest::SinkMute(n, m)) && n@ == d.name@ && m == !d.is_mute,
                None => r is None,
            },
            AudioCmd::ToggleSourceMute => match named_device(sources@, info.default_source@) {
                Some(d) => r matches Some(AudioRequest::SourceMute(n, m)) && n@ == d.name@ && m == !d.is_mute,
                None => r is None,
            },
            AudioCmd::SinkVolume(p) => match named_device(sinks@, info.default_sink@) {
                Some(d) => r matches Some(AudioRequest::SinkVolume(n, v)) && n@ == d.name@ && v == volume_of_percent(p),
                None => r is None,
            },
            AudioCmd::SourceVolume(p) => match named_device(sources@, info.default_source@) {
                Some(d) => r matches Some(AudioRequest::SourceVolume(n, v)) && n@ == d.name@ && v
                    == volume_of_percent(p),
                None => r is None,
            },
            AudioCmd::DefaultSink(n, p) => r matches Some(AudioRequest::DefaultSink(a, b)) && a@ == n@ && b@ == p@,
            AudioCmd::DefaultSource(n, p) => r matches Some(AudioRequest::DefaultSource(a, b)) && a@ == n@ && b@ == p@,
        },
{
    match cmd {
        AudioCmd::ToggleSinkMute => match find_named(sinks, info.default_sink.as_str()) {
            Some(i) => Some(AudioRequest::SinkMute(sinks[i].name.clone(), !sinks[i].is_mute)),
            None => None,
        },
        AudioCmd::ToggleSourceMute => match find_named(sources, info.default_source.as_str()) {
            Some(i) => Some(AudioRequest::SourceMute(sources[i].name.clone(), !sources[i].is_mute)),
            None => None,
        },
        AudioCmd::SinkVolume(p) => match find_named(sinks, info.default_sink.as_str()) {
            Some(i) => Some(AudioRequest::SinkVolume(sinks[i].name.clone(), percent_volume(*p))),
            None => None,
        },
        AudioCmd::SourceVolume(p) => match find_named(sources, info.default_source.as_str()) {
            Some(i) => Some(AudioRequest::SourceVolume(sources[i].name.clone(), percent_volume(*p))),
            None => None,
        },
        AudioCmd::DefaultSink(n, p) => Some(AudioRequest::DefaultSink(n.clone(), p.clone())),
        AudioCmd::DefaultSource(n, p) => Some(AudioRequest::DefaultSource(n.clone(), p.clone())),
    }
}

/// A sink is listed when some port is available.
pub fn keep_sink(port_available: &Vec<bool>) -> (r: bool)
    ensures
        r == exists|i: int| 0 <= i < port_available@.len() && #[trigger] port_available@[i],
{
    let mut i: usize = 0;
    while i < port_available.len()
        invariant
            i <= port_available@.len(),
            forall|j: int| 0 <= j < i ==> !#[trigger] port_available@[j],
        decreases port_available@.len() - i,
    {
        if port_available[i] {
            return true;
        }
        i = i + 1;
    }
    false
}

/// A source is listed when it has a name without `monitor` in it: the
/// monitors of sinks are not microphones.
pub fn keep_source(name: Option<&str>) -> (r: bool)
    ensures
        r == match name {
            Some(n) => !crate::text::occurs_in("monitor"@, n@),
            None => false,
        },
{
    match name {
        Some(n) => {
            proof {
                reveal_strlit("monitor");
            }
            !str_contains(n, "monitor")
        },
        None => false,
    }
}

/// The kind of a port as the server reports it.
#[derive(Clone, Copy, PartialEq, Eq, Structural, Debug)]
pub enum PortKind {
    Headphones,
    Speaker,
    Headset,
    Hdmi,
    Other,
}

/// A port as the server reports it.
pub struct PortInfo {
    pub name: Option<String>,
    pub description: String,
    pub kind: PortKind,
    pub available: bool,
}

/// The device type of a port kind; unknown kinds count as speakers.
pub open spec fn type_of(k: PortKind) -> DeviceType {
    match k {
        PortKind::Headphones => DeviceType::Headphones,
        PortKind::Speaker => DeviceType::Speaker,
        PortKind::Headset => DeviceType::Headset,
        PortKind::Hdmi => DeviceType::Hdmi,
        PortKind::Other => DeviceType::Speaker,
    }
}

/// `p` is what the bar keeps of the available port `q`; it is active when
/// its name is the active port's, both possibly absent.
pub open spec fn kept_port(p: Port, q: PortInfo, active_port: Option<Seq<char>>) -> bool {
    &&& p.name@ == match q.name {
        Some(n) => n@,
        None => Seq::empty(),
    }
    &&& p.description@ == q.description@
    &&& p.device_type == type_of(q.kind)
    &&& p.active == (active_port == match q.name {
        Some(n) => Some(n@),
        None => None::<Seq<char>>,
    })
}

/// The available ports, in order.
pub open spec fn available_ports(ports: Seq<PortInfo>) -> Seq<PortInfo> {
    ports.filter(|q: PortInfo| q.available)
}

/// The ports of a device as the bar keeps them: the available ones, typed,
/// the active one marked.
pub fn ports_from(ports: &Vec<PortInfo>, active_port: Option<&str>) -> (r: Vec<Port>)
    ensures
        r@.len() == available_ports(ports@).len(),
        forall|i: int|
            0 <= i < r@.len() ==> kept_port(
                #[trigger] r@[i],
                available_ports(ports@)[i],
                match active_port {
                    Some(a) => Some(a@),
                    None => None,
                },
            ),
{
    let ghost act = match active_port {
        Some(a) => Some(a@),
        None => None::<Seq<char>>,
    };
    let ghost pred = |q: PortInfo| q.available;
    let mut r: Vec<Port> = Vec::new();
    let mut i: usize = 0;
    while i < ports.len()
        invariant
            pred == (|q: PortInfo| q.available),
            act == match active_port {
                Some(a) => Some(a@),
                None => None::<Seq<char>>,
            },
            i <= ports@.len(),
            r@.len() == ports@.take(i as int).filter(pred).len(),
            forall|j: int| 0 <= j < r@.len() ==> kept_port(#[trigger] r@[j], ports@.take(i as int).filter(pred)[j], act),
        decreases ports@.len() - i,
    {
        proof {
            ports@.take(i as int).lemma_filter_push(ports@[i as int], pred);
            assert(ports@.take(i + 1) =~= ports@.take(i as int).push(ports@[i as int]));
        }
        let q = &ports[i];
        if q.available {
            let name = match &q.name {
                Some(n) => n.clone(),
                None => String::new(),
            };
            let active = match (active_port, &q.name) {
                (Some(a), Some(n)) => str_eq(a, n.as_str()),
                (None, None) => true,
                _ => false,
            };
            let device_type = match q.kind {
                PortKind::Headphones => DeviceType::Headphones,
                PortKind::Speaker => DeviceType::Speaker,
                PortKind::Headset => DeviceType::Headset,
                PortKind::Hdmi => DeviceType::Hdmi,
                PortKind::Other => DeviceType::Speaker,
            };
            r.push(Port { name, description: q.description.clone(), device_type, active });
        }
        i = i + 1;
    }
    assert(ports@.take(ports@.len() as int) =~= ports@);
    r
}

} // verus!
