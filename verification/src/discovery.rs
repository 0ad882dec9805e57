//! Camera discovery decisions: what the DVR's ISAPI answers turn into, how
//! known devices keep their identity from one discovery cycle to the next,
//! and the manual channel list used when the DVR cannot be queried.

use vstd::prelude::*;
use std::collections::HashMap;
use crate::config::AppConfig;
use crate::models::{Channel, ChannelStatus, DiscoveredDevice, DvrInfo, Timestamp, copy_opt_string};
use crate::order::{lemma_listing_by_keys, lemma_push_to_set, sorted_keys, strictly_increasing};
use crate::outside::{new_device_id, now};
use crate::text::{
    chars_of, chars_contain, contains, decimal, lemma_parse_decimal, owned, parse_unsigned,
    parse_unsigned_range, push_decimal, text_eq,
};
use crate::config::text_or;

verus! {

broadcast use vstd::string::group_string_axioms;

// ─── Device registry ────────────────────────────────────────────────────────

/// The devices known behind the DVR, by channel.
#[derive(Debug)]
pub struct DeviceRegistry {
    devices: HashMap<u32, DiscoveredDevice>,
}

impl View for DeviceRegistry {
    type V = Map<u32, DiscoveredDevice>;

    closed spec fn view(&self) -> Map<u32, DiscoveredDevice> {
        self.devices@
    }
}

/// Each device is filed under its own channel.
pub open spec fn keyed_by_channel(m: Map<u32, DiscoveredDevice>) -> bool {
    forall|k: u32| #[trigger] m.contains_key(k) ==> m[k].channel_id == k
}

impl DeviceRegistry {
    /// Each device is filed under its own channel.
    pub open spec fn wf(self) -> bool {
        keyed_by_channel(self@)
    }

    /// No devices.
    pub fn new() -> (r: Self)
        ensures
            r@ == Map::<u32, DiscoveredDevice>::empty(),
            r.wf(),
    {
        let r = DeviceRegistry { devices: HashMap::new() };
        assert(r@ =~= Map::<u32, DiscoveredDevice>::empty());
        r
    }

    /// Files `d` under its channel, replacing the device filed there.
    pub fn insert(&mut self, d: DiscoveredDevice)
        requires
            old(self).wf(),
        ensures
            final(self).wf(),
            final(self)@ == old(self)@.insert(d.channel_id, d),
    {
        broadcast use vstd::std_specs::hash::group_hash_axioms;
        self.devices.insert(d.channel_id, d);
    }

    /// The device of channel `channel_id`, if one is known.
    pub fn get(&self, channel_id: u32) -> (r: Option<DiscoveredDevice>)
        ensures
            match r {
                Some(d) => self@.contains_key(channel_id) && d == self@[channel_id],
                None => !self@.contains_key(channel_id),
            },
    {
        broadcast use vstd::std_specs::hash::group_hash_axioms;
        match self.devices.get(&channel_id) {
            Some(d) => Some(d.clone()),
            None => None,
        }
    }

    /// The number of known devices.
    pub fn len(&self) -> (r: usize)
        ensures
            r == self@.dom().len(),
    {
        broadcast use vstd::std_specs::hash::group_hash_axioms;
        self.devices.len()
    }

    /// Every device, in increasing channel order.
    pub fn list(&self) -> (r: Vec<DiscoveredDevice>)
        requires
            self.wf(),
        ensures
            r@.len() == self@.dom().len(),
            forall|i: int| 0 <= i < r@.len() ==> self@.contains_key(#[trigger] r@[i].channel_id)
                && r@[i] == self@[r@[i].channel_id],
            forall|i: int, j: int| 0 <= i < j < r@.len() ==> r@[i].channel_id < r@[j].channel_id,
            forall|k: u32| self@.contains_key(k) ==> exists|i: int| 0 <= i < r@.len() && #[trigger] r@[i].channel_id == k,
    {
        broadcast use vstd::std_specs::hash::group_hash_axioms;
        let keys = sorted_keys(&self.devices);
        let mut out: Vec<DiscoveredDevice> = Vec::new();
        let mut i: usize = 0;
        while i < keys.len()
            invariant
                self.wf(),
                strictly_increasing(keys@),
                keys@.to_set() == self@.dom(),
                i <= keys@.len(),
                out@.len() == i,
                forall|j: int| 0 <= j < i ==> #[trigger] out@[j] == self@[keys@[j]] && self@.contains_key(keys@[j]),
            decreases keys@.len() - i,
        {
            let k = keys[i];
            assert(keys@.to_set().contains(k));
            let d = match self.devices.get(&k) {
                Some(d) => d.clone(),
                None => {
                    return out;
                },
            };
            out.push(d);
            i = i + 1;
        }
        proof {
            lemma_listing_by_keys(self@, keys@, out@);
            assert forall|k: u32| self@.contains_key(k) implies exists|j: int| 0 <= j < out@.len() && #[trigger] out@[j].channel_id == k by {
                let j = choose|j: int| 0 <= j < out@.len() && #[trigger] keys@[j] == k;
                assert(out@[j].channel_id == k);
            }
        }
        out
    }
}


// ─── ISAPI answers ──────────────────────────────────────────────────────────

/// The fields of the DVR's `/ISAPI/System/deviceInfo` answer.
#[derive(Debug)]
pub struct IsapiDeviceInfo {
    pub device_name: Option<String>,
    pub device_id: Option<String>,
    pub model: Option<String>,
    pub serial_number: Option<String>,
    pub firmware_version: Option<String>,
    pub encoder_version: Option<String>,
    pub device_type: Option<String>,
}

/// One video input channel of the `/ISAPI/System/Video/inputs/channels`
/// answer.
#[derive(Debug)]
pub struct IsapiVideoInputChannel {
    pub id: Option<String>,
    pub name: Option<String>,
    pub video_input_enabled: Option<String>,
}

/// The camera behind an input proxy channel.
#[derive(Debug)]
pub struct IsapiSourceInput {
    pub ip_address: Option<String>,
    pub protocol: Option<String>,
}

/// One channel of the `/ISAPI/ContentMgmt/InputProxy/channels` answer.
#[derive(Debug)]
pub struct IsapiInputProxyChannel {
    pub id: Option<String>,
    pub name: Option<String>,
    pub source_input: Option<IsapiSourceInput>,
}

/// A copy of an optional string, or `default` when it is absent.
fn or_default(o: &Option<String>, default: &str) -> (r: String)
    ensures
        r@ == text_or(*o, default@),
{
    match o {
        Some(s) => s.clone(),
        None => owned(default),
    }
}

/// The DVR information an ISAPI device-info answer gives: absent name and
/// model read "Unknown", an absent type "DVR", other absent texts are empty;
/// the channel count is left at zero for discovery to fill in.
pub fn dvr_info_from_isapi(parsed: &IsapiDeviceInfo) -> (r: DvrInfo)
    ensures
        r.device_name@ == text_or(parsed.device_name, "Unknown"@),
        r.device_id@ == text_or(parsed.device_id, Seq::empty()),
        r.model@ == text_or(parsed.model, "Unknown"@),
        r.serial_number@ == text_or(parsed.serial_number, Seq::empty()),
        r.firmware_version@ == text_or(parsed.firmware_version, Seq::empty()),
        r.encoder_version@ == text_or(parsed.encoder_version, Seq::empty()),
        r.device_type@ == text_or(parsed.device_type, "DVR"@),
        r.channel_count == 0,
{
    proof {
        reveal_strlit("");
    }
    DvrInfo {
        device_name: or_default(&parsed.device_name, "Unknown"),
        device_id: or_default(&parsed.device_id, ""),
        model: or_default(&parsed.model, "Unknown"),
        serial_number: or_default(&parsed.serial_number, ""),
        firmware_version: or_default(&parsed.firmware_version, ""),
        encoder_version: or_default(&parsed.encoder_version, ""),
        device_type: or_default(&parsed.device_type, "DVR"),
        channel_count: 0,
    }
}

/// The number an optional ISAPI id denotes, if it is a valid `u32`.
pub open spec fn isapi_id(id: Option<String>) -> Option<nat> {
    match id {
        Some(s) => parse_unsigned(s@, u32::MAX as nat),
        None => None,
    }
}

/// An ISAPI id written as the decimal number of a `u32` denotes that
/// number; an empty id denotes none.
pub proof fn lemma_isapi_id_reads_decimal(id: Option<String>, n: nat)
    ensures
        n <= u32::MAX && (id matches Some(s) && s@ == decimal(n)) ==> isapi_id(id) == Some(n),
        (id matches Some(s) && s@.len() == 0) ==> isapi_id(id) is None,
{
    if n <= u32::MAX {
        lemma_parse_decimal(n, u32::MAX as nat);
    }
}

/// Parses an optional ISAPI id as a `u32`.
fn parse_isapi_id(id: &Option<String>) -> (r: Option<u32>)
    ensures
        match r {
            Some(v) => isapi_id(*id) == Some(v as nat),
            None => isapi_id(*id) is None,
        },
{
    match id {
        Some(s) => {
            let cs = chars_of(s.as_str());
            assert(cs@.subrange(0, cs@.len() as int) == cs@);
            parse_unsigned_range(&cs, 0, cs.len(), u32::MAX)
        },
        None => None,
    }
}

/// Whether an ISAPI flag reads as set: exactly `true` or `1`.
pub open spec fn isapi_flag(v: Option<String>) -> bool {
    match v {
        Some(s) => s@ == "true"@ || s@ == "1"@,
        None => false,
    }
}

/// The channel an ISAPI video input describes: an id that is not a valid
/// `u32` reads as 0, a missing name becomes "Channel <id>", the input is
/// enabled when its flag reads `true` or `1`, and its status is not yet
/// known.
pub fn channel_from_isapi(ch: &IsapiVideoInputChannel) -> (r: Channel)
    ensures
        r.id == match isapi_id(ch.id) {
            Some(v) => v,
            None => 0,
        },
        r.name@ == text_or(ch.name, "Channel "@ + decimal(r.id as nat)),
        r.enabled == isapi_flag(ch.video_input_enabled),
        r.status == ChannelStatus::Unknown,
        r.resolution_width is None,
        r.resolution_height is None,
        r.video_codec is None,
{
    let id = match parse_isapi_id(&ch.id) {
        Some(v) => v,
        None => 0,
    };
    let enabled = match &ch.video_input_enabled {
        Some(s) => text_eq(s.as_str(), "true") || text_eq(s.as_str(), "1"),
        None => false,
    };
    let name = match &ch.name {
        Some(n) => n.clone(),
        None => {
            let mut n = owned("Channel ");
            push_decimal(&mut n, id as u64);
            n
        },
    };
    Channel {
        id,
        name,
        enabled,
        status: ChannelStatus::Unknown,
        resolution_width: None,
        resolution_height: None,
        video_codec: None,
    }
}

/// The status a channel's status request implies: a failed request means
/// offline; an answer mentioning `online`, `OK` or `normal` means online;
/// otherwise one mentioning `offline` or `noVideo` means offline; any other
/// answer is taken as online.
pub open spec fn status_from_answer(answer: Option<Seq<char>>) -> ChannelStatus {
    match answer {
        None => ChannelStatus::Offline,
        Some(x) => if contains(x, "online"@) || contains(x, "OK"@) || contains(x, "normal"@) {
            ChannelStatus::Online
        } else if contains(x, "offline"@) || contains(x, "noVideo"@) {
            ChannelStatus::Offline
        } else {
            ChannelStatus::Online
        },
    }
}

/// How a status answer is read: an answer mentioning `online`, `OK` or
/// `normal` means online, whatever else it mentions; an answer mentioning
/// none of them is offline exactly when it mentions `offline` or `noVideo`;
/// and a failed request means offline.
pub proof fn lemma_status_answer_words(x: Seq<char>)
    ensures
        contains(x, "online"@) || contains(x, "OK"@) || contains(x, "normal"@)
            ==> status_from_answer(Some(x)) == ChannelStatus::Online,
        !(contains(x, "online"@) || contains(x, "OK"@) || contains(x, "normal"@)) ==> (
        status_from_answer(Some(x)) == ChannelStatus::Offline <==> (contains(x, "offline"@)
            || contains(x, "noVideo"@))),
        status_from_answer(Some(x)) != ChannelStatus::Unknown,
        status_from_answer(None) == ChannelStatus::Offline,
{
}

/// Whether `text` contains `word`.
fn text_contains(text: &Vec<char>, word: &str) -> (r: bool)
    ensures
        r == contains(text@, word@),
{
    let w = chars_of(word);
    chars_contain(text, &w)
}

/// The status of a channel from the answer to its status request (`None`
/// when the request failed).
pub fn channel_status_from_answer(answer: Option<&str>) -> (r: ChannelStatus)
    ensures
        r == status_from_answer(
            match answer {
                Some(a) => Some(a@),
                None => None,
            },
        ),
{
    match answer {
        None => ChannelStatus::Offline,
        Some(a) => {
            let x = chars_of(a);
            if text_contains(&x, "online") || text_contains(&x, "OK") || text_contains(
                &x,
                "normal",
            ) {
                ChannelStatus::Online
            } else if text_contains(&x, "offline") || text_contains(&x, "noVideo") {
                ChannelStatus::Offline
            } else {
                ChannelStatus::Online
            }
        },
    }
}


// ─── Identity of devices across cycles ──────────────────────────────────────

/// A freshly generated device id: a version-4 UUID (version nibble 4,
/// variant bits `10`).
pub open spec fn fresh_id(id: u128) -> bool {
    (id >> 76u128) & 0xfu128 == 4 && (id >> 62u128) & 0x3u128 == 2
}

/// The device filed under `k`, if any.
pub open spec fn lookup(m: Map<u32, DiscoveredDevice>, k: u32) -> Option<DiscoveredDevice> {
    if m.contains_key(k) {
        Some(m[k])
    } else {
        None
    }
}

/// `ch` with its status replaced by `status`.
pub open spec fn with_channel_status(ch: Channel, status: ChannelStatus) -> Channel {
    Channel {
        id: ch.id,
        name: ch.name,
        enabled: ch.enabled,
        status,
        resolution_width: ch.resolution_width,
        resolution_height: ch.resolution_height,
        video_codec: ch.video_codec,
    }
}

/// `d` is the device a discovery cycle records for channel `ch`: a device
/// already known keeps its id, address, protocol and discovery time; a new
/// one gets a fresh id and is discovered when it is last seen.
pub open spec fn rediscovered(d: DiscoveredDevice, existing: Option<DiscoveredDevice>, ch: Channel) -> bool {
    &&& d.channel_id == ch.id
    &&& d.name == ch.name
    &&& d.status == ch.status
    &&& d.resolution is None
    &&& match existing {
        Some(e) => {
            &&& d.id == e.id
            &&& d.ip_address == e.ip_address
            &&& d.protocol == e.protocol
            &&& d.discovered_at == e.discovered_at
        },
        None => {
            &&& fresh_id(d.id)
            &&& d.ip_address is None
            &&& d.protocol is None
            &&& d.discovered_at == d.last_seen
        },
    }
}

/// The channel the manual list gives for channel number `c`.
pub open spec fn is_manual_channel(ch: Channel, c: u32, status: ChannelStatus) -> bool {
    &&& ch.id == c
    &&& ch.name@ == "Cam_"@ + decimal(c as nat)
    &&& ch.enabled
    &&& ch.status == status
    &&& ch.resolution_width is None
    &&& ch.resolution_height is None
    &&& ch.video_codec is None
}

/// `name` is `Cam_` followed by the decimal number of channel `c`.
pub open spec fn names_channel(name: Seq<char>, c: u32) -> bool {
    name.take(4) == "Cam_"@ && parse_unsigned(name.skip(4), u32::MAX as nat) == Some(c as nat)
}

proof fn lemma_cam_name(c: u32)
    ensures
        names_channel("Cam_"@ + decimal(c as nat), c),
{
    reveal_strlit("Cam_");
    let n = "Cam_"@ + decimal(c as nat);
    assert(n.take(4) =~= "Cam_"@);
    assert(n.skip(4) =~= decimal(c as nat));
    lemma_parse_decimal(c as nat, u32::MAX as nat);
}

/// In manual mode and in the manual fallback, a channel and its device are
/// named after the very channel number they stand for: the number read
/// back from the name `Cam_<n>` is the channel's own.
pub proof fn lemma_manual_names(
    ch: Channel,
    d: DiscoveredDevice,
    e: Option<DiscoveredDevice>,
    md: DiscoveredDevice,
    c: u32,
    st: ChannelStatus,
    host: Seq<char>,
    t: Timestamp,
)
    ensures
        is_manual_channel(ch, c, st) ==> ch.id == c && names_channel(ch.name@, c),
        fallback_device(d, e, c, t) ==> d.channel_id == c && names_channel(d.name@, c),
        manual_device(md, c, host, t) ==> md.channel_id == c && names_channel(md.name@, c),
{
    lemma_cam_name(c);
}

/// `d` is the device the manual fallback records for channel number `c` at
/// time `t`: a device already known keeps its id, address, protocol,
/// resolution and discovery time; a new one gets a fresh id and the `rtsp`
/// protocol.
pub open spec fn fallback_device(d: DiscoveredDevice, existing: Option<DiscoveredDevice>, c: u32, t: Timestamp) -> bool {
    &&& d.channel_id == c
    &&& d.name@ == "Cam_"@ + decimal(c as nat)
    &&& d.status == ChannelStatus::Unknown
    &&& d.last_seen == t
    &&& match existing {
        Some(e) => {
            &&& d.id == e.id
            &&& d.ip_address == e.ip_address
            &&& d.protocol == e.protocol
            &&& d.resolution == e.resolution
            &&& d.discovered_at == e.discovered_at
        },
        None => {
            &&& fresh_id(d.id)
            &&& d.ip_address is None
            &&& d.protocol matches Some(p) && p@ == "rtsp"@
            &&& d.resolution is None
            &&& d.discovered_at == t
        },
    }
}

/// The DVR information the manual fallback records: the given information
/// (or the defaults), named "Manual RTSP Mode" if its name is "Unknown",
/// with `count` channels.
pub open spec fn fallback_info(base: Option<DvrInfo>, count: u32, r: DvrInfo) -> bool {
    &&& r.channel_count == count
    &&& match base {
        Some(b) => {
            &&& r.device_name@ == (if b.device_name@ == "Unknown"@ {
                "Manual RTSP Mode"@
            } else {
                b.device_name@
            })
            &&& r.device_id == b.device_id
            &&& r.model == b.model
            &&& r.serial_number == b.serial_number
            &&& r.firmware_version == b.firmware_version
            &&& r.encoder_version == b.encoder_version
            &&& r.device_type == b.device_type
        },
        None => {
            &&& r.device_name@ == "Manual RTSP Mode"@
            &&& r.device_id@ == Seq::<char>::empty()
            &&& r.model@ == "Unknown"@
            &&& r.serial_number@ == Seq::<char>::empty()
            &&& r.firmware_version@ == Seq::<char>::empty()
            &&& r.encoder_version@ == Seq::<char>::empty()
            &&& r.device_type@ == "DVR"@
        },
    }
}

/// The state the manual fallback leaves at time `t`, given configured
/// channel numbers `config`, the DVR information `dvr_info` it starts from
/// and the devices known before.
pub open spec fn fallback_applied(
    config: Seq<u32>,
    dvr_info: Option<DvrInfo>,
    t: Timestamp,
    before: Map<u32, DiscoveredDevice>,
    devices: Map<u32, DiscoveredDevice>,
    info: Option<DvrInfo>,
    channels: Seq<Channel>,
) -> bool {
    &&& channels.len() == config.len()
    &&& forall|i: int|
        0 <= i < config.len() ==> is_manual_channel(
            #[trigger] channels[i],
            config[i],
            ChannelStatus::Unknown,
        )
    &&& devices.dom() == config.to_set()
    &&& forall|c: u32|
        #[trigger] devices.contains_key(c) ==> fallback_device(devices[c], lookup(before, c), c, t)
    &&& info matches Some(i) && fallback_info(dvr_info, config.len() as u32, i)
}

/// The text "Cam_<c>".
fn manual_name(c: u32) -> (r: String)
    ensures
        r@ == "Cam_"@ + decimal(c as nat),
{
    let mut n = owned("Cam_");
    push_decimal(&mut n, c as u64);
    n
}

/// The channel the manual list gives for channel number `c`.
fn manual_channel(c: u32, status: ChannelStatus) -> (r: Channel)
    ensures
        is_manual_channel(r, c, status),
{
    Channel {
        id: c,
        name: manual_name(c),
        enabled: true,
        status,
        resolution_width: None,
        resolution_height: None,
        video_codec: None,
    }
}

/// The device the manual fallback records for channel number `c` at `t`.
fn fallback_entry(existing: Option<DiscoveredDevice>, c: u32, t: Timestamp) -> (d: DiscoveredDevice)
    ensures
        fallback_device(d, existing, c, t),
{
    match existing {
        Some(e) => DiscoveredDevice {
            id: e.id,
            channel_id: c,
            name: manual_name(c),
            status: ChannelStatus::Unknown,
            ip_address: e.ip_address,
            protocol: e.protocol,
            resolution: e.resolution,
            discovered_at: e.discovered_at,
            last_seen: t,
        },
        None => DiscoveredDevice {
            id: new_device_id(),
            channel_id: c,
            name: manual_name(c),
            status: ChannelStatus::Unknown,
            ip_address: None,
            protocol: Some(owned("rtsp")),
            resolution: None,
            discovered_at: t,
            last_seen: t,
        },
    }
}

/// The DVR information the manual fallback records.
fn manual_info(base: Option<DvrInfo>, count: u32) -> (r: DvrInfo)
    ensures
        fallback_info(base, count, r),
{
    let mut info = match base {
        Some(b) => b,
        None => DvrInfo::default(),
    };
    if text_eq(info.device_name.as_str(), "Unknown") {
        info.device_name = owned("Manual RTSP Mode");
    }
    info.channel_count = count;
    info
}

/// The manual fallback at time `t`: when channels are configured, the
/// channel list becomes those channels (named "Cam_<n>", enabled, status
/// unknown), the devices become one per configured channel (see
/// [`fallback_device`]), and the DVR information becomes
/// [`fallback_info`]. Without configured channels nothing changes.
pub fn fallback_to_manual_channels_at(
    config_channels: &Vec<u32>,
    dvr_info: Option<DvrInfo>,
    t: Timestamp,
    devices: &mut DeviceRegistry,
    info_slot: &mut Option<DvrInfo>,
    channels: &mut Vec<Channel>,
)
    requires
        old(devices).wf(),
    ensures
        final(devices).wf(),
        config_channels@.len() == 0 ==> final(devices)@ == old(devices)@ && *final(info_slot)
            == *old(info_slot) && final(channels)@ == old(channels)@,
        config_channels@.len() > 0 ==> fallback_applied(
            config_channels@,
            dvr_info,
            t,
            old(devices)@,
            final(devices)@,
            *final(info_slot),
            final(channels)@,
        ),
{
    if config_channels.len() == 0 {
        return ;
    }
    let mut new_channels: Vec<Channel> = Vec::new();
    let mut new_devices = DeviceRegistry::new();
    let mut i: usize = 0;
    while i < config_channels.len()
        invariant
            old(devices).wf(),
            devices@ == old(devices)@,
            i <= config_channels@.len(),
            new_channels@.len() == i,
            forall|j: int|
                0 <= j < i ==> is_manual_channel(
                    #[trigger] new_channels@[j],
                    config_channels@[j],
                    ChannelStatus::Unknown,
                ),
            new_devices.wf(),
            new_devices@.dom() == config_channels@.take(i as int).to_set(),
            forall|c: u32|
                #[trigger] new_devices@.contains_key(c) ==> fallback_device(
                    new_devices@[c],
                    lookup(old(devices)@, c),
                    c,
                    t,
                ),
        decreases config_channels@.len() - i,
    {
        let c = config_channels[i];
        new_channels.push(manual_channel(c, ChannelStatus::Unknown));
        let existing = devices.get(c);
        let d = fallback_entry(existing, c, t);
        let ghost before = new_devices@;
        new_devices.insert(d);
        proof {
            let a = config_channels@.take(i as int);
            let b = config_channels@.take(i + 1);
            assert(b == a.push(c));
            lemma_push_to_set(a, c);
            assert(new_devices@.dom() =~= b.to_set());
        }
        i = i + 1;
    }
    assert(config_channels@.take(config_channels@.len() as int) == config_channels@);
    let count = config_channels.len() as u32;
    *info_slot = Some(manual_info(dvr_info, count));
    *channels = new_channels;
    *devices = new_devices;
}

/// The manual fallback, stamped with the current time: as
/// [`fallback_to_manual_channels_at`] describes, for some current time.
pub fn fallback_to_manual_channels(
    config_channels: &Vec<u32>,
    dvr_info: Option<DvrInfo>,
    devices: &mut DeviceRegistry,
    info_slot: &mut Option<DvrInfo>,
    channels: &mut Vec<Channel>,
)
    requires
        old(devices).wf(),
    ensures
        final(devices).wf(),
        config_channels@.len() == 0 ==> final(devices)@ == old(devices)@ && *final(info_slot)
            == *old(info_slot) && final(channels)@ == old(channels)@,
        config_channels@.len() > 0 ==> exists|t: Timestamp|
            #[trigger] fallback_applied(
                config_channels@,
                dvr_info,
                t,
                old(devices)@,
                final(devices)@,
                *final(info_slot),
                final(channels)@,
            ),
{
    let t = now();
    fallback_to_manual_channels_at(config_channels, dvr_info, t, devices, info_slot, channels);
}


// ─── A successful discovery cycle ───────────────────────────────────────────

/// The device after input proxy channel `p` has been applied: when `p` has a
/// source input, its address and protocol are taken; when `p` has a
/// non-empty name, that name is taken.
pub open spec fn proxied_device(d: DiscoveredDevice, p: IsapiInputProxyChannel) -> DiscoveredDevice {
    DiscoveredDevice {
        id: d.id,
        channel_id: d.channel_id,
        name: match p.name {
            Some(n) => if n@.len() > 0 {
                n
            } else {
                d.name
            },
            None => d.name,
        },
        status: d.status,
        ip_address: match p.source_input {
            Some(src) => src.ip_address,
            None => d.ip_address,
        },
        protocol: match p.source_input {
            Some(src) => src.protocol,
            None => d.protocol,
        },
        resolution: d.resolution,
        discovered_at: d.discovered_at,
        last_seen: d.last_seen,
    }
}

/// The devices after input proxy channel `p` has been applied: `p`'s id
/// must be a `u32` naming a known device; other entries change nothing.
pub open spec fn apply_proxy(m: Map<u32, DiscoveredDevice>, p: IsapiInputProxyChannel) -> Map<
    u32,
    DiscoveredDevice,
> {
    match isapi_id(p.id) {
        Some(k) => if m.contains_key(k as u32) {
            m.insert(k as u32, proxied_device(m[k as u32], p))
        } else {
            m
        },
        None => m,
    }
}

/// The devices after the proxy channels `ps` have been applied in order.
pub open spec fn apply_proxies(m: Map<u32, DiscoveredDevice>, ps: Seq<IsapiInputProxyChannel>) -> Map<
    u32,
    DiscoveredDevice,
>
    decreases ps.len(),
{
    if ps.len() == 0 {
        m
    } else {
        apply_proxy(apply_proxies(m, ps.drop_last()), ps.last())
    }
}

/// Every device of `base` was recorded for the last of the `channels` that
/// carries its number, with that channel's fetched status, and every
/// channel has its device.
pub open spec fn cycle_devices(
    base: Map<u32, DiscoveredDevice>,
    before: Map<u32, DiscoveredDevice>,
    channels: Seq<Channel>,
    statuses: Seq<ChannelStatus>,
) -> bool {
    &&& forall|i: int| 0 <= i < channels.len() ==> base.contains_key(#[trigger] channels[i].id)
    &&& forall|k: u32|
        #[trigger] base.contains_key(k) ==> exists|i: int|
            0 <= i < channels.len() && #[trigger] channels[i].id == k && (forall|j: int|
                i < j < channels.len() ==> channels[j].id != k) && rediscovered(
                base[k],
                lookup(before, k),
                with_channel_status(channels[i], statuses[i]),
            )
}

/// Applying proxy channels keeps every device filed where it was, with its
/// id, channel, status and discovery time.
pub proof fn lemma_proxies_keep_identity(m: Map<u32, DiscoveredDevice>, ps: Seq<IsapiInputProxyChannel>)
    ensures
        apply_proxies(m, ps).dom() == m.dom(),
        forall|k: u32|
            #[trigger] m.contains_key(k) ==> apply_proxies(m, ps)[k].id == m[k].id
                && apply_proxies(m, ps)[k].channel_id == m[k].channel_id
                && apply_proxies(m, ps)[k].status == m[k].status
                && apply_proxies(m, ps)[k].discovered_at == m[k].discovered_at,
    decreases ps.len(),
{
    if ps.len() > 0 {
        lemma_proxies_keep_identity(m, ps.drop_last());
        let m1 = apply_proxies(m, ps.drop_last());
        assert(apply_proxy(m1, ps.last()).dom() =~= m1.dom());
    }
}

/// Proxy `p` gives channel `k` its source address and protocol.
pub open spec fn sets_source(p: IsapiInputProxyChannel, k: u32) -> bool {
    isapi_id(p.id) == Some(k as nat) && p.source_input is Some
}

/// Proxy `p` gives channel `k` its (non-empty) name.
pub open spec fn sets_name(p: IsapiInputProxyChannel, k: u32) -> bool {
    isapi_id(p.id) == Some(k as nat) && (p.name matches Some(n) && n@.len() > 0)
}

/// What the input proxy channels do to a known device, whatever its
/// status: its address and protocol are those of the source input of the
/// last proxy naming it that has one, and its name is the last non-empty
/// name such a proxy gives; without such a proxy they are kept.
pub proof fn lemma_proxies_applied(m: Map<u32, DiscoveredDevice>, ps: Seq<IsapiInputProxyChannel>, k: u32)
    requires
        m.contains_key(k),
    ensures
        apply_proxies(m, ps).contains_key(k),
        forall|j: int|
            0 <= j < ps.len() && sets_source(#[trigger] ps[j], k) && (forall|l: int|
                j < l < ps.len() ==> !sets_source(#[trigger] ps[l], k)) ==> apply_proxies(m, ps)[k].ip_address
                == ps[j].source_input->0.ip_address && apply_proxies(m, ps)[k].protocol
                == ps[j].source_input->0.protocol,
        (forall|j: int| 0 <= j < ps.len() ==> !sets_source(#[trigger] ps[j], k)) ==> apply_proxies(
            m,
            ps,
        )[k].ip_address == m[k].ip_address && apply_proxies(m, ps)[k].protocol == m[k].protocol,
        forall|j: int|
            0 <= j < ps.len() && sets_name(#[trigger] ps[j], k) && (forall|l: int|
                j < l < ps.len() ==> !sets_name(#[trigger] ps[l], k)) ==> apply_proxies(m, ps)[k].name
                == ps[j].name->0,
        (forall|j: int| 0 <= j < ps.len() ==> !sets_name(#[trigger] ps[j], k)) ==> apply_proxies(
            m,
            ps,
        )[k].name == m[k].name,
    decreases ps.len(),
{
    lemma_proxies_keep_identity(m, ps);
    if ps.len() > 0 {
        let q = ps.drop_last();
        let p = ps.last();
        let n = ps.len() - 1;
        lemma_proxies_applied(m, q, k);
        lemma_proxies_keep_identity(m, q);
        let m1 = apply_proxies(m, q);
        let d1 = m1[k];
        let d = apply_proxies(m, ps)[k];
        assert(ps[n] == p);
        assert forall|j: int| 0 <= j < q.len() implies q[j] == ps[j] by {}
        if isapi_id(p.id) == Some(k as nat) {
            assert(d == proxied_device(d1, p));
        } else {
            assert(d == d1);
            assert(!sets_source(ps[n], k));
            assert(!sets_name(ps[n], k));
        }
        assert forall|j: int|
            0 <= j < ps.len() && sets_source(#[trigger] ps[j], k) && (forall|l: int|
                j < l < ps.len() ==> !sets_source(#[trigger] ps[l], k)) implies d.ip_address
            == ps[j].source_input->0.ip_address && d.protocol == ps[j].source_input->0.protocol by {
            if j < n {
                assert(!sets_source(ps[n], k));
                assert(q[j] == ps[j]);
                assert(forall|l: int| j < l < q.len() ==> !sets_source(#[trigger] q[l], k)) by {
                    assert forall|l: int| j < l < q.len() implies !sets_source(#[trigger] q[l], k) by {
                        assert(q[l] == ps[l]);
                    }
                }
            }
        }
        if forall|j: int| 0 <= j < ps.len() ==> !sets_source(#[trigger] ps[j], k) {
            assert(!sets_source(ps[n], k));
            assert forall|j: int| 0 <= j < q.len() implies !sets_source(#[trigger] q[j], k) by {
                assert(q[j] == ps[j]);
            }
        }
        assert forall|j: int|
            0 <= j < ps.len() && sets_name(#[trigger] ps[j], k) && (forall|l: int|
                j < l < ps.len() ==> !sets_name(#[trigger] ps[l], k)) implies d.name
            == ps[j].name->0 by {
            if j < n {
                assert(!sets_name(ps[n], k));
                assert(q[j] == ps[j]);
                assert(forall|l: int| j < l < q.len() ==> !sets_name(#[trigger] q[l], k)) by {
                    assert forall|l: int| j < l < q.len() implies !sets_name(#[trigger] q[l], k) by {
                        assert(q[l] == ps[l]);
                    }
                }
            }
        }
        if forall|j: int| 0 <= j < ps.len() ==> !sets_name(#[trigger] ps[j], k) {
            assert(!sets_name(ps[n], k));
            assert forall|j: int| 0 <= j < q.len() implies !sets_name(#[trigger] q[j], k) by {
                assert(q[j] == ps[j]);
            }
        }
    }
}

/// A device known before a successful discovery cycle that is still
/// listed keeps its id and its discovery time, whatever the proxy channels
/// say.
pub proof fn lemma_known_device_keeps_identity(
    base: Map<u32, DiscoveredDevice>,
    before: Map<u32, DiscoveredDevice>,
    channels: Seq<Channel>,
    statuses: Seq<ChannelStatus>,
    proxies: Seq<IsapiInputProxyChannel>,
    k: u32,
)
    requires
        cycle_devices(base, before, channels, statuses),
        before.contains_key(k),
        base.contains_key(k),
    ensures
        apply_proxies(base, proxies).contains_key(k),
        apply_proxies(base, proxies)[k].id == before[k].id,
        apply_proxies(base, proxies)[k].discovered_at == before[k].discovered_at,
        apply_proxies(base, proxies)[k].channel_id == k,
{
    lemma_proxies_keep_identity(base, proxies);
    let i = choose|i: int|
        0 <= i < channels.len() && #[trigger] channels[i].id == k && (forall|j: int|
            i < j < channels.len() ==> channels[j].id != k) && rediscovered(
            base[k],
            lookup(before, k),
            with_channel_status(channels[i], statuses[i]),
        );
}

/// A copy of a proxy's source input.
fn copy_source(s: &IsapiSourceInput) -> (r: IsapiSourceInput)
    ensures
        r == *s,
{
    IsapiSourceInput {
        ip_address: copy_opt_string(&s.ip_address),
        protocol: copy_opt_string(&s.protocol),
    }
}

/// Applies one input proxy channel to the devices.
fn apply_proxy_to(devices: &mut DeviceRegistry, p: &IsapiInputProxyChannel)
    requires
        old(devices).wf(),
    ensures
        final(devices).wf(),
        final(devices)@ == apply_proxy(old(devices)@, *p),
{
    let k = match parse_isapi_id(&p.id) {
        Some(k) => k,
        None => {
            return ;
        },
    };
    let mut d = match devices.get(k) {
        Some(d) => d,
        None => {
            return ;
        },
    };
    if let Some(src) = &p.source_input {
        let src = copy_source(src);
        d.ip_address = src.ip_address;
        d.protocol = src.protocol;
    }
    if let Some(name) = &p.name {
        if name.as_str().unicode_len() > 0 {
            d.name = name.clone();
        }
    }
    proof {
        assert(d == proxied_device(old(devices)@[k], *p));
    }
    devices.insert(d);
}

/// The device a discovery cycle records for channel `ch` (whose status has
/// been fetched), given the device known before for its number.
fn rediscover(existing: Option<DiscoveredDevice>, ch: &Channel) -> (d: DiscoveredDevice)
    ensures
        rediscovered(d, existing, *ch),
{
    let seen = now();
    match existing {
        Some(e) => DiscoveredDevice {
            id: e.id,
            channel_id: ch.id,
            name: ch.name.clone(),
            status: ch.status,
            ip_address: e.ip_address,
            protocol: e.protocol,
            resolution: None,
            discovered_at: e.discovered_at,
            last_seen: seen,
        },
        None => DiscoveredDevice {
            id: new_device_id(),
            channel_id: ch.id,
            name: ch.name.clone(),
            status: ch.status,
            ip_address: None,
            protocol: None,
            resolution: None,
            discovered_at: seen,
            last_seen: seen,
        },
    }
}

/// `info` with `count` channels.
pub open spec fn info_with_count(info: DvrInfo, count: u32) -> DvrInfo {
    DvrInfo {
        device_name: info.device_name,
        device_id: info.device_id,
        model: info.model,
        serial_number: info.serial_number,
        firmware_version: info.firmware_version,
        encoder_version: info.encoder_version,
        device_type: info.device_type,
        channel_count: count,
    }
}

/// Records a successful discovery cycle: the DVR information with the
/// number of channels, the channels with their fetched statuses, and one
/// device per channel number (see [`rediscovered`]), to which the input
/// proxy channels are then applied in order (see [`apply_proxy`]).
pub fn apply_discovery(
    info: DvrInfo,
    channels: Vec<Channel>,
    statuses: &Vec<ChannelStatus>,
    proxies: &Vec<IsapiInputProxyChannel>,
    devices: &mut DeviceRegistry,
    info_slot: &mut Option<DvrInfo>,
    channels_slot: &mut Vec<Channel>,
)
    requires
        old(devices).wf(),
        statuses@.len() == channels@.len(),
    ensures
        final(devices).wf(),
        *final(info_slot) == Some(info_with_count(info, channels@.len() as u32)),
        final(channels_slot)@.len() == channels@.len(),
        forall|i: int|
            0 <= i < channels@.len() ==> #[trigger] final(channels_slot)@[i] == with_channel_status(
                channels@[i],
                statuses@[i],
            ),
        exists|base: Map<u32, DiscoveredDevice>|
            #[trigger] cycle_devices(base, old(devices)@, channels@, statuses@) && base.dom()
                == final(devices)@.dom() && final(devices)@ == apply_proxies(base, proxies@),
{
    let count = channels.len() as u32;
    let mut info = info;
    info.channel_count = count;
    *info_slot = Some(info);
    let mut updated: Vec<Channel> = Vec::new();
    let mut found = DeviceRegistry::new();
    let mut i: usize = 0;
    while i < channels.len()
        invariant
            old(devices).wf(),
            devices@ == old(devices)@,
            statuses@.len() == channels@.len(),
            i <= channels@.len(),
            updated@.len() == i,
            forall|j: int|
                0 <= j < i ==> #[trigger] updated@[j] == with_channel_status(
                    channels@[j],
                    statuses@[j],
                ),
            found.wf(),
            cycle_devices(found@, old(devices)@, channels@.take(i as int), statuses@.take(i as int)),
        decreases channels@.len() - i,
    {
        let mut ch = channels[i].clone();
        ch.status = statuses[i];
        let existing = devices.get(ch.id);
        let d = rediscover(existing, &ch);
        let ghost before = found@;
        found.insert(d);
        proof {
            let cs = channels@.take(i + 1);
            let ss = statuses@.take(i + 1);
            let cs0 = channels@.take(i as int);
            let ss0 = statuses@.take(i as int);
            assert(ch == with_channel_status(channels@[i as int], statuses@[i as int]));
            assert forall|j: int| 0 <= j < cs.len() implies found@.contains_key(#[trigger] cs[j].id) by {
                if j < i {
                    assert(cs[j] == cs0[j]);
                }
            }
            assert forall|k: u32| #[trigger] found@.contains_key(k) implies exists|j: int|
                0 <= j < cs.len() && #[trigger] cs[j].id == k && (forall|m: int|
                    j < m < cs.len() ==> cs[m].id != k) && rediscovered(
                    found@[k],
                    lookup(old(devices)@, k),
                    with_channel_status(cs[j], ss[j]),
                ) by {
                if k == ch.id {
                    assert(cs[i as int] == channels@[i as int]);
                    assert(ss[i as int] == statuses@[i as int]);
                } else {
                    assert(before.contains_key(k));
                    let j = choose|j: int|
                        0 <= j < cs0.len() && #[trigger] cs0[j].id == k && (forall|m: int|
                            j < m < cs0.len() ==> cs0[m].id != k) && rediscovered(
                            before[k],
                            lookup(old(devices)@, k),
                            with_channel_status(cs0[j], ss0[j]),
                        );
                    assert(cs[j] == cs0[j]);
                    assert(ss[j] == ss0[j]);
                    assert(cs[i as int].id == ch.id);
                    assert forall|m: int| j < m < cs.len() implies cs[m].id != k by {
                        if m < i {
                            assert(cs[m] == cs0[m]);
                        }
                    }
                }
            }
        }
        updated.push(ch);
        i = i + 1;
    }
    assert(channels@.take(channels@.len() as int) == channels@);
    assert(statuses@.take(statuses@.len() as int) == statuses@);
    let ghost base = found@;
    let mut j: usize = 0;
    while j < proxies.len()
        invariant
            found.wf(),
            j <= proxies@.len(),
            found@ == apply_proxies(base, proxies@.take(j as int)),
            found@.dom() == base.dom(),
        decreases proxies@.len() - j,
    {
        apply_proxy_to(&mut found, &proxies[j]);
        proof {
            let ps = proxies@.take(j + 1);
            assert(ps.drop_last() == proxies@.take(j as int));
            assert(ps.last() == proxies@[j as int]);
        }
        j = j + 1;
    }
    assert(proxies@.take(proxies@.len() as int) == proxies@);
    *channels_slot = updated;
    *devices = found;
}


/// What a discovery cycle fetched from the DVR.
#[derive(Debug)]
pub enum DiscoveryOutcome {
    /// The device information could not be fetched.
    InfoFailed,
    /// The device information was fetched, the channel list was not.
    ChannelsFailed(DvrInfo),
    /// Everything was fetched: the information, the channels, each
    /// channel's status (in channel order) and the input proxy channels
    /// (none when they could not be fetched or parsed).
    Fetched {
        info: DvrInfo,
        channels: Vec<Channel>,
        statuses: Vec<ChannelStatus>,
        proxies: Vec<IsapiInputProxyChannel>,
    },
}

/// The device information a failed cycle keeps for the fallback.
pub open spec fn kept_info(outcome: DiscoveryOutcome) -> Option<DvrInfo> {
    match outcome {
        DiscoveryOutcome::ChannelsFailed(info) => Some(info),
        _ => None,
    }
}

/// Records the outcome of one discovery cycle: a complete fetch is
/// recorded by [`apply_discovery`]; a failed one switches to the manual
/// channel list ([`fallback_to_manual_channels`]), keeping the device
/// information when it was fetched.
pub fn discover_once(
    config_channels: &Vec<u32>,
    outcome: DiscoveryOutcome,
    devices: &mut DeviceRegistry,
    info_slot: &mut Option<DvrInfo>,
    channels_slot: &mut Vec<Channel>,
)
    requires
        old(devices).wf(),
        outcome matches DiscoveryOutcome::Fetched { channels, statuses, .. } ==> statuses@.len()
            == channels@.len(),
    ensures
        final(devices).wf(),
        outcome matches DiscoveryOutcome::Fetched { info, channels, statuses, proxies } ==> {
            &&& *final(info_slot) == Some(info_with_count(info, channels@.len() as u32))
            &&& final(channels_slot)@.len() == channels@.len()
            &&& forall|i: int|
                0 <= i < channels@.len() ==> #[trigger] final(channels_slot)@[i]
                    == with_channel_status(channels@[i], statuses@[i])
            &&& exists|base: Map<u32, DiscoveredDevice>|
                #[trigger] cycle_devices(base, old(devices)@, channels@, statuses@) && base.dom()
                    == final(devices)@.dom() && final(devices)@ == apply_proxies(base, proxies@)
        },
        !(outcome is Fetched) && config_channels@.len() == 0 ==> final(devices)@ == old(
            devices,
        )@ && *final(info_slot) == *old(info_slot) && final(channels_slot)@ == old(
            channels_slot,
        )@,
        !(outcome is Fetched) && config_channels@.len() > 0 ==> exists|t: Timestamp|
            #[trigger] fallback_applied(
                config_channels@,
                kept_info(outcome),
                t,
                old(devices)@,
                final(devices)@,
                *final(info_slot),
                final(channels_slot)@,
            ),
{
    match outcome {
        DiscoveryOutcome::InfoFailed => {
            fallback_to_manual_channels(config_channels, None, devices, info_slot, channels_slot);
        },
        DiscoveryOutcome::ChannelsFailed(info) => {
            fallback_to_manual_channels(
                config_channels,
                Some(info),
                devices,
                info_slot,
                channels_slot,
            );
        },
        DiscoveryOutcome::Fetched { info, channels, statuses, proxies } => {
            apply_discovery(info, channels, &statuses, &proxies, devices, info_slot, channels_slot);
        },
    }
}

// ─── Manual RTSP mode ───────────────────────────────────────────────────────

/// What the server starts with in manual RTSP mode.
#[derive(Debug)]
pub struct ManualState {
    pub channels: Vec<Channel>,
    pub devices: DeviceRegistry,
    pub dvr_info: DvrInfo,
}

/// `d` is the device manual mode starts with for channel number `c` of a
/// DVR at `host`, at time `t`.
pub open spec fn manual_device(d: DiscoveredDevice, c: u32, host: Seq<char>, t: Timestamp) -> bool {
    &&& fresh_id(d.id)
    &&& d.channel_id == c
    &&& d.name@ == "Cam_"@ + decimal(c as nat)
    &&& d.status == ChannelStatus::Online
    &&& d.ip_address matches Some(a) && a@ == host
    &&& d.protocol matches Some(p) && p@ == "rtsp"@
    &&& d.resolution is None
    &&& d.discovered_at == t
    &&& d.last_seen == t
}

/// The state manual RTSP mode starts with at time `t`: one online channel
/// named "Cam_<n>" per configured channel, one device for each (reached at
/// the DVR's host over RTSP), and DVR information naming the mode.
pub open spec fn manual_state(config: AppConfig, t: Timestamp, s: ManualState) -> bool {
    &&& s.devices.wf()
    &&& s.channels@.len() == config.dvr_channels@.len()
    &&& forall|i: int|
        0 <= i < config.dvr_channels@.len() ==> is_manual_channel(
            #[trigger] s.channels@[i],
            config.dvr_channels@[i],
            ChannelStatus::Online,
        )
    &&& s.devices@.dom() == config.dvr_channels@.to_set()
    &&& forall|c: u32|
        #[trigger] s.devices@.contains_key(c) ==> manual_device(
            s.devices@[c],
            c,
            config.dvr_host@,
            t,
        )
    &&& s.dvr_info.device_name@ == "Manual RTSP"@
    &&& s.dvr_info.device_id@ == config.dvr_host@
    &&& s.dvr_info.model@ == "Hikvision"@
    &&& s.dvr_info.serial_number@ == Seq::<char>::empty()
    &&& s.dvr_info.firmware_version@ == Seq::<char>::empty()
    &&& s.dvr_info.encoder_version@ == Seq::<char>::empty()
    &&& s.dvr_info.device_type@ == "DVR"@
    &&& s.dvr_info.channel_count == config.dvr_channels@.len() as u32
}

/// The state manual RTSP mode starts with, stamped with the current time.
pub fn manual_mode(config: &AppConfig) -> (s: ManualState)
    ensures
        exists|t: Timestamp| #[trigger] manual_state(*config, t, s),
{
    let t = now();
    let mut channels: Vec<Channel> = Vec::new();
    let mut devices = DeviceRegistry::new();
    let cfg = &config.dvr_channels;
    let mut i: usize = 0;
    while i < cfg.len()
        invariant
            i <= cfg@.len(),
            cfg@ == config.dvr_channels@,
            channels@.len() == i,
            forall|j: int|
                0 <= j < i ==> is_manual_channel(#[trigger] channels@[j], cfg@[j], ChannelStatus::Online),
            devices.wf(),
            devices@.dom() == cfg@.take(i as int).to_set(),
            forall|c: u32|
                #[trigger] devices@.contains_key(c) ==> manual_device(
                    devices@[c],
                    c,
                    config.dvr_host@,
                    t,
                ),
        decreases cfg@.len() - i,
    {
        let c = cfg[i];
        channels.push(manual_channel(c, ChannelStatus::Online));
        let d = DiscoveredDevice {
            id: new_device_id(),
            channel_id: c,
            name: manual_name(c),
            status: ChannelStatus::Online,
            ip_address: Some(config.dvr_host.clone()),
            protocol: Some(owned("rtsp")),
            resolution: None,
            discovered_at: t,
            last_seen: t,
        };
        devices.insert(d);
        proof {
            let a = cfg@.take(i as int);
            let b = cfg@.take(i + 1);
            assert(b == a.push(c));
            lemma_push_to_set(a, c);
            assert(devices@.dom() =~= b.to_set());
        }
        i = i + 1;
    }
    assert(cfg@.take(cfg@.len() as int) == cfg@);
    proof {
        reveal_strlit("");
    }
    let dvr_info = DvrInfo {
        device_name: owned("Manual RTSP"),
        device_id: config.dvr_host.clone(),
        model: owned("Hikvision"),
        serial_number: String::new(),
        firmware_version: String::new(),
        encoder_version: String::new(),
        device_type: owned("DVR"),
        channel_count: cfg.len() as u32,
    };
    let s = ManualState { channels, devices, dvr_info };
    assert(manual_state(*config, t, s));
    s
}

} // verus!
