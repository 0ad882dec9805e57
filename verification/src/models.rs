//! The data the backend serves: DVR information, channels, discovered
//! devices, stream records and the response envelope.

use vstd::prelude::*;
use crate::text::owned;

verus! {

/// A point in time: whole seconds since the Unix epoch and the nanoseconds
/// past that second.
#[derive(Debug, Clone, Copy, PartialEq, Eq, Structural)]
pub struct Timestamp {
    pub secs: i64,
    pub nanos: u32,
}

/// A copy of an optional string that equals it.
pub fn copy_opt_string(s: &Option<String>) -> (r: Option<String>)
    ensures
        r == *s,
{
    match s {
        Some(t) => Some(t.clone()),
        None => None,
    }
}

// ─── DVR Info ────────────────────────────────────────────────────────────────

/// DVR device information.
#[derive(Debug)]
pub struct DvrInfo {
    pub device_name: String,
    pub device_id: String,
    pub model: String,
    pub serial_number: String,
    pub firmware_version: String,
    pub encoder_version: String,
    pub device_type: String,
    pub channel_count: u32,
}

impl DvrInfo {
    /// The values that `default` gives: name and model "Unknown", type
    /// "DVR", the other texts empty and no channels.
    pub open spec fn is_default(self) -> bool {
        &&& self.device_name@ == "Unknown"@
        &&& self.device_id@ == Seq::<char>::empty()
        &&& self.model@ == "Unknown"@
        &&& self.serial_number@ == Seq::<char>::empty()
        &&& self.firmware_version@ == Seq::<char>::empty()
        &&& self.encoder_version@ == Seq::<char>::empty()
        &&& self.device_type@ == "DVR"@
        &&& self.channel_count == 0
    }
}

impl Clone for DvrInfo {
    fn clone(&self) -> (r: Self)
        ensures
            r == *self,
    {
        DvrInfo {
            device_name: self.device_name.clone(),
            device_id: self.device_id.clone(),
            model: self.model.clone(),
            serial_number: self.serial_number.clone(),
            firmware_version: self.firmware_version.clone(),
            encoder_version: self.encoder_version.clone(),
            device_type: self.device_type.clone(),
            channel_count: self.channel_count,
        }
    }
}

impl Default for DvrInfo {
    fn default() -> (r: Self)
        ensures
            r.is_default(),
    {
        DvrInfo {
            device_name: owned("Unknown"),
            device_id: String::new(),
            model: owned("Unknown"),
            serial_number: String::new(),
            firmware_version: String::new(),
            encoder_version: String::new(),
            device_type: owned("DVR"),
            channel_count: 0,
        }
    }
}

// ─── Channel ────────────────────────────────────────────────────────────────

/// Whether a video channel is reachable.
#[derive(Debug, Clone, Copy, PartialEq, Eq, Structural)]
pub enum ChannelStatus {
    Online,
    Offline,
    Unknown,
}

impl ChannelStatus {
    /// The lower-case word for the status.
    pub open spec fn label(self) -> Seq<char> {
        match self {
            ChannelStatus::Online => "online"@,
            ChannelStatus::Offline => "offline"@,
            ChannelStatus::Unknown => "unknown"@,
        }
    }

    /// The lower-case word for the status, as it is displayed and serialised.
    pub fn to_string(&self) -> (r: String)
        ensures
            r@ == self.label(),
    {
        match self {
            ChannelStatus::Online => owned("online"),
            ChannelStatus::Offline => owned("offline"),
            ChannelStatus::Unknown => owned("unknown"),
        }
    }
}

/// A video input channel.
#[derive(Debug)]
pub struct Channel {
    pub id: u32,
    pub name: String,
    pub enabled: bool,
    pub status: ChannelStatus,
    pub resolution_width: Option<u32>,
    pub resolution_height: Option<u32>,
    pub video_codec: Option<String>,
}

impl Clone for Channel {
    fn clone(&self) -> (r: Self)
        ensures
            r == *self,
    {
        Channel {
            id: self.id,
            name: self.name.clone(),
            enabled: self.enabled,
            status: self.status,
            resolution_width: self.resolution_width,
            resolution_height: self.resolution_height,
            video_codec: copy_opt_string(&self.video_codec),
        }
    }
}

// ─── Discovered Device ──────────────────────────────────────────────────────

/// A camera device known behind the DVR. `id` is the 128-bit value of the
/// device's UUID.
#[derive(Debug)]
pub struct DiscoveredDevice {
    pub id: u128,
    pub channel_id: u32,
    pub name: String,
    pub status: ChannelStatus,
    pub ip_address: Option<String>,
    pub protocol: Option<String>,
    pub resolution: Option<String>,
    pub discovered_at: Timestamp,
    pub last_seen: Timestamp,
}

impl Clone for DiscoveredDevice {
    fn clone(&self) -> (r: Self)
        ensures
            r == *self,
    {
        DiscoveredDevice {
            id: self.id,
            channel_id: self.channel_id,
            name: self.name.clone(),
            status: self.status,
            ip_address: copy_opt_string(&self.ip_address),
            protocol: copy_opt_string(&self.protocol),
            resolution: copy_opt_string(&self.resolution),
            discovered_at: self.discovered_at,
            last_seen: self.last_seen,
        }
    }
}

// ─── Stream Info ────────────────────────────────────────────────────────────

/// The life-cycle state of a stream.
#[derive(Debug, Clone, Copy, PartialEq, Eq, Structural)]
pub enum StreamStatus {
    Starting,
    Running,
    Stopped,
    Error,
}

impl StreamStatus {
    /// The lower-case word for the status.
    pub open spec fn label(self) -> Seq<char> {
        match self {
            StreamStatus::Starting => "starting"@,
            StreamStatus::Running => "running"@,
            StreamStatus::Stopped => "stopped"@,
            StreamStatus::Error => "error"@,
        }
    }

    /// The lower-case word for the status, as it is displayed and serialised.
    pub fn to_string(&self) -> (r: String)
        ensures
            r@ == self.label(),
    {
        match self {
            StreamStatus::Starting => owned("starting"),
            StreamStatus::Running => owned("running"),
            StreamStatus::Stopped => owned("stopped"),
            StreamStatus::Error => owned("error"),
        }
    }
}

/// Information about a stream.
#[derive(Debug)]
pub struct StreamInfo {
    pub channel_id: u32,
    pub channel_name: String,
    pub status: StreamStatus,
    pub ws_url: String,
    pub started_at: Option<Timestamp>,
    pub pid: Option<u32>,
}

impl Clone for StreamInfo {
    fn clone(&self) -> (r: Self)
        ensures
            r == *self,
    {
        StreamInfo {
            channel_id: self.channel_id,
            channel_name: self.channel_name.clone(),
            status: self.status,
            ws_url: self.ws_url.clone(),
            started_at: self.started_at,
            pid: self.pid,
        }
    }
}

// ─── API Responses ──────────────────────────────────────────────────────────

/// The envelope of every API answer.
#[derive(Debug)]
pub struct ApiResponse<T> {
    pub success: bool,
    pub data: Option<T>,
    pub error: Option<String>,
}

impl<T> ApiResponse<T> {
    /// A successful answer carrying `data`.
    pub fn ok(data: T) -> (r: Self)
        ensures
            r.success,
            r.data == Some(data),
            r.error is None,
    {
        ApiResponse { success: true, data: Some(data), error: None }
    }

    /// A failed answer carrying the message `msg`.
    pub fn err(msg: &str) -> (r: Self)
        ensures
            !r.success,
            r.data is None,
            r.error matches Some(e) && e@ == msg@,
    {
        ApiResponse { success: false, data: None, error: Some(owned(msg)) }
    }
}

} // verus!
