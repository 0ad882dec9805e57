//! What the HTTP and WebSocket handlers answer, from the state they read.

use vstd::prelude::*;
use crate::discovery::DeviceRegistry;
use crate::models::{ApiResponse, Channel, DiscoveredDevice, DvrInfo};
use crate::text::{decimal, owned, push_decimal, push_text};

verus! {

broadcast use vstd::string::group_string_axioms;

/// The message when the DVR information is not known yet.
pub open spec fn dvr_info_missing_message() -> Seq<char> {
    "DVR info not yet available. Discovery may still be running."@
}

/// `GET /api/dvr/info`: the DVR information, or an error while it is not
/// known yet.
pub fn dvr_info_response(info: &Option<DvrInfo>) -> (r: ApiResponse<DvrInfo>)
    ensures
        match info {
            Some(i) => r.success && r.data == Some(*i) && r.error is None,
            None => !r.success && r.data is None && (r.error matches Some(e) && e@
                == dvr_info_missing_message()),
        },
{
    match info {
        Some(i) => ApiResponse::ok(i.clone()),
        None => ApiResponse::err("DVR info not yet available. Discovery may still be running."),
    }
}

/// The message when no device is known for a channel.
pub open spec fn device_missing_message(id: u32) -> Seq<char> {
    "Device with channel ID "@ + decimal(id as nat) + " not found"@
}

/// `GET /api/devices/:id`: the device of channel `id`, or an error when none
/// is known.
pub fn device_response(devices: &DeviceRegistry, id: u32) -> (r: ApiResponse<DiscoveredDevice>)
    ensures
        devices@.contains_key(id) ==> r.success && r.data == Some(devices@[id]) && r.error is None,
        !devices@.contains_key(id) ==> !r.success && r.data is None && (r.error matches Some(e)
            && e@ == device_missing_message(id)),
{
    match devices.get(id) {
        Some(d) => ApiResponse::ok(d),
        None => {
            let mut m = owned("Device with channel ID ");
            push_decimal(&mut m, id as u64);
            push_text(&mut m, " not found");
            ApiResponse::err(m.as_str())
        },
    }
}

/// `GET /api/devices`: every known device, in increasing channel order.
pub fn device_list_response(devices: &DeviceRegistry) -> (r: ApiResponse<Vec<DiscoveredDevice>>)
    requires
        devices.wf(),
    ensures
        r.success,
        r.error is None,
        r.data matches Some(v) && {
            &&& v@.len() == devices@.dom().len()
            &&& forall|i: int|
                0 <= i < v@.len() ==> devices@.contains_key(#[trigger] v@[i].channel_id) && v@[i]
                    == devices@[v@[i].channel_id]
            &&& forall|i: int, j: int| 0 <= i < j < v@.len() ==> v@[i].channel_id < v@[j].channel_id
        },
{
    ApiResponse::ok(devices.list())
}

/// The name a stream gets: that of the first listed channel with the id,
/// or "Channel <id>" when none is listed.
pub open spec fn stream_name(channels: Seq<Channel>, id: u32) -> Seq<char> {
    if exists|i: int| 0 <= i < channels.len() && #[trigger] channels[i].id == id {
        let i = choose|i: int|
            0 <= i < channels.len() && #[trigger] channels[i].id == id && forall|j: int|
                0 <= j < i ==> channels[j].id != id;
        channels[i].name@
    } else {
        "Channel "@ + decimal(id as nat)
    }
}

/// The name a stream gets is that of the first listed channel carrying its
/// number, and "Channel <id>" only when no listed channel carries it.
pub proof fn lemma_stream_name_first(channels: Seq<Channel>, id: u32, i: int)
    ensures
        0 <= i < channels.len() && channels[i].id == id && (forall|j: int|
            0 <= j < i ==> channels[j].id != id) ==> stream_name(channels, id) == channels[i].name@,
        (forall|j: int| 0 <= j < channels.len() ==> channels[j].id != id) ==> stream_name(
            channels,
            id,
        ) == "Channel "@ + decimal(id as nat),
{
    if 0 <= i < channels.len() && channels[i].id == id && (forall|j: int|
        0 <= j < i ==> channels[j].id != id) {
        let k = choose|k: int|
            0 <= k < channels.len() && #[trigger] channels[k].id == id && forall|j: int|
                0 <= j < k ==> channels[j].id != id;
        if k < i {
            assert(channels[k].id != id);
        }
        if k > i {
            assert(channels[i].id != id);
        }
    }
}

/// The name a stream of channel `id` gets (`POST /api/streams/:id/start`).
pub fn channel_name_for(channels: &Vec<Channel>, id: u32) -> (r: String)
    ensures
        r@ == stream_name(channels@, id),
{
    let mut i: usize = 0;
    while i < channels.len()
        invariant
            i <= channels@.len(),
            forall|j: int| 0 <= j < i ==> channels@[j].id != id,
        decreases channels@.len() - i,
    {
        if channels[i].id == id {
            proof {
                let k = choose|k: int|
                    0 <= k < channels@.len() && #[trigger] channels@[k].id == id && forall|j: int|
                        0 <= j < k ==> channels@[j].id != id;
                assert(0 <= i < channels@.len() && channels@[i as int].id == id && forall|j: int|
                    0 <= j < i ==> channels@[j].id != id);
                if k < i {
                    assert(channels@[k].id != id);
                }
                if k > i {
                    assert(channels@[i as int].id != id);
                }
            }
            return channels[i].name.clone();
        }
        i = i + 1;
    }
    let mut n = owned("Channel ");
    push_decimal(&mut n, id as u64);
    n
}

/// The message confirming that a stream was stopped.
pub fn stream_stopped_message(id: u32) -> (r: String)
    ensures
        r@ == "Stream for channel "@ + decimal(id as nat) + " stopped"@,
{
    let mut m = owned("Stream for channel ");
    push_decimal(&mut m, id as u64);
    push_text(&mut m, " stopped");
    m
}

/// What the frame subscription of a WebSocket client delivered.
#[derive(Debug, Clone, Copy, PartialEq, Eq, Structural)]
pub enum FrameReceipt {
    /// A frame.
    Frame,
    /// The client fell behind and frames were skipped.
    Lagged,
    /// The stream ended.
    Closed,
}

/// What the WebSocket handler does next.
#[derive(Debug, Clone, Copy, PartialEq, Eq, Structural)]
pub enum WsStep {
    /// Send the frame to the client.
    Send,
    /// Wait for the next frame.
    Skip,
    /// Close the connection.
    Stop,
}

/// The WebSocket handler's decision: frames are sent, lagging skips ahead,
/// and the end of the stream closes the connection.
pub fn ws_step(receipt: FrameReceipt) -> (r: WsStep)
    ensures
        r == match receipt {
            FrameReceipt::Frame => WsStep::Send,
            FrameReceipt::Lagged => WsStep::Skip,
            FrameReceipt::Closed => WsStep::Stop,
        },
{
    match receipt {
        FrameReceipt::Frame => WsStep::Send,
        FrameReceipt::Lagged => WsStep::Skip,
        FrameReceipt::Closed => WsStep::Stop,
    }
}

} // verus!
