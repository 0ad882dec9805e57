//! Stream supervision decisions: ffmpeg settings and arguments, the RTSP
//! transports to try, reconnect back-off, the bookkeeping of running streams
//! and the capture session's reaction to what ffmpeg does.

use vstd::prelude::*;
use std::collections::HashMap;
use crate::config::{encode_userinfo, is_encoded_char, lemma_encoded_chars, AppConfig};
use crate::models::{StreamInfo, StreamStatus};
use crate::order::{lemma_listing_by_keys, sorted_keys, strictly_increasing};
use crate::outside::now;
use crate::text::{
    decimal, lemma_decimal_digits, lemma_parse_decimal, parse_unsigned, push_decimal,
    chars_of, eq_ignore_ascii_case, owned, push_text, range_eq_ignore_ascii_case, split,
    split_trimmed, string_from_range, string_views, text_eq, trim, trim_bounds, trimmed_pieces,
};

verus! {

broadcast use vstd::string::group_string_axioms;

// ─── ffmpeg settings ────────────────────────────────────────────────────────

/// The RTSP transport a configured entry selects: `auto` and `none` (in any
/// ASCII case) leave the choice to ffmpeg.
pub open spec fn transport_choice(t: Seq<char>) -> Option<Seq<char>> {
    if eq_ignore_ascii_case(t, "auto"@) || eq_ignore_ascii_case(t, "none"@) {
        None
    } else {
        Some(t)
    }
}

/// The transports named by the entries `ts`, in order.
pub open spec fn transport_choices(ts: Seq<Seq<char>>) -> Seq<Option<Seq<char>>> {
    ts.map_values(|t: Seq<char>| transport_choice(t))
}

/// The texts of a list of optional strings.
pub open spec fn opt_views(v: Seq<Option<String>>) -> Seq<Option<Seq<char>>> {
    v.map_values(|o: Option<String>| match o {
        Some(s) => Some(s@),
        None => None,
    })
}

/// The transports to try, in order, for a value of `FFMPEG_RTSP_TRANSPORT`:
/// TCP, UDP and then ffmpeg's own choice when it is unset; otherwise its
/// comma-separated entries, or ffmpeg's own choice alone if it names none.
pub open spec fn transport_plan(raw: Option<String>) -> Seq<Option<Seq<char>>> {
    match raw {
        None => seq![Some("tcp"@), Some("udp"@), None],
        Some(s) => {
            let ts = trimmed_pieces(split(s@, ','));
            if ts.len() == 0 {
                seq![None]
            } else {
                transport_choices(ts)
            }
        },
    }
}

/// The RTSP transports to try for a value of `FFMPEG_RTSP_TRANSPORT`.
pub fn ffmpeg_transport_attempts(raw: Option<String>) -> (r: Vec<Option<String>>)
    ensures
        opt_views(r@) == transport_plan(raw),
{
    let mut transports: Vec<Option<String>> = Vec::new();
    match &raw {
        None => {
            transports.push(Some(owned("tcp")));
            transports.push(Some(owned("udp")));
            transports.push(None);
            assert(opt_views(transports@) =~= seq![Some("tcp"@), Some("udp"@), None]);
            return transports;
        },
        Some(s) => {
            let entries = split_trimmed(s.as_str(), ',');
            let ghost ts = string_views(entries@);
            let auto = chars_of("auto");
            let none = chars_of("none");
            let mut i: usize = 0;
            while i < entries.len()
                invariant
                    ts == string_views(entries@),
                    auto@ == "auto"@,
                    none@ == "none"@,
                    i <= entries@.len(),
                    opt_views(transports@) == transport_choices(ts.take(i as int)),
                decreases entries@.len() - i,
            {
                let value = chars_of(entries[i].as_str());
                assert(value@ == ts[i as int]);
                let n = value.len();
                assert(value@.subrange(0, n as int) == value@);
                let is_default = range_eq_ignore_ascii_case(&value, 0, n, &auto)
                    || range_eq_ignore_ascii_case(&value, 0, n, &none);
                let ghost before = transports@;
                if is_default {
                    transports.push(None);
                } else {
                    transports.push(Some(entries[i].clone()));
                }
                assert(ts.take(i + 1) == ts.take(i as int).push(ts[i as int]));
                assert(opt_views(transports@) =~= opt_views(before).push(transport_choice(ts[i as int])));
                assert(transport_choices(ts.take(i + 1)) =~= transport_choices(ts.take(i as int)).push(transport_choice(ts[i as int])));
                i = i + 1;
            }
            assert(ts.take(entries@.len() as int) == ts);
            if transports.len() == 0 {
                transports.push(None);
                assert(opt_views(transports@) =~= seq![None]);
            }
            transports
        },
    }
}

/// At least one transport is always tried.
pub proof fn lemma_transport_plan_nonempty(raw: Option<String>)
    ensures
        transport_plan(raw).len() >= 1,
{
}

/// A setting read from the environment: its trimmed value when that is not
/// blank, otherwise `default`.
pub open spec fn setting_value(raw: Option<String>, default: Seq<char>) -> Seq<char> {
    match raw {
        Some(s) => if trim(s@).len() > 0 {
            trim(s@)
        } else {
            default
        },
        None => default,
    }
}

/// A setting read from the environment, trimmed, `default` when unset or
/// blank.
fn setting_or(raw: &Option<String>, default: &str) -> (r: String)
    ensures
        r@ == setting_value(*raw, default@),
{
    match raw {
        Some(s) => {
            let cs = chars_of(s.as_str());
            assert(cs@.subrange(0, cs@.len() as int) == cs@);
            let (a, b) = trim_bounds(&cs, 0, cs.len());
            if a < b {
                string_from_range(&cs, a, b)
            } else {
                owned(default)
            }
        },
        None => owned(default),
    }
}

/// The frame rate for ffmpeg, from `FFMPEG_FPS` (default 15).
pub fn ffmpeg_fps(raw: &Option<String>) -> (r: String)
    ensures
        r@ == setting_value(*raw, "15"@),
{
    setting_or(raw, "15")
}

/// The JPEG quality for ffmpeg, from `FFMPEG_QUALITY` (default 7).
pub fn ffmpeg_quality(raw: &Option<String>) -> (r: String)
    ensures
        r@ == setting_value(*raw, "7"@),
{
    setting_or(raw, "7")
}

/// The ffmpeg log level, from `FFMPEG_LOGLEVEL` (default `info`).
pub fn ffmpeg_log_level(raw: &Option<String>) -> (r: String)
    ensures
        r@ == setting_value(*raw, "info"@),
{
    setting_or(raw, "info")
}

// ─── ffmpeg command line ────────────────────────────────────────────────────

/// The arguments that select the RTSP transport.
pub open spec fn transport_args(transport: Option<Seq<char>>) -> Seq<Seq<char>> {
    match transport {
        None => Seq::empty(),
        Some(t) => if t == "tcp"@ {
            seq!["-rtsp_transport"@, t, "-rtsp_flags"@, "prefer_tcp"@]
        } else {
            seq!["-rtsp_transport"@, t]
        },
    }
}

/// The ffmpeg arguments that read `rtsp_url` and write MJPEG frames to
/// standard output.
pub open spec fn ffmpeg_arg_list(
    rtsp_url: Seq<char>,
    transport: Option<Seq<char>>,
    log_level: Seq<char>,
    fps: Seq<char>,
    quality: Seq<char>,
) -> Seq<Seq<char>> {
    seq!["-hide_banner"@, "-loglevel"@, log_level, "-nostdin"@] + transport_args(transport) + seq![
        "-fflags"@,
        "+nobuffer+discardcorrupt+genpts"@,
        "-flags"@,
        "low_delay"@,
        "-analyzeduration"@,
        "0"@,
        "-probesize"@,
        "32768"@,
        "-i"@,
        rtsp_url,
        "-an"@,
        "-map"@,
        "0:v:0"@,
        "-vf"@,
        "fps=fps="@ + fps,
        "-c:v"@,
        "mjpeg"@,
        "-q:v"@,
        quality,
        "-f"@,
        "mjpeg"@,
        "pipe:1"@,
    ]
}

/// Appends a copy of `t` to the argument list.
fn push_arg(args: &mut Vec<String>, t: &str)
    ensures
        string_views(final(args)@) == string_views(old(args)@).push(t@),
{
    let ghost before = args@;
    args.push(owned(t));
    assert(string_views(args@) =~= string_views(before).push(t@));
}

/// The arguments of the ffmpeg command that captures `rtsp_url`.
pub fn ffmpeg_args(
    rtsp_url: &str,
    transport: Option<&str>,
    log_level: &str,
    fps: &str,
    quality: &str,
) -> (r: Vec<String>)
    ensures
        string_views(r@) == ffmpeg_arg_list(
            rtsp_url@,
            match transport {
                Some(t) => Some(t@),
                None => None,
            },
            log_level@,
            fps@,
            quality@,
        ),
{
    let mut args: Vec<String> = Vec::new();
    push_arg(&mut args, "-hide_banner");
    push_arg(&mut args, "-loglevel");
    push_arg(&mut args, log_level);
    push_arg(&mut args, "-nostdin");
    let ghost head = string_views(args@);
    if let Some(t) = transport {
        push_arg(&mut args, "-rtsp_transport");
        push_arg(&mut args, t);
        if text_eq(t, "tcp") {
            push_arg(&mut args, "-rtsp_flags");
            push_arg(&mut args, "prefer_tcp");
        }
    }
    let ghost mid = string_views(args@);
    assert(mid =~= head + transport_args(
        match transport {
            Some(t) => Some(t@),
            None => None,
        },
    ));
    push_arg(&mut args, "-fflags");
    push_arg(&mut args, "+nobuffer+discardcorrupt+genpts");
    push_arg(&mut args, "-flags");
    push_arg(&mut args, "low_delay");
    push_arg(&mut args, "-analyzeduration");
    push_arg(&mut args, "0");
    push_arg(&mut args, "-probesize");
    push_arg(&mut args, "32768");
    push_arg(&mut args, "-i");
    push_arg(&mut args, rtsp_url);
    push_arg(&mut args, "-an");
    push_arg(&mut args, "-map");
    push_arg(&mut args, "0:v:0");
    push_arg(&mut args, "-vf");
    let mut filter = owned("fps=fps=");
    push_text(&mut filter, fps);
    let ghost before = args@;
    args.push(filter);
    assert(string_views(args@) =~= string_views(before).push("fps=fps="@ + fps@));
    push_arg(&mut args, "-c:v");
    push_arg(&mut args, "mjpeg");
    push_arg(&mut args, "-q:v");
    push_arg(&mut args, quality);
    push_arg(&mut args, "-f");
    push_arg(&mut args, "mjpeg");
    push_arg(&mut args, "pipe:1");
    assert(string_views(args@) =~= ffmpeg_arg_list(
        rtsp_url@,
        match transport {
            Some(t) => Some(t@),
            None => None,
        },
        log_level@,
        fps@,
        quality@,
    ));
    args
}

/// The arguments with a transport are those without one, with the
/// transport's arguments (`-rtsp_transport t`, and `-rtsp_flags prefer_tcp`
/// for tcp) inserted after the first four.
pub proof fn lemma_transport_args_inserted(
    rtsp_url: Seq<char>,
    t: Seq<char>,
    log_level: Seq<char>,
    fps: Seq<char>,
    quality: Seq<char>,
)
    ensures
        ({
            let a = ffmpeg_arg_list(rtsp_url, None, log_level, fps, quality);
            ffmpeg_arg_list(rtsp_url, Some(t), log_level, fps, quality) == a.take(4)
                + transport_args(Some(t)) + a.skip(4)
        }),
{
    let a = ffmpeg_arg_list(rtsp_url, None, log_level, fps, quality);
    assert(transport_args(None) =~= Seq::<Seq<char>>::empty());
    assert(ffmpeg_arg_list(rtsp_url, Some(t), log_level, fps, quality) =~= a.take(4)
        + transport_args(Some(t)) + a.skip(4));
}

/// Without a transport, the arguments select none: no `-rtsp_transport` and
/// no `-rtsp_flags`, unless the URL, log level or quality is itself one of
/// those words; the input is given once, as `-i` followed by the URL; the
/// frame rate and quality follow `-vf` and `-q:v`.
pub proof fn lemma_arg_list_shape(
    rtsp_url: Seq<char>,
    log_level: Seq<char>,
    fps: Seq<char>,
    quality: Seq<char>,
)
    requires
        rtsp_url != "-rtsp_transport"@ && rtsp_url != "-rtsp_flags"@ && rtsp_url != "-i"@,
        log_level != "-rtsp_transport"@ && log_level != "-rtsp_flags"@ && log_level != "-i"@,
        quality != "-rtsp_transport"@ && quality != "-rtsp_flags"@ && quality != "-i"@,
    ensures
        ({
            let a = ffmpeg_arg_list(rtsp_url, None, log_level, fps, quality);
            &&& !a.contains("-rtsp_transport"@)
            &&& !a.contains("-rtsp_flags"@)
            &&& a[12] == "-i"@ && a[13] == rtsp_url
            &&& forall|i: int| 0 <= i < a.len() && a[i] == "-i"@ ==> i == 12
            &&& a[17] == "-vf"@ && a[18] == "fps=fps="@ + fps
            &&& a[21] == "-q:v"@ && a[22] == quality
        }),
{
    let a = ffmpeg_arg_list(rtsp_url, None, log_level, fps, quality);
    reveal_strlit("-rtsp_transport");
    reveal_strlit("-rtsp_flags");
    reveal_strlit("-i");
    reveal_strlit("-hide_banner");
    reveal_strlit("-loglevel");
    reveal_strlit("-nostdin");
    reveal_strlit("-fflags");
    reveal_strlit("+nobuffer+discardcorrupt+genpts");
    reveal_strlit("-flags");
    reveal_strlit("low_delay");
    reveal_strlit("-analyzeduration");
    reveal_strlit("0");
    reveal_strlit("-probesize");
    reveal_strlit("32768");
    reveal_strlit("-an");
    reveal_strlit("-map");
    reveal_strlit("0:v:0");
    reveal_strlit("-vf");
    reveal_strlit("fps=fps=");
    reveal_strlit("-c:v");
    reveal_strlit("mjpeg");
    reveal_strlit("-q:v");
    reveal_strlit("-f");
    reveal_strlit("pipe:1");
    assert(transport_args(None) =~= Seq::<Seq<char>>::empty());
    assert(a.len() == 26);
    assert(("fps=fps="@ + fps)[0] == 'f');
    assert forall|i: int| 0 <= i < a.len() implies a[i] != "-rtsp_transport"@ && a[i] != "-rtsp_flags"@
        && (a[i] == "-i"@ ==> i == 12) by {
        if i == 18 {
            assert(a[i][0] == 'f');
        } else if i == 2 || i == 13 || i == 22 {
        } else if i == 12 {
            assert(a[i].len() == 2);
        } else if i == 23 {
            assert(a[i][1] == 'f');
            assert("-i"@[1] == 'i');
        } else if i == 9 {
            assert(a[i].len() == 1);
        } else {
            assert(a[i].len() > 2);
        }
    }
}

// ─── Reconnect back-off ─────────────────────────────────────────────────────

/// The longest wait between reconnects, in seconds.
pub const MAX_BACKOFF_SECS: u64 = 30;

/// The wait before the next reconnect: twice the last one, at most 30 s.
pub fn next_backoff(secs: u64) -> (r: u64)
    requires
        secs <= u64::MAX / 2,
    ensures
        r == if 2 * secs < MAX_BACKOFF_SECS { 2 * secs } else { MAX_BACKOFF_SECS as int },
{
    let doubled = secs * 2;
    if doubled < MAX_BACKOFF_SECS {
        doubled
    } else {
        MAX_BACKOFF_SECS
    }
}


// ─── Stream records ─────────────────────────────────────────────────────────

/// `info` with its status replaced by `status`.
pub open spec fn with_status(info: StreamInfo, status: StreamStatus) -> StreamInfo {
    StreamInfo {
        channel_id: info.channel_id,
        channel_name: info.channel_name,
        status,
        ws_url: info.ws_url,
        started_at: info.started_at,
        pid: info.pid,
    }
}

/// The WebSocket path that serves a channel's frames.
pub open spec fn ws_path(channel_id: u32) -> Seq<char> {
    "/ws/stream/"@ + decimal(channel_id as nat)
}

/// What starting `channel_id` under `name` does: a channel that has a
/// stream keeps it and its record `r` is returned; otherwise the new record
/// `r`, in state `Starting`, with its WebSocket path and a start time, is
/// filed.
pub open spec fn started(
    before: Map<u32, StreamInfo>,
    channel_id: u32,
    name: Seq<char>,
    r: StreamInfo,
    after: Map<u32, StreamInfo>,
) -> bool {
    if before.contains_key(channel_id) {
        r == before[channel_id] && after == before
    } else {
        &&& r.channel_id == channel_id
        &&& r.channel_name@ == name
        &&& r.status == StreamStatus::Starting
        &&& r.ws_url@ == ws_path(channel_id)
        &&& r.started_at is Some
        &&& r.pid is None
        &&& after == before.insert(channel_id, r)
    }
}

/// What the check before a capture attempt does: `go_on` tells whether the
/// channel still has a stream, which is then marked `Starting`.
pub open spec fn attempt_begun(
    before: Map<u32, StreamInfo>,
    channel_id: u32,
    go_on: bool,
    after: Map<u32, StreamInfo>,
) -> bool {
    &&& go_on == before.contains_key(channel_id)
    &&& go_on ==> after == before.insert(
        channel_id,
        with_status(before[channel_id], StreamStatus::Starting),
    )
    &&& !go_on ==> after == before
}

/// What marking the end of `channel_id`'s capture task does: a record
/// still filed becomes `Stopped`.
pub open spec fn task_finished(
    before: Map<u32, StreamInfo>,
    channel_id: u32,
    after: Map<u32, StreamInfo>,
) -> bool {
    if before.contains_key(channel_id) {
        after == before.insert(channel_id, with_status(before[channel_id], StreamStatus::Stopped))
    } else {
        after == before
    }
}

/// What recording the end of the wait for `channel_id`'s first frame does:
/// a record still `Starting` becomes `Running` when a frame arrived and
/// `Error` otherwise; anything else stays as it is.
pub open spec fn first_frame_recorded(
    before: Map<u32, StreamInfo>,
    channel_id: u32,
    outcome: FirstFrame,
    after: Map<u32, StreamInfo>,
) -> bool {
    if before.contains_key(channel_id) && before[channel_id].status == StreamStatus::Starting {
        after == before.insert(
            channel_id,
            with_status(
                before[channel_id],
                if outcome == FirstFrame::Arrived {
                    StreamStatus::Running
                } else {
                    StreamStatus::Error
                },
            ),
        )
    } else {
        after == before
    }
}

/// How the wait for a stream's first frame ended.
#[derive(Debug, Clone, Copy, PartialEq, Eq, Structural)]
pub enum FirstFrame {
    /// The capture produced a frame.
    Arrived,
    /// The capture gave up before producing a frame.
    Abandoned,
    /// No frame came within the start-up timeout.
    TimedOut,
}

/// The streams that have been started and not stopped, by channel.
#[derive(Debug)]
pub struct StreamRegistry {
    streams: HashMap<u32, StreamInfo>,
}

impl View for StreamRegistry {
    type V = Map<u32, StreamInfo>;

    closed spec fn view(&self) -> Map<u32, StreamInfo> {
        self.streams@
    }
}

impl StreamRegistry {
    /// Each record is filed under its own channel.
    pub open spec fn wf(self) -> bool {
        forall|k: u32| #[trigger] self@.contains_key(k) ==> self@[k].channel_id == k
    }

    /// No streams.
    pub fn new() -> (r: Self)
        ensures
            r@ == Map::<u32, StreamInfo>::empty(),
            r.wf(),
    {
        let r = StreamRegistry { streams: HashMap::new() };
        assert(r@ =~= Map::<u32, StreamInfo>::empty());
        r
    }

    /// The record of `channel_id`, if it has a stream.
    pub fn get(&self, channel_id: u32) -> (r: Option<StreamInfo>)
        ensures
            match r {
                Some(i) => self@.contains_key(channel_id) && i == self@[channel_id],
                None => !self@.contains_key(channel_id),
            },
    {
        broadcast use vstd::std_specs::hash::group_hash_axioms;
        match self.streams.get(&channel_id) {
            Some(i) => Some(i.clone()),
            None => None,
        }
    }

    /// Whether `channel_id` has a stream.
    pub fn is_active(&self, channel_id: u32) -> (r: bool)
        ensures
            r == self@.contains_key(channel_id),
    {
        broadcast use vstd::std_specs::hash::group_hash_axioms;
        self.streams.contains_key(&channel_id)
    }

    /// Starts a stream for `channel_id`. A channel that already has one keeps
    /// it and its record is returned unchanged; otherwise a new record, in
    /// state `Starting`, stamped with the current time, is filed and
    /// returned.
    pub fn start(&mut self, channel_id: u32, channel_name: &str) -> (r: StreamInfo)
        requires
            old(self).wf(),
        ensures
            final(self).wf(),
            started(old(self)@, channel_id, channel_name@, r, final(self)@),
    {
        broadcast use vstd::std_specs::hash::group_hash_axioms;
        if let Some(existing) = self.streams.get(&channel_id) {
            return existing.clone();
        }
        let mut ws_url = owned("/ws/stream/");
        push_decimal(&mut ws_url, channel_id as u64);
        let info = StreamInfo {
            channel_id,
            channel_name: owned(channel_name),
            status: StreamStatus::Starting,
            ws_url,
            started_at: Some(now()),
            pid: None,
        };
        self.streams.insert(channel_id, info.clone());
        info
    }

    /// Sets the status of `channel_id`'s record, if it has one.
    fn set_status(&mut self, channel_id: u32, status: StreamStatus)
        requires
            old(self).wf(),
        ensures
            final(self).wf(),
            old(self)@.contains_key(channel_id) ==> final(self)@ == old(self)@.insert(
                channel_id,
                with_status(old(self)@[channel_id], status),
            ),
            !old(self)@.contains_key(channel_id) ==> final(self)@ == old(self)@,
    {
        broadcast use vstd::std_specs::hash::group_hash_axioms;
        let updated = match self.streams.get(&channel_id) {
            Some(info) => StreamInfo {
                channel_id: info.channel_id,
                channel_name: info.channel_name.clone(),
                status,
                ws_url: info.ws_url.clone(),
                started_at: info.started_at,
                pid: info.pid,
            },
            None => {
                return ;
            },
        };
        self.streams.insert(channel_id, updated);
    }

    /// Before each capture attempt: a channel whose stream is still filed is
    /// marked `Starting` (it is reconnecting) and the attempt goes ahead; a
    /// channel whose stream was stopped ends its capture task.
    pub fn begin_attempt(&mut self, channel_id: u32) -> (go_on: bool)
        requires
            old(self).wf(),
        ensures
            final(self).wf(),
            attempt_begun(old(self)@, channel_id, go_on, final(self)@),
    {
        let go_on = self.is_active(channel_id);
        self.set_status(channel_id, StreamStatus::Starting);
        go_on
    }

    /// When a capture task ends: a record still filed is marked `Stopped`.
    pub fn finish_task(&mut self, channel_id: u32)
        requires
            old(self).wf(),
        ensures
            final(self).wf(),
            task_finished(old(self)@, channel_id, final(self)@),
    {
        self.set_status(channel_id, StreamStatus::Stopped);
    }

    /// Records how the wait for the first frame ended: a stream still
    /// `Starting` becomes `Running` when a frame arrived and `Error`
    /// otherwise; any other record is left as it is.
    pub fn record_first_frame(&mut self, channel_id: u32, outcome: FirstFrame)
        requires
            old(self).wf(),
        ensures
            final(self).wf(),
            first_frame_recorded(old(self)@, channel_id, outcome, final(self)@),
    {
        broadcast use vstd::std_specs::hash::group_hash_axioms;
        let starting = match self.streams.get(&channel_id) {
            Some(info) => info.status == StreamStatus::Starting,
            None => false,
        };
        if starting {
            let status = if outcome == FirstFrame::Arrived {
                StreamStatus::Running
            } else {
                StreamStatus::Error
            };
            self.set_status(channel_id, status);
        }
    }

    /// Stops `channel_id`'s stream: its record is removed. Whether there was
    /// one is returned (the caller then ends the capture task).
    pub fn stop(&mut self, channel_id: u32) -> (removed: bool)
        requires
            old(self).wf(),
        ensures
            final(self).wf(),
            removed == old(self)@.contains_key(channel_id),
            final(self)@ == old(self)@.remove(channel_id),
    {
        broadcast use vstd::std_specs::hash::group_hash_axioms;
        let r = self.streams.remove(&channel_id);
        r.is_some()
    }

    /// The channels that have a stream, in increasing order.
    pub fn channel_ids(&self) -> (r: Vec<u32>)
        ensures
            strictly_increasing(r@),
            r@.to_set() == self@.dom(),
    {
        sorted_keys(&self.streams)
    }

    /// Every record, in increasing channel order.
    pub fn list(&self) -> (r: Vec<StreamInfo>)
        requires
            self.wf(),
        ensures
            r@.len() == self@.dom().len(),
            forall|i: int| 0 <= i < r@.len() ==> self@.contains_key(#[trigger] r@[i].channel_id)
                && r@[i] == self@[r@[i].channel_id],
            forall|i: int, j: int| 0 <= i < j < r@.len() ==> r@[i].channel_id < r@[j].channel_id,
            forall|k: u32| self@.contains_key(k) ==> exists|i: int| 0 <= i < r@.len() && #[trigger] r@[i].channel_id == k,
    {
        broadcast use vstd::std_specs::hash::group_hash_axioms;
        let keys = sorted_keys(&self.streams);
        let mut out: Vec<StreamInfo> = Vec::new();
        let mut i: usize = 0;
        while i < keys.len()
            invariant
                self.wf(),
                strictly_increasing(keys@),
                keys@.to_set() == self@.dom(),
                i <= keys@.len(),
                out@.len() == i,
                forall|j: int| 0 <= j < i ==> #[trigger] out@[j] == self@[keys@[j]] && self@.contains_key(keys@[j]),
            decreases keys@.len() - i,
        {
            let k = keys[i];
            assert(keys@.to_set().contains(k));
            let info = match self.streams.get(&k) {
                Some(info) => info.clone(),
                None => {
                    return out;
                },
            };
            out.push(info);
            i = i + 1;
        }
        proof {
            lemma_listing_by_keys(self@, keys@, out@);
            assert forall|k: u32| self@.contains_key(k) implies exists|j: int| 0 <= j < out@.len() && #[trigger] out@[j].channel_id == k by {
                let j = choose|j: int| 0 <= j < out@.len() && #[trigger] keys@[j] == k;
                assert(out@[j].channel_id == k);
            }
        }
        out
    }
}


/// Starting a channel that was already started changes nothing and gives
/// back the record of the first start, whatever name is passed.
pub proof fn lemma_start_idempotent(
    m0: Map<u32, StreamInfo>,
    id: u32,
    name1: Seq<char>,
    r1: StreamInfo,
    m1: Map<u32, StreamInfo>,
    name2: Seq<char>,
    r2: StreamInfo,
    m2: Map<u32, StreamInfo>,
)
    requires
        started(m0, id, name1, r1, m1),
        started(m1, id, name2, r2, m2),
    ensures
        r2 == r1,
        m2 == m1,
{
}

/// Once a channel's stream is stopped, the capture task's next check ends
/// it and changes nothing; a later start files a fresh `Starting` record.
pub proof fn lemma_stop_ends_capture(
    m0: Map<u32, StreamInfo>,
    id: u32,
    go_on: bool,
    m1: Map<u32, StreamInfo>,
    name: Seq<char>,
    r: StreamInfo,
    m2: Map<u32, StreamInfo>,
)
    requires
        attempt_begun(m0.remove(id), id, go_on, m1),
        started(m0.remove(id), id, name, r, m2),
    ensures
        !go_on,
        m1 == m0.remove(id),
        r.status == StreamStatus::Starting,
        r.channel_name@ == name,
        m2 == m0.remove(id).insert(id, r),
{
}

/// A newly started stream is served at `/ws/stream/` followed by the
/// decimal number of the very channel it was started for: the number read
/// back from its WebSocket path is that channel.
pub proof fn lemma_ws_url_names_channel(
    before: Map<u32, StreamInfo>,
    channel_id: u32,
    name: Seq<char>,
    r: StreamInfo,
    after: Map<u32, StreamInfo>,
)
    requires
        started(before, channel_id, name, r, after),
        !before.contains_key(channel_id),
    ensures
        r.ws_url@.take(11) == "/ws/stream/"@,
        parse_unsigned(r.ws_url@.skip(11), u32::MAX as nat) == Some(channel_id as nat),
        after[channel_id].ws_url@ == r.ws_url@,
{
    reveal_strlit("/ws/stream/");
    let p = "/ws/stream/"@;
    let d = decimal(channel_id as nat);
    assert((p + d).take(11) =~= p);
    assert((p + d).skip(11) =~= d);
    lemma_parse_decimal(channel_id as nat, u32::MAX as nat);
}

// ─── Stream status life cycle ───────────────────────────────────────────────

/// An operation on the stream records, each performed by the
/// `StreamRegistry` method of that name.
#[derive(Debug, Clone, Copy, PartialEq, Eq, Structural)]
pub enum StreamOp {
    /// `start`.
    Start,
    /// `begin_attempt`, before each capture attempt.
    BeginAttempt,
    /// `record_first_frame`, when the wait for the first frame ends.
    FirstFrameSeen(FirstFrame),
    /// `finish_task`, when the capture task ends.
    FinishTask,
    /// `stop`.
    Stop,
}

/// `op` on channel `channel_id` turns the records `before` into `after`,
/// as the method's contract says.
pub open spec fn stream_op(
    before: Map<u32, StreamInfo>,
    channel_id: u32,
    op: StreamOp,
    after: Map<u32, StreamInfo>,
) -> bool {
    match op {
        StreamOp::Start => exists|name: Seq<char>, r: StreamInfo|
            #[trigger] started(before, channel_id, name, r, after),
        StreamOp::BeginAttempt => exists|go_on: bool|
            #[trigger] attempt_begun(before, channel_id, go_on, after),
        StreamOp::FirstFrameSeen(o) => first_frame_recorded(before, channel_id, o, after),
        StreamOp::FinishTask => task_finished(before, channel_id, after),
        StreamOp::Stop => after == before.remove(channel_id),
    }
}

/// `states` are the records before and after each of the operations `ops`,
/// each given with the channel it acts on.
pub open spec fn stream_trace(states: Seq<Map<u32, StreamInfo>>, ops: Seq<(u32, StreamOp)>) -> bool {
    &&& states.len() == ops.len() + 1
    &&& forall|i: int|
        0 <= i < ops.len() ==> stream_op(states[i], #[trigger] ops[i].0, ops[i].1, states[i + 1])
}

/// Channel `id` has a record in every state after the `j`-th up to the
/// `k`-th: it was not stopped in between.
pub open spec fn filed_after(states: Seq<Map<u32, StreamInfo>>, id: u32, j: int, k: int) -> bool {
    forall|i: int| j < i <= k ==> #[trigger] states[i].contains_key(id)
}

/// The `j`-th operation gave channel `id` the status `st` that its record
/// still has in the `k`-th state: `Starting` comes from a start or a
/// reconnect, `Running` from a first frame and `Error` from a failed wait
/// for one, each seen while the record was `Starting`, and `Stopped` from
/// the end of the capture task.
pub open spec fn status_cause(
    states: Seq<Map<u32, StreamInfo>>,
    ops: Seq<(u32, StreamOp)>,
    id: u32,
    j: int,
    k: int,
    st: StreamStatus,
) -> bool {
    &&& ops[j].0 == id
    &&& filed_after(states, id, j, k)
    &&& match st {
        StreamStatus::Starting => ops[j].1 == StreamOp::Start || ops[j].1 == StreamOp::BeginAttempt,
        StreamStatus::Running => ops[j].1 == StreamOp::FirstFrameSeen(FirstFrame::Arrived)
            && states[j].contains_key(id) && states[j][id].status == StreamStatus::Starting,
        StreamStatus::Error => (ops[j].1 == StreamOp::FirstFrameSeen(FirstFrame::Abandoned)
            || ops[j].1 == StreamOp::FirstFrameSeen(FirstFrame::TimedOut))
            && states[j].contains_key(id) && states[j][id].status == StreamStatus::Starting,
        StreamStatus::Stopped => ops[j].1 == StreamOp::FinishTask,
    }
}

proof fn lemma_status_cause(
    states: Seq<Map<u32, StreamInfo>>,
    ops: Seq<(u32, StreamOp)>,
    id: u32,
    k: int,
)
    requires
        stream_trace(states, ops),
        !states[0].contains_key(id),
        0 <= k < states.len(),
    ensures
        states[k].contains_key(id) ==> exists|j: int|
            0 <= j < k && #[trigger] status_cause(states, ops, id, j, k, states[k][id].status),
    decreases k,
{
    if k > 0 && states[k].contains_key(id) {
        lemma_status_cause(states, ops, id, k - 1);
        let before = states[k - 1];
        let after = states[k];
        let ch = ops[k - 1].0;
        let op = ops[k - 1].1;
        assert(stream_op(before, ch, op, after));
        let unchanged = before.contains_key(id) && after[id] == before[id];
        if op == StreamOp::Start {
            let (name, r) = choose|name: Seq<char>, r: StreamInfo| #[trigger] started(before, ch, name, r, after);
            assert(started(before, ch, name, r, after));
        } else if op == StreamOp::BeginAttempt {
            let go_on = choose|go_on: bool| #[trigger] attempt_begun(before, ch, go_on, after);
            assert(attempt_begun(before, ch, go_on, after));
        }
        if unchanged {
            let st = after[id].status;
            let j = choose|j: int| 0 <= j < k - 1 && #[trigger] status_cause(states, ops, id, j, k - 1, st);
            assert(status_cause(states, ops, id, j, k, st));
        } else {
            assert(ch == id);
            assert(status_cause(states, ops, id, k - 1, k, after[id].status));
        }
    }
}

/// The life cycle of a stream's status, over any run of the registry's
/// operations from a state where channel `id` has no record:
/// - the record is `Starting` when it is filed, and again at each
///   reconnect;
/// - whatever status it has was set by its cause since the record was
///   last filed: `Running` only by a first frame and `Error` only by a wait
///   for one that gave up or timed out, each while it was `Starting`;
///   `Starting` by a start or reconnect; `Stopped` by the end of the
///   capture task.
pub proof fn lemma_status_life_cycle(
    states: Seq<Map<u32, StreamInfo>>,
    ops: Seq<(u32, StreamOp)>,
    id: u32,
)
    requires
        stream_trace(states, ops),
        !states[0].contains_key(id),
    ensures
        forall|k: int|
            0 <= k < ops.len() && !states[k].contains_key(id) && #[trigger] states[k + 1].contains_key(
                id,
            ) ==> states[k + 1][id].status == StreamStatus::Starting,
        forall|k: int|
            0 <= k < ops.len() && #[trigger] ops[k] == (id, StreamOp::BeginAttempt)
                && states[k].contains_key(id) ==> states[k + 1].contains_key(id) && states[k
                + 1][id].status == StreamStatus::Starting,
        forall|k: int|
            0 <= k < states.len() && #[trigger] states[k].contains_key(id) ==> exists|j: int|
                0 <= j < k && #[trigger] status_cause(states, ops, id, j, k, states[k][id].status),
{
    assert forall|k: int|
        0 <= k < ops.len() && !states[k].contains_key(id) && #[trigger] states[k + 1].contains_key(
            id,
        ) implies states[k + 1][id].status == StreamStatus::Starting by {
        let ch = ops[k].0;
        let op = ops[k].1;
        assert(stream_op(states[k], ch, op, states[k + 1]));
        if op == StreamOp::Start {
            let (name, r) = choose|name: Seq<char>, r: StreamInfo|
                #[trigger] started(states[k], ch, name, r, states[k + 1]);
            assert(started(states[k], ch, name, r, states[k + 1]));
        } else if op == StreamOp::BeginAttempt {
            let go_on = choose|go_on: bool| #[trigger] attempt_begun(states[k], ch, go_on, states[k + 1]);
            assert(attempt_begun(states[k], ch, go_on, states[k + 1]));
        }
    }
    assert forall|k: int|
        0 <= k < ops.len() && #[trigger] ops[k] == (id, StreamOp::BeginAttempt) && states[k].contains_key(
            id,
        ) implies states[k + 1].contains_key(id) && states[k + 1][id].status
        == StreamStatus::Starting by {
        assert(stream_op(states[k], ops[k].0, ops[k].1, states[k + 1]));
        let go_on = choose|go_on: bool| #[trigger] attempt_begun(states[k], id, go_on, states[k + 1]);
        assert(attempt_begun(states[k], id, go_on, states[k + 1]));
    }
    assert forall|k: int| 0 <= k < states.len() && #[trigger] states[k].contains_key(id) implies exists|j: int|
        0 <= j < k && #[trigger] status_cause(states, ops, id, j, k, states[k][id].status) by {
        lemma_status_cause(states, ops, id, k);
    }
}

// ─── Password masking ───────────────────────────────────────────────────────

/// The number of bytes UTF-8 uses for `c`.
pub open spec fn utf8_width(c: char) -> nat {
    if (c as u32) < 0x80 {
        1
    } else if (c as u32) < 0x800 {
        2
    } else if (c as u32) < 0x10000 {
        3
    } else {
        4
    }
}

/// `i` is the first position at or after `from` where `c` stands.
pub open spec fn first_at_or_after(s: Seq<char>, c: char, from: int, i: int) -> bool {
    from <= i < s.len() && s[i] == c && forall|k: int| from <= k < i ==> s[k] != c
}

/// `i` is the last position where `c` stands.
pub open spec fn last_at(s: Seq<char>, c: char, i: int) -> bool {
    0 <= i < s.len() && s[i] == c && forall|k: int| i < k < s.len() ==> s[k] != c
}

/// Where the text resumes two bytes after the character at `c` + 1 begins,
/// counting in UTF-8 bytes; `None` when that falls inside a character or
/// beyond the end.
pub open spec fn skip_two_bytes(s: Seq<char>, c: int) -> Option<int> {
    if c + 1 < s.len() && utf8_width(s[c + 1]) == 2 {
        Some(c + 2)
    } else if c + 2 < s.len() && utf8_width(s[c + 1]) == 1 && utf8_width(s[c + 2]) == 1 {
        Some(c + 3)
    } else {
        None
    }
}

/// The URL holds a `:` and an `@`, and the text three bytes after its first
/// `:` can be cut there (a character boundary within the URL).
pub open spec fn password_cut_ok(s: Seq<char>) -> bool {
    forall|c: int, a: int|
        first_at_or_after(s, ':', 0, c) && last_at(s, '@', a) ==> skip_two_bytes(s, c) is Some
}

/// The first position at or after `from` where `c` stands, if any.
pub open spec fn index_from(s: Seq<char>, c: char, from: int) -> Option<int> {
    if exists|i: int| first_at_or_after(s, c, from, i) {
        Some(choose|i: int| first_at_or_after(s, c, from, i))
    } else {
        None
    }
}

/// The last position where `c` stands, if any.
pub open spec fn last_index(s: Seq<char>, c: char) -> Option<int> {
    if exists|i: int| last_at(s, c, i) {
        Some(choose|i: int| last_at(s, c, i))
    } else {
        None
    }
}

/// The password part of an RTSP URL, as the log masks it: from the first `:`
/// skip three bytes (past `//`), find the next `:`; the password runs from
/// there to the last `@`. Empty when any of these is missing or the range
/// is empty.
pub open spec fn password_in(s: Seq<char>) -> Seq<char> {
    match (index_from(s, ':', 0), last_index(s, '@')) {
        (Some(c), Some(a)) => match skip_two_bytes(s, c) {
            Some(q) => match index_from(s, ':', q) {
                Some(p) => if p + 1 < a {
                    s.subrange(p + 1, a)
                } else {
                    Seq::empty()
                },
                None => Seq::empty(),
            },
            None => Seq::empty(),
        },
        _ => Seq::empty(),
    }
}

proof fn lemma_index_from(s: Seq<char>, c: char, from: int, i: int)
    requires
        first_at_or_after(s, c, from, i),
    ensures
        index_from(s, c, from) == Some(i),
{
    let j = choose|j: int| first_at_or_after(s, c, from, j);
    if j < i {
        assert(s[j] != c);
    }
    if j > i {
        assert(s[i] != c);
    }
}

proof fn lemma_last_index(s: Seq<char>, c: char, i: int)
    requires
        last_at(s, c, i),
    ensures
        last_index(s, c) == Some(i),
{
    let j = choose|j: int| last_at(s, c, j);
    if j < i {
        assert(s[i] != c);
    }
    if j > i {
        assert(s[j] != c);
    }
}

/// The UTF-8 width of `c`.
fn char_width(c: char) -> (w: usize)
    ensures
        w == utf8_width(c),
{
    let v = c as u32;
    if v < 0x80 {
        1
    } else if v < 0x800 {
        2
    } else if v < 0x10000 {
        3
    } else {
        4
    }
}

/// The first position at or after `from` where `c` stands, if any.
fn find_from(cs: &Vec<char>, c: char, from: usize) -> (r: Option<usize>)
    requires
        from <= cs@.len(),
    ensures
        match r {
            Some(i) => first_at_or_after(cs@, c, from as int, i as int),
            None => forall|k: int| from <= k < cs@.len() ==> cs@[k] != c,
        },
{
    let mut i = from;
    while i < cs.len()
        invariant
            from <= i <= cs@.len(),
            forall|k: int| from <= k < i ==> cs@[k] != c,
        decreases cs@.len() - i,
    {
        if cs[i] == c {
            return Some(i);
        }
        i = i + 1;
    }
    None
}

/// The last position where `c` stands, if any.
fn find_last(cs: &Vec<char>, c: char) -> (r: Option<usize>)
    ensures
        match r {
            Some(i) => last_at(cs@, c, i as int),
            None => forall|k: int| 0 <= k < cs@.len() ==> cs@[k] != c,
        },
{
    let mut i = cs.len();
    while i > 0
        invariant
            i <= cs@.len(),
            forall|k: int| i <= k < cs@.len() ==> cs@[k] != c,
        decreases i,
    {
        if cs[i - 1] == c {
            return Some(i - 1);
        }
        i = i - 1;
    }
    None
}

/// Extract password from RTSP URL for safe logging.
pub fn extract_password(url: &str) -> (r: String)
    requires
        password_cut_ok(url@),
    ensures
        r@ == password_in(url@),
{
    let cs = chars_of(url);
    let start = match find_from(&cs, ':', 0) {
        Some(c) => c,
        None => {
            return String::new();
        },
    };
    proof {
        lemma_index_from(url@, ':', 0, start as int);
    }
    let at = match find_last(&cs, '@') {
        Some(a) => a,
        None => {
            return String::new();
        },
    };
    proof {
        lemma_last_index(url@, '@', at as int);
    }
    let n = cs.len();
    let resume = if start + 1 < n && char_width(cs[start + 1]) == 2 {
        start + 2
    } else {
        assert(start + 2 < n && utf8_width(cs@[start + 1]) == 1 && utf8_width(cs@[start + 2])
            == 1);
        start + 3
    };
    assert(skip_two_bytes(url@, start as int) == Some(resume as int));
    let colon = match find_from(&cs, ':', resume) {
        Some(p) => p,
        None => {
            return String::new();
        },
    };
    proof {
        lemma_index_from(url@, ':', resume as int, colon as int);
    }
    if colon + 1 < at {
        string_from_range(&cs, colon + 1, at)
    } else {
        String::new()
    }
}


/// Given the masking rule, the password that the log masks in a channel's
/// RTSP URL is exactly the encoded password in it, whenever the RTSP host
/// holds no `@`; and cutting the URL there never falls inside a character.
pub proof fn lemma_masked_password(cfg: AppConfig, channel: u32)
    requires
        forall|i: int| 0 <= i < cfg.dvr_rtsp_host@.len() ==> cfg.dvr_rtsp_host@[i] != '@',
    ensures
        password_cut_ok(cfg.rtsp_url_text(channel)),
        password_in(cfg.rtsp_url_text(channel)) == encode_userinfo(cfg.dvr_password@),
{
    reveal_strlit("rtsp://");
    reveal_strlit(":");
    reveal_strlit("@");
    reveal_strlit("/Streaming/Channels/");
    let u = encode_userinfo(cfg.dvr_username@);
    let pw = encode_userinfo(cfg.dvr_password@);
    lemma_encoded_chars(vstd::utf8::encode_utf8(cfg.dvr_username@));
    lemma_encoded_chars(vstd::utf8::encode_utf8(cfg.dvr_password@));
    let port = decimal(cfg.dvr_rtsp_port as nat);
    let chan = decimal(crate::config::rtsp_channel(channel) as nat);
    lemma_decimal_digits(cfg.dvr_rtsp_port as nat);
    lemma_decimal_digits(crate::config::rtsp_channel(channel) as nat);
    let lit = "/Streaming/Channels/"@;
    let host = cfg.dvr_rtsp_host@;
    let tail = host + ":"@ + port + lit + chan;
    let head = "rtsp://"@ + u + ":"@ + pw;
    let s = cfg.rtsp_url_text(channel);
    assert(s =~= head + "@"@ + tail);
    let a = head.len() as int;
    assert(a == 8 + u.len() + pw.len());
    // No `@` after position `a`.
    assert forall|k: int| 0 <= k < tail.len() implies tail[k] != '@' by {
        if k < host.len() {
        } else if k < host.len() + 1 {
        } else if k < host.len() + 1 + port.len() {
            assert(tail[k] == port[k - host.len() - 1]);
            assert(crate::text::is_digit(port[k - host.len() - 1]));
        } else if k < host.len() + 1 + port.len() + lit.len() {
            assert(tail[k] == lit[k - host.len() - 1 - port.len()]);
        } else {
            assert(tail[k] == chan[k - host.len() - 1 - port.len() - lit.len()]);
            assert(crate::text::is_digit(chan[k - host.len() - 1 - port.len() - lit.len()]));
        }
    }
    assert forall|k: int| a < k < s.len() implies s[k] != '@' by {
        assert(s[k] == tail[k - a - 1]);
    }
    assert(s[a] == '@');
    assert(last_at(s, '@', a));
    lemma_last_index(s, '@', a);
    // The first `:` is the one after the scheme.
    assert(s[4] == ':');
    assert(first_at_or_after(s, ':', 0, 4));
    lemma_index_from(s, ':', 0, 4);
    assert(s[5] == '/' && s[6] == '/');
    assert(skip_two_bytes(s, 4) == Some(7int));
    // The next `:` ends the user name.
    let p: int = 7 + u.len() as int;
    assert forall|k: int| 7 <= k < p implies s[k] != ':' by {
        assert(s[k] == u[k - 7]);
        assert(is_encoded_char(u[k - 7]));
    }
    assert(s[p] == ':');
    assert(first_at_or_after(s, ':', 7, p));
    lemma_index_from(s, ':', 7, p);
    if pw.len() > 0 {
        assert(s.subrange(p + 1, a) =~= pw);
    } else {
        assert(pw =~= Seq::<char>::empty());
    }
    assert forall|c: int, b: int|
        first_at_or_after(s, ':', 0, c) && last_at(s, '@', b) implies skip_two_bytes(s, c) is Some by {
        lemma_index_from(s, ':', 0, c);
    }
}

} // verus!
