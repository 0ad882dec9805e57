use neural_dvr::api::{
    channel_name_for, device_list_response, device_response, dvr_info_response,
    stream_stopped_message, ws_step, FrameReceipt, WsStep,
};
use neural_dvr::config::AppConfig;
use neural_dvr::discovery::{
    apply_discovery, channel_from_isapi, channel_status_from_answer, discover_once,
    dvr_info_from_isapi, fallback_to_manual_channels, manual_mode, DeviceRegistry,
    DiscoveryOutcome, IsapiDeviceInfo, IsapiInputProxyChannel, IsapiSourceInput,
    IsapiVideoInputChannel,
};
use neural_dvr::models::{ApiResponse, Channel, ChannelStatus, DvrInfo, StreamStatus};

fn is_v4(id: u128) -> bool {
    (id >> 76) & 0xf == 4 && (id >> 62) & 0x3 == 2
}

fn channel(id: u32, name: &str) -> Channel {
    Channel {
        id,
        name: name.to_string(),
        enabled: true,
        status: ChannelStatus::Unknown,
        resolution_width: None,
        resolution_height: None,
        video_codec: None,
    }
}

fn config() -> AppConfig {
    AppConfig {
        dvr_host: "192.168.1.64".to_string(),
        dvr_rtsp_host: "192.168.1.64".to_string(),
        dvr_port: 80,
        dvr_rtsp_port: 554,
        dvr_username: "admin".to_string(),
        dvr_password: "pw".to_string(),
        dvr_channels: vec![101, 201],
        server_host: "0.0.0.0".to_string(),
        server_port: 3001,
    }
}

#[test]
fn dvr_info_defaults() {
    let d = DvrInfo::default();
    assert_eq!(d.device_name, "Unknown");
    assert_eq!(d.model, "Unknown");
    assert_eq!(d.device_type, "DVR");
    assert_eq!(d.device_id, "");
    assert_eq!(d.channel_count, 0);
}

#[test]
fn status_words() {
    assert_eq!(ChannelStatus::Online.to_string(), "online");
    assert_eq!(ChannelStatus::Offline.to_string(), "offline");
    assert_eq!(ChannelStatus::Unknown.to_string(), "unknown");
    assert_eq!(StreamStatus::Starting.to_string(), "starting");
    assert_eq!(StreamStatus::Running.to_string(), "running");
    assert_eq!(StreamStatus::Stopped.to_string(), "stopped");
    assert_eq!(StreamStatus::Error.to_string(), "error");
}

#[test]
fn api_response_envelopes() {
    let ok = ApiResponse::ok(5u32);
    assert!(ok.success);
    assert_eq!(ok.data, Some(5));
    assert_eq!(ok.error, None);
    let err: ApiResponse<u32> = ApiResponse::err("boom");
    assert!(!err.success);
    assert_eq!(err.data, None);
    assert_eq!(err.error, Some("boom".to_string()));
}

#[test]
fn isapi_device_info_mapping() {
    let parsed = IsapiDeviceInfo {
        device_name: None,
        device_id: Some("ID-1".to_string()),
        model: Some("DS-7208".to_string()),
        serial_number: None,
        firmware_version: Some("V4".to_string()),
        encoder_version: None,
        device_type: None,
    };
    let d = dvr_info_from_isapi(&parsed);
    assert_eq!(d.device_name, "Unknown");
    assert_eq!(d.device_id, "ID-1");
    assert_eq!(d.model, "DS-7208");
    assert_eq!(d.serial_number, "");
    assert_eq!(d.firmware_version, "V4");
    assert_eq!(d.encoder_version, "");
    assert_eq!(d.device_type, "DVR");
    assert_eq!(d.channel_count, 0);
}

#[test]
fn isapi_channel_mapping() {
    let c = channel_from_isapi(&IsapiVideoInputChannel {
        id: Some("3".to_string()),
        name: None,
        video_input_enabled: Some("true".to_string()),
    });
    assert_eq!(c.id, 3);
    assert_eq!(c.name, "Channel 3");
    assert!(c.enabled);
    assert_eq!(c.status, ChannelStatus::Unknown);
    let d = channel_from_isapi(&IsapiVideoInputChannel {
        id: Some(" 4".to_string()),
        name: Some("Gate".to_string()),
        video_input_enabled: Some("TRUE".to_string()),
    });
    assert_eq!(d.id, 0);
    assert_eq!(d.name, "Gate");
    assert!(!d.enabled);
    let e = channel_from_isapi(&IsapiVideoInputChannel {
        id: None,
        name: None,
        video_input_enabled: Some("1".to_string()),
    });
    assert_eq!(e.name, "Channel 0");
    assert!(e.enabled);
}

#[test]
fn channel_status_classification() {
    assert_eq!(channel_status_from_answer(None), ChannelStatus::Offline);
    assert_eq!(channel_status_from_answer(Some("<s>online</s>")), ChannelStatus::Online);
    assert_eq!(channel_status_from_answer(Some("statusString OK")), ChannelStatus::Online);
    assert_eq!(channel_status_from_answer(Some("<s>noVideo</s>")), ChannelStatus::Offline);
    assert_eq!(channel_status_from_answer(Some("went offline")), ChannelStatus::Offline);
    assert_eq!(channel_status_from_answer(Some("offline but normal")), ChannelStatus::Online);
    assert_eq!(channel_status_from_answer(Some("???")), ChannelStatus::Online);
}

#[test]
fn manual_mode_state() {
    let s = manual_mode(&config());
    assert_eq!(s.channels.len(), 2);
    assert_eq!(s.channels[0].name, "Cam_101");
    assert_eq!(s.channels[1].id, 201);
    assert_eq!(s.channels[1].status, ChannelStatus::Online);
    assert!(s.channels[0].enabled);
    assert_eq!(s.dvr_info.device_name, "Manual RTSP");
    assert_eq!(s.dvr_info.device_id, "192.168.1.64");
    assert_eq!(s.dvr_info.model, "Hikvision");
    assert_eq!(s.dvr_info.channel_count, 2);
    let devices = s.devices.list();
    assert_eq!(devices.len(), 2);
    assert_eq!(devices[0].channel_id, 101);
    assert_eq!(devices[0].ip_address, Some("192.168.1.64".to_string()));
    assert_eq!(devices[0].protocol, Some("rtsp".to_string()));
    assert_eq!(devices[0].status, ChannelStatus::Online);
    assert!(is_v4(devices[0].id));
    assert!(is_v4(devices[1].id));
    assert_ne!(devices[0].id, devices[1].id);
    assert_eq!(devices[0].discovered_at, devices[0].last_seen);
    assert!(devices[0].last_seen.secs > 1_600_000_000);
}

#[test]
fn fallback_keeps_known_devices() {
    let start = manual_mode(&config());
    let mut devices = start.devices;
    let known = devices.get(101).unwrap();
    let mut info = None;
    let mut channels = Vec::new();
    let base = DvrInfo::default();
    fallback_to_manual_channels(&vec![101, 301], Some(base), &mut devices, &mut info, &mut channels);
    assert_eq!(channels.len(), 2);
    assert_eq!(channels[1].name, "Cam_301");
    assert_eq!(channels[1].status, ChannelStatus::Unknown);
    let info = info.unwrap();
    assert_eq!(info.device_name, "Manual RTSP Mode");
    assert_eq!(info.channel_count, 2);
    let d101 = devices.get(101).unwrap();
    assert_eq!(d101.id, known.id);
    assert_eq!(d101.discovered_at, known.discovered_at);
    assert_eq!(d101.ip_address, known.ip_address);
    assert_eq!(d101.status, ChannelStatus::Unknown);
    let d301 = devices.get(301).unwrap();
    assert!(is_v4(d301.id));
    assert_eq!(d301.protocol, Some("rtsp".to_string()));
    assert_eq!(d301.ip_address, None);
    assert!(devices.get(201).is_none());
    assert_eq!(devices.len(), 2);
}

#[test]
fn fallback_without_channels_changes_nothing() {
    let mut devices = DeviceRegistry::new();
    let mut info = Some(DvrInfo::default());
    let mut channels = vec![channel(7, "seven")];
    fallback_to_manual_channels(&Vec::new(), None, &mut devices, &mut info, &mut channels);
    assert_eq!(devices.len(), 0);
    assert_eq!(info.unwrap().device_name, "Unknown");
    assert_eq!(channels.len(), 1);
}

#[test]
fn fallback_keeps_named_info() {
    let mut devices = DeviceRegistry::new();
    let mut info = None;
    let mut channels = Vec::new();
    let mut base = DvrInfo::default();
    base.device_name = "Front DVR".to_string();
    fallback_to_manual_channels(&vec![1], Some(base), &mut devices, &mut info, &mut channels);
    assert_eq!(info.unwrap().device_name, "Front DVR");
}

#[test]
fn discovery_cycle_with_proxies() {
    let start = manual_mode(&config());
    let mut devices = start.devices;
    let known = devices.get(101).unwrap();
    let mut info = None;
    let mut channels = Vec::new();
    let proxies = vec![
        IsapiInputProxyChannel {
            id: Some("101".to_string()),
            name: Some("Lobby".to_string()),
            source_input: Some(IsapiSourceInput {
                ip_address: Some("10.0.0.5".to_string()),
                protocol: Some("HIKVISION".to_string()),
            }),
        },
        IsapiInputProxyChannel { id: Some("5".to_string()), name: Some(String::new()), source_input: None },
        IsapiInputProxyChannel { id: Some("x".to_string()), name: Some("Nope".to_string()), source_input: None },
    ];
    apply_discovery(
        DvrInfo::default(),
        vec![channel(101, "One"), channel(5, "Five")],
        &vec![ChannelStatus::Online, ChannelStatus::Offline],
        &proxies,
        &mut devices,
        &mut info,
        &mut channels,
    );
    assert_eq!(info.unwrap().channel_count, 2);
    assert_eq!(channels[0].status, ChannelStatus::Online);
    assert_eq!(channels[1].status, ChannelStatus::Offline);
    let d101 = devices.get(101).unwrap();
    assert_eq!(d101.id, known.id);
    assert_eq!(d101.discovered_at, known.discovered_at);
    assert_eq!(d101.name, "Lobby");
    assert_eq!(d101.ip_address, Some("10.0.0.5".to_string()));
    assert_eq!(d101.protocol, Some("HIKVISION".to_string()));
    assert_eq!(d101.status, ChannelStatus::Online);
    let d5 = devices.get(5).unwrap();
    assert_eq!(d5.name, "Five");
    assert_eq!(d5.status, ChannelStatus::Offline);
    assert_eq!(d5.protocol, None);
    assert!(is_v4(d5.id));
    assert!(devices.get(201).is_none());
}

#[test]
fn discover_once_dispatch() {
    let mut devices = DeviceRegistry::new();
    let mut info = None;
    let mut channels = Vec::new();
    let mut named = DvrInfo::default();
    named.device_name = "Back DVR".to_string();
    discover_once(&vec![9], DiscoveryOutcome::ChannelsFailed(named), &mut devices, &mut info, &mut channels);
    assert_eq!(info.as_ref().unwrap().device_name, "Back DVR");
    assert_eq!(channels[0].name, "Cam_9");
    discover_once(&vec![9], DiscoveryOutcome::InfoFailed, &mut devices, &mut info, &mut channels);
    assert_eq!(info.as_ref().unwrap().device_name, "Manual RTSP Mode");
    discover_once(
        &vec![9],
        DiscoveryOutcome::Fetched {
            info: DvrInfo::default(),
            channels: vec![channel(9, "Nine")],
            statuses: vec![ChannelStatus::Online],
            proxies: Vec::new(),
        },
        &mut devices,
        &mut info,
        &mut channels,
    );
    assert_eq!(channels[0].name, "Nine");
    assert_eq!(devices.get(9).unwrap().name, "Nine");
}

#[test]
fn api_answers() {
    let r = dvr_info_response(&None);
    assert!(!r.success);
    assert_eq!(r.error, Some("DVR info not yet available. Discovery may still be running.".to_string()));
    let r = dvr_info_response(&Some(DvrInfo::default()));
    assert!(r.success);
    assert_eq!(r.data.unwrap().model, "Unknown");
    let s = manual_mode(&config());
    let r = device_response(&s.devices, 7);
    assert_eq!(r.error, Some("Device with channel ID 7 not found".to_string()));
    let r = device_response(&s.devices, 201);
    assert_eq!(r.data.unwrap().name, "Cam_201");
    let r = device_list_response(&s.devices);
    let ids: Vec<u32> = r.data.unwrap().iter().map(|d| d.channel_id).collect();
    assert_eq!(ids, vec![101, 201]);
    let chans = vec![channel(1, "first"), channel(2, "second"), channel(1, "again")];
    assert_eq!(channel_name_for(&chans, 1), "first");
    assert_eq!(channel_name_for(&chans, 3), "Channel 3");
    assert_eq!(stream_stopped_message(12), "Stream for channel 12 stopped");
    assert_eq!(ws_step(FrameReceipt::Frame), WsStep::Send);
    assert_eq!(ws_step(FrameReceipt::Lagged), WsStep::Skip);
    assert_eq!(ws_step(FrameReceipt::Closed), WsStep::Stop);
}
