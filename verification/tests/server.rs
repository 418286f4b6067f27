//! The rules of a streaming session.

use remote_desktop::config::{EncoderProfile, EncoderSection, Settings};
use remote_desktop::diagnostics::Diagnostics;
use remote_desktop::encoder::backends::HwVendor;
use remote_desktop::encoder::{Chroma, CodecKind, EncodedFrame};
use remote_desktop::hw_probe::EncoderCapability;
use remote_desktop::input::{InputAction, InputSimulator, VirtualScreen};
use remote_desktop::protocol::{ClientMessage, MonitorInfo, ServerMessage};
use remote_desktop::server::{
    await_client, device_list, encoder_config, encoder_list, find_monitor_origin, frame_due_us,
    frame_interval_us, greeting, hw_vendor_to_id, limit_devices, on_input, pong, profile_list,
    route, server_info, shown_size, stamp_frame, AudioControl, Routed, SendQueue, SenderCounters,
    SocketEvent, StartAction,
};

fn frame(is_keyframe: bool, tag: u8) -> EncodedFrame {
    let mut data = vec![0u8; EncodedFrame::HEADER_LEN];
    data.push(tag);
    EncodedFrame { data, is_keyframe }
}

fn cap(name: &str, working: bool) -> EncoderCapability {
    EncoderCapability {
        name: name.to_string(),
        codec: CodecKind::from_encoder_name(name),
        hw_vendor: HwVendor::Software,
        working,
        reason: None,
    }
}

fn tags(q: &mut SendQueue) -> Vec<u8> {
    let mut out = Vec::new();
    while let Some(f) = q.pop() {
        out.push(f.data[EncodedFrame::HEADER_LEN]);
    }
    out
}

#[test]
fn vendor_ids_are_stable() {
    let ids: Vec<u8> = [
        HwVendor::Amd,
        HwVendor::Nvidia,
        HwVendor::Intel,
        HwVendor::Microsoft,
        HwVendor::Software,
        HwVendor::Other,
    ]
    .into_iter()
    .map(hw_vendor_to_id)
    .collect();
    assert_eq!(ids, [0, 1, 2, 3, 4, 5]);
}

#[test]
fn device_list_is_cut_to_what_it_can_count() {
    let names: Vec<String> = (0..300).map(|i| format!("device {i}")).collect();
    assert_eq!(limit_devices(names.clone()).len(), 255);
    assert_eq!(limit_devices(names[..3].to_vec()), names[..3].to_vec());
    match device_list(&names) {
        ServerMessage::AudioDeviceList { devices } => {
            assert_eq!(devices.len(), 255);
            assert_eq!((devices[254].index, devices[254].name.as_str()), (254, "device 254"));
        }
        _ => panic!("wrong variant"),
    }
}

#[test]
fn encoder_list_holds_what_works() {
    let caps = vec![cap("h264_amf", false), cap("libx264", true), cap("libsvtav1", true)];
    match encoder_list(&caps, "libsvtav1") {
        ServerMessage::EncoderList { encoders } => {
            assert_eq!(encoders.len(), 2);
            assert_eq!((encoders[0].index, encoders[0].name.as_str()), (0, "libx264"));
            assert_eq!((encoders[0].codec, encoders[0].hw_vendor), (0, 4));
            assert!(!encoders[0].active);
            assert_eq!((encoders[1].index, encoders[1].codec), (1, 2));
            assert!(encoders[1].active);
        }
        _ => panic!("wrong variant"),
    }
}

#[test]
fn greeting_comes_in_order() {
    let mut section = EncoderSection::default();
    section.insert_profile("office".to_string(), EncoderProfile::default());
    section.insert_profile("gaming".to_string(), EncoderProfile::default());
    section.default_profile = Some("office".to_string());
    let monitors =
        vec![MonitorInfo { index: 0, x: 0, y: 0, width: 1920, height: 1080, primary: true }];
    let caps = vec![cap("libx264", true)];
    let names = vec!["default".to_string()];

    let all = greeting(&monitors, &names, &caps, "libx264", &section);
    assert_eq!(all.len(), 4);
    assert!(matches!(&all[0], ServerMessage::MonitorList { monitors: m } if m.len() == 1));
    assert!(matches!(&all[1], ServerMessage::AudioDeviceList { devices } if devices.len() == 1));
    assert!(matches!(&all[2], ServerMessage::EncoderList { encoders } if encoders[0].active));
    match ServerMessage::decode(&all[3].encode()).unwrap() {
        ServerMessage::ProfileList { profiles } => {
            assert_eq!((profiles[0].name.as_str(), profiles[0].active), ("gaming", false));
            assert_eq!((profiles[1].name.as_str(), profiles[1].active), ("office", true));
        }
        _ => panic!("wrong variant"),
    }

    // Without monitors their list is left out; the others are sent even if empty.
    let bare = greeting(&Vec::new(), &Vec::new(), &Vec::new(), "x", &EncoderSection::default());
    assert_eq!(bare.len(), 3);
    assert!(matches!(profile_list(&EncoderSection::default()),
        ServerMessage::ProfileList { profiles } if profiles.is_empty()));
}

#[test]
fn a_session_starts_when_the_client_is_ready_or_picks_a_monitor() {
    let ready = ClientMessage::ClientReady.encode();
    let select = ClientMessage::SelectMonitor { index: 2 }.encode();
    let other = ClientMessage::MouseMove { x: 1, y: 2 }.encode();
    assert_eq!(
        await_client(SocketEvent::Binary { data: &ready }),
        StartAction::Stream { monitor: 0 }
    );
    assert_eq!(
        await_client(SocketEvent::Binary { data: &select }),
        StartAction::Stream { monitor: 2 }
    );
    assert_eq!(await_client(SocketEvent::Binary { data: &other }), StartAction::Wait);
    assert_eq!(await_client(SocketEvent::Binary { data: &[] }), StartAction::Wait);
    assert_eq!(await_client(SocketEvent::Other), StartAction::Wait);
    assert_eq!(await_client(SocketEvent::Closed), StartAction::HangUp);
}

#[test]
fn monitors_are_found_by_index() {
    let monitors = vec![
        MonitorInfo { index: 0, x: 0, y: 0, width: 1920, height: 1080, primary: true },
        MonitorInfo { index: 1, x: -2560, y: 40, width: 2560, height: 1440, primary: false },
    ];
    assert_eq!(find_monitor_origin(&monitors, 1), (-2560, 40));
    assert_eq!(find_monitor_origin(&monitors, 9), (0, 0));
}

#[test]
fn stream_parameters() {
    let s = Settings {
        encoder: "hevc_nvenc".to_string(),
        codec: CodecKind::Hevc,
        chroma: Chroma::Yuv444,
        fps: 300,
        quality: 22,
        slices: 4,
        bitrate_kbps: Some(8000),
        audio_device: None,
    };
    let c = encoder_config(&s, 2560, 1440);
    assert_eq!((c.width, c.height, c.fps, c.quality), (2560, 1440, 300, 22));
    assert_eq!((c.encoder_name.as_str(), c.slices, c.bitrate_kbps), ("hevc_nvenc", 4, Some(8000)));
    let (w, h) = shown_size(70000, 1440);
    assert!(matches!(
        server_info(w, h, 300, CodecKind::Hevc),
        ServerMessage::ServerInfo { width: 4464, height: 1440, fps: 44, codec: 1 }
    ));
    assert_eq!(frame_interval_us(60), 16666);
    assert_eq!(frame_due_us(60, 3), 49998);
    assert_eq!(frame_due_us(2_000_000, 5), 0);
}

#[test]
fn messages_are_routed() {
    let devices = vec!["a".to_string(), "b".to_string()];
    let audio = |index: u8| route(&ClientMessage::SelectAudio { index }.encode(), &devices);
    assert_eq!(audio(1), Routed::StartAudio { device: "b".to_string() });
    assert_eq!(audio(2), Routed::StopAudio);
    assert_eq!(audio(255), Routed::StopAudio);
    let ping = ClientMessage::Ping { client_ts_us: 77 }.encode();
    assert_eq!(route(&ping, &devices), Routed::Pong { client_ts_us: 77 });
    assert_eq!(route(&[], &devices), Routed::Input);
    let key = ClientMessage::KeyEvent { key_code: 65, pressed: true }.encode();
    assert_eq!(route(&key, &devices), Routed::Input);
    assert!(matches!(
        ServerMessage::decode(&pong(77)),
        Some(ServerMessage::Pong { client_ts_us: 77 })
    ));
}

#[test]
fn input_becomes_actions() {
    let sim = InputSimulator::new(1920, 0, 1920, 1080);
    let screen = VirtualScreen { x: 0, y: 0, width: 3840, height: 1080 };
    let mv = ClientMessage::MouseMove { x: 0, y: 540 }.encode();
    assert_eq!(
        on_input(&sim, &mv, screen),
        Some(vec![InputAction::MoveTo { x: 32767, y: 32767 }])
    );
    for quiet in [
        ClientMessage::SelectMonitor { index: 1 },
        ClientMessage::SelectEncoder { index: 1 },
        ClientMessage::SelectProfile { index: 1 },
        ClientMessage::SelectAudio { index: 1 },
        ClientMessage::ClientReady,
    ] {
        assert_eq!(on_input(&sim, &quiet.encode(), screen), Some(Vec::new()));
    }
    assert_eq!(on_input(&sim, &[0xFE], screen), Some(Vec::new()));
    let far = VirtualScreen { x: 100_000, y: 0, width: 3840, height: 1080 };
    assert_eq!(on_input(&sim, &mv, far), None);
}

#[test]
fn audio_is_stopped_before_it_is_switched() {
    let mut a = AudioControl::new(None);
    assert!(!a.switch(Some("mic".to_string())));
    assert!(a.switch(Some("line".to_string())));
    assert!(a.switch(None));
    assert!(!a.switch(None));
    assert!(AudioControl::new(Some("mic".to_string())).switch(None));
}

#[test]
fn a_newer_key_frame_drops_waiting_deltas_only() {
    let mut q = SendQueue::new();
    assert_eq!(q.enqueue(frame(true, 1)), 0);
    assert_eq!(q.enqueue(frame(false, 2)), 0);
    assert_eq!(q.enqueue(frame(false, 3)), 0);
    assert_eq!(q.enqueue(frame(true, 4)), 2);
    assert_eq!(q.enqueue(frame(false, 5)), 0);
    assert_eq!(tags(&mut q), [1, 4, 5]);
    assert!(q.pop().is_none());
}

#[test]
fn without_a_newer_key_frame_nothing_is_dropped() {
    let mut q = SendQueue::new();
    for t in 0..5 {
        assert_eq!(q.enqueue(frame(false, t)), 0);
    }
    assert_eq!(tags(&mut q), [0, 1, 2, 3, 4]);
}

#[test]
fn stamped_frame_is_a_video_message() {
    let bytes = stamp_frame(frame(true, 9), 0x0102_0304_0506_0708);
    assert_eq!(bytes.len(), 11);
    match ServerMessage::decode(&bytes).unwrap() {
        ServerMessage::VideoFrame { timestamp_us, is_keyframe, data } => {
            assert_eq!(timestamp_us, 0x0102_0304_0506_0708);
            assert!(is_keyframe);
            assert_eq!(data, [9]);
        }
        _ => panic!("wrong variant"),
    }
}

#[test]
fn sender_counts_what_it_sends() {
    let mut d = Diagnostics::new("x".to_string());
    let mut c = SenderCounters::new();
    for i in 0..30 {
        c.frame_sent(i == 0, 100, &mut d);
    }
    assert_eq!((c.sent_frames, c.sent_keys), (30, 1));
    c.observe(&mut d);
    assert_eq!(d.current_fps, 30);
    c.frame_sent(false, 1, &mut d);
    c.observe(&mut d);
    assert_eq!(d.current_fps, 1);
    assert_eq!((d.frames_sent, d.bytes_sent), (31, 3001));
}
