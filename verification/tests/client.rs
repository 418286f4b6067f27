//! The client's readers and writers of messages.

use remote_desktop::client::{
    audio_device_index, audio_device_list_count, audio_device_name, encode_client_ready,
    encode_key_event, encode_key_scancode, encode_mouse_button, encode_mouse_move,
    encode_mouse_scroll, encode_ping, encode_select_audio, encode_select_encoder,
    encode_select_monitor, encode_select_profile, encode_set_keyboard_layout, encoder_codec,
    encoder_hw_vendor, encoder_index, encoder_is_active, encoder_list_count, encoder_name,
    monitor_info_height, monitor_info_index, monitor_info_primary, monitor_info_width,
    monitor_info_x, monitor_info_y, monitor_list_count, profile_index, profile_is_active,
    profile_list_count, profile_name, LatencyTracker,
};
use remote_desktop::protocol::{
    AudioDeviceInfo, ClientMessage, EncoderInfo, MonitorInfo, ProfileInfo, ServerMessage,
    MSG_AUDIO_DEVICE_LIST,
};

#[test]
fn encoder_list_helpers_roundtrip() {
    let msg = ServerMessage::EncoderList {
        encoders: vec![
            EncoderInfo { index: 0, name: "h264_amf".into(), codec: 0, hw_vendor: 0, active: true },
            EncoderInfo { index: 1, name: "libsvtav1".into(), codec: 2, hw_vendor: 4, active: false },
        ],
    };
    let buf = msg.encode();
    assert_eq!(encoder_list_count(&buf), 2);
    assert_eq!(encoder_index(&buf, 0), 0);
    assert_eq!(encoder_codec(&buf, 0), 0);
    assert_eq!(encoder_hw_vendor(&buf, 0), 0);
    assert!(encoder_is_active(&buf, 0));
    assert_eq!(encoder_name(&buf, 0), "h264_amf");
    assert_eq!(encoder_index(&buf, 1), 1);
    assert_eq!(encoder_codec(&buf, 1), 2);
    assert_eq!(encoder_hw_vendor(&buf, 1), 4);
    assert!(!encoder_is_active(&buf, 1));
    assert_eq!(encoder_name(&buf, 1), "libsvtav1");
}

#[test]
fn encoder_list_helpers_handle_out_of_range() {
    let msg = ServerMessage::EncoderList {
        encoders: vec![EncoderInfo {
            index: 0, name: "x".into(), codec: 0, hw_vendor: 4, active: true,
        }],
    };
    let buf = msg.encode();
    assert_eq!(encoder_list_count(&buf), 1);
    // Out-of-range index returns sentinel values (no panic).
    assert_eq!(encoder_index(&buf, 5), 0);
    assert_eq!(encoder_name(&buf, 5), "");
    assert!(!encoder_is_active(&buf, 5));
}

#[test]
fn encoder_list_helpers_reject_wrong_message_type() {
    // Passing an AudioDeviceList must yield 0/empty, not panic.
    let bogus = vec![MSG_AUDIO_DEVICE_LIST, 1, 0, 1, 0, b'X'];
    assert_eq!(encoder_list_count(&bogus), 0);
    assert_eq!(encoder_name(&bogus, 0), "");
}

#[test]
fn profile_list_helpers_roundtrip() {
    let msg = ServerMessage::ProfileList {
        profiles: vec![
            ProfileInfo { index: 0, name: "gaming".into(), active: true },
            ProfileInfo { index: 1, name: "office".into(), active: false },
        ],
    };
    let buf = msg.encode();
    assert_eq!(profile_list_count(&buf), 2);
    assert_eq!(profile_index(&buf, 0), 0);
    assert!(profile_is_active(&buf, 0));
    assert_eq!(profile_name(&buf, 0), "gaming");
    assert_eq!(profile_name(&buf, 1), "office");
    assert!(!profile_is_active(&buf, 1));
}

#[test]
fn select_encoder_and_profile_encode_round_trip() {
    let buf = encode_select_encoder(7);
    match ClientMessage::decode(&buf).unwrap() {
        ClientMessage::SelectEncoder { index } => assert_eq!(index, 7),
        _ => panic!("wrong variant"),
    }
    let buf = encode_select_profile(2);
    match ClientMessage::decode(&buf).unwrap() {
        ClientMessage::SelectProfile { index } => assert_eq!(index, 2),
        _ => panic!("wrong variant"),
    }
}

#[test]
fn every_client_message_is_encoded_for_the_server() {
    let cases: Vec<(Vec<u8>, ClientMessage)> = vec![
        (encode_client_ready(), ClientMessage::ClientReady),
        (encode_mouse_move(1, 500), ClientMessage::MouseMove { x: 1, y: 500 }),
        (
            encode_mouse_button(2, true, 3, 4),
            ClientMessage::MouseButton { button: 2, pressed: true, x: 3, y: 4 },
        ),
        (
            encode_mouse_scroll(-1, -32768),
            ClientMessage::MouseScroll { delta_x: -1, delta_y: -32768 },
        ),
        (encode_key_event(0x41, false), ClientMessage::KeyEvent { key_code: 0x41, pressed: false }),
        (
            encode_key_scancode(0x48, true, true),
            ClientMessage::KeyScancode { scancode: 0x48, extended: true, pressed: true },
        ),
        (encode_set_keyboard_layout(0x407), ClientMessage::SetKeyboardLayout { klid: 0x407 }),
        (encode_select_monitor(1), ClientMessage::SelectMonitor { index: 1 }),
        (encode_select_audio(255), ClientMessage::SelectAudio { index: 255 }),
        (encode_ping(1 << 50), ClientMessage::Ping { client_ts_us: 1 << 50 }),
    ];
    for (bytes, msg) in cases {
        assert_eq!(bytes, msg.encode());
        assert_eq!(ClientMessage::decode(&bytes), Some(msg));
    }
}

#[test]
fn monitor_readers_agree_with_the_message() {
    let buf = ServerMessage::MonitorList {
        monitors: vec![
            MonitorInfo { index: 0, x: 0, y: 0, width: 1920, height: 1080, primary: true },
            MonitorInfo { index: 1, x: -2560, y: -7, width: 2560, height: 1440, primary: false },
        ],
    }
    .encode();
    assert_eq!(monitor_list_count(&buf), 2);
    assert_eq!(monitor_info_index(&buf, 1), 1);
    assert_eq!((monitor_info_x(&buf, 1), monitor_info_y(&buf, 1)), (-2560, -7));
    assert_eq!((monitor_info_width(&buf, 1), monitor_info_height(&buf, 1)), (2560, 1440));
    assert!(monitor_info_primary(&buf, 0) && !monitor_info_primary(&buf, 1));
    // Out of range: zeros.
    assert_eq!((monitor_info_width(&buf, 2), monitor_info_x(&buf, 2)), (0, 0));
    assert_eq!(monitor_list_count(&[]), 0);
}

#[test]
fn device_readers_repair_broken_names() {
    let buf = ServerMessage::AudioDeviceList {
        devices: vec![AudioDeviceInfo { index: 0, name: "Gerät".to_string() }],
    }
    .encode();
    assert_eq!(audio_device_list_count(&buf), 1);
    assert_eq!(audio_device_index(&buf, 0), 0);
    assert_eq!(audio_device_name(&buf, 0), "Gerät");
    assert_eq!(audio_device_name(&buf, 1), "");
    let broken = [MSG_AUDIO_DEVICE_LIST, 1, 0, 3, 0, b'a', 0xFF, b'b'];
    assert_eq!(audio_device_name(&broken, 0), "a\u{FFFD}b");
    match ServerMessage::decode(&broken) {
        Some(ServerMessage::AudioDeviceList { devices }) => {
            assert_eq!(devices[0].name, "a\u{FFFD}b")
        }
        _ => panic!("wrong variant"),
    }
}

#[test]
fn latency_window_keeps_the_newest_samples() {
    let mut t = LatencyTracker::new(3);
    for s in [1.5f64, 2.5, 3.5, 4.5] {
        t.record(s.to_bits());
    }
    assert_eq!(t.count(), 3);
    let mut kept: Vec<f64> = t.samples().iter().map(|b| f64::from_bits(*b)).collect();
    kept.sort_by(f64::total_cmp);
    assert_eq!(kept, [2.5, 3.5, 4.5]);
    let mut one = LatencyTracker::new(0);
    one.record(7);
    one.record(8);
    assert_eq!(*one.samples(), vec![8]);
}
