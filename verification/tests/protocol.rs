//! The wire protocol: every message comes back from its bytes.

use remote_desktop::protocol::{
    AudioDeviceInfo, ClientMessage, EncoderInfo, MonitorInfo, ProfileInfo, ServerMessage,
    MSG_ENCODER_LIST, MSG_MOUSE_BUTTON, MSG_PROFILE_LIST, MSG_SERVER_INFO,
};

#[test]
fn roundtrip_server_info() {
    let msg = ServerMessage::ServerInfo { width: 1920, height: 1080, fps: 60, codec: 1 };
    let encoded = msg.encode();
    let decoded = ServerMessage::decode(&encoded).unwrap();
    match decoded {
        ServerMessage::ServerInfo { width, height, fps, codec } => {
            assert_eq!(width, 1920);
            assert_eq!(height, 1080);
            assert_eq!(fps, 60);
            assert_eq!(codec, 1);
        }
        _ => panic!("wrong variant"),
    }
}

/// Old clients (and old proxies that may strip trailing bytes)
/// must still be able to decode a 6-byte ServerInfo by treating the
/// missing codec byte as H.264.
#[test]
fn roundtrip_server_info_legacy_no_codec_byte() {
    let mut bytes = vec![MSG_SERVER_INFO];
    bytes.extend_from_slice(&1920u16.to_le_bytes());
    bytes.extend_from_slice(&1080u16.to_le_bytes());
    bytes.push(60);
    // Note: no codec byte — legacy 6-byte payload.
    let decoded = ServerMessage::decode(&bytes).unwrap();
    match decoded {
        ServerMessage::ServerInfo { width, height, fps, codec } => {
            assert_eq!(width, 1920);
            assert_eq!(height, 1080);
            assert_eq!(fps, 60);
            assert_eq!(codec, 0, "legacy payload must default to H.264");
        }
        _ => panic!("wrong variant"),
    }
}

#[test]
fn roundtrip_video_frame() {
    let msg = ServerMessage::VideoFrame {
        timestamp_us: 123456789,
        is_keyframe: true,
        data: vec![0, 0, 0, 1, 0x65, 0xAA],
    };
    let encoded = msg.encode();
    let decoded = ServerMessage::decode(&encoded).unwrap();
    match decoded {
        ServerMessage::VideoFrame { timestamp_us, is_keyframe, data } => {
            assert_eq!(timestamp_us, 123456789);
            assert!(is_keyframe);
            assert_eq!(data, vec![0, 0, 0, 1, 0x65, 0xAA]);
        }
        _ => panic!("wrong variant"),
    }
}

#[test]
fn roundtrip_mouse_move() {
    let msg = ClientMessage::MouseMove { x: 500, y: 300 };
    let encoded = msg.encode();
    let decoded = ClientMessage::decode(&encoded).unwrap();
    match decoded {
        ClientMessage::MouseMove { x, y } => {
            assert_eq!(x, 500);
            assert_eq!(y, 300);
        }
        _ => panic!("wrong variant"),
    }
}

#[test]
fn roundtrip_key_event() {
    let msg = ClientMessage::KeyEvent { key_code: 0x41, pressed: true };
    let encoded = msg.encode();
    let decoded = ClientMessage::decode(&encoded).unwrap();
    match decoded {
        ClientMessage::KeyEvent { key_code, pressed } => {
            assert_eq!(key_code, 0x41);
            assert!(pressed);
        }
        _ => panic!("wrong variant"),
    }
}

#[test]
fn roundtrip_key_scancode() {
    // Non-extended: physical 'Z' position on a US keyboard (PS/2 Set 1 = 0x2C)
    let msg = ClientMessage::KeyScancode { scancode: 0x2C, extended: false, pressed: true };
    let encoded = msg.encode();
    let decoded = ClientMessage::decode(&encoded).unwrap();
    match decoded {
        ClientMessage::KeyScancode { scancode, extended, pressed } => {
            assert_eq!(scancode, 0x2C);
            assert!(!extended);
            assert!(pressed);
        }
        _ => panic!("wrong variant"),
    }

    // Extended: ArrowUp (E0 48)
    let msg = ClientMessage::KeyScancode { scancode: 0x48, extended: true, pressed: false };
    let encoded = msg.encode();
    match ClientMessage::decode(&encoded).unwrap() {
        ClientMessage::KeyScancode { scancode, extended, pressed } => {
            assert_eq!(scancode, 0x48);
            assert!(extended);
            assert!(!pressed);
        }
        _ => panic!("wrong variant"),
    }
}

#[test]
fn roundtrip_set_keyboard_layout() {
    // German (de-DE)
    let msg = ClientMessage::SetKeyboardLayout { klid: 0x0000_0407 };
    let encoded = msg.encode();
    match ClientMessage::decode(&encoded).unwrap() {
        ClientMessage::SetKeyboardLayout { klid } => assert_eq!(klid, 0x0000_0407),
        _ => panic!("wrong variant"),
    }
}

#[test]
fn roundtrip_ping_pong() {
    let ts = 1_700_000_000_000_000_u64;
    let encoded = ClientMessage::Ping { client_ts_us: ts }.encode();
    match ClientMessage::decode(&encoded).unwrap() {
        ClientMessage::Ping { client_ts_us } => assert_eq!(client_ts_us, ts),
        _ => panic!("wrong variant"),
    }

    let encoded = ServerMessage::Pong { client_ts_us: ts }.encode();
    match ServerMessage::decode(&encoded).unwrap() {
        ServerMessage::Pong { client_ts_us } => assert_eq!(client_ts_us, ts),
        _ => panic!("wrong variant"),
    }
}

#[test]
fn decode_empty_returns_none() {
    assert!(ServerMessage::decode(&[]).is_none());
    assert!(ClientMessage::decode(&[]).is_none());
}

#[test]
fn decode_truncated_returns_none() {
    assert!(ServerMessage::decode(&[MSG_SERVER_INFO, 0x00]).is_none());
    assert!(ClientMessage::decode(&[MSG_MOUSE_BUTTON, 0x00]).is_none());
}

#[test]
fn roundtrip_cursor_info() {
    let msg = ServerMessage::CursorInfo { x: 100, y: 200, visible: true };
    let encoded = msg.encode();
    let decoded = ServerMessage::decode(&encoded).unwrap();
    match decoded {
        ServerMessage::CursorInfo { x, y, visible } => {
            assert_eq!(x, 100);
            assert_eq!(y, 200);
            assert!(visible);
        }
        _ => panic!("wrong variant"),
    }
}

#[test]
fn roundtrip_monitor_list() {
    let msg = ServerMessage::MonitorList {
        monitors: vec![
            MonitorInfo { index: 0, x: 0, y: 0, width: 1920, height: 1080, primary: true },
            MonitorInfo { index: 1, x: 1920, y: 0, width: 2560, height: 1440, primary: false },
        ],
    };
    let encoded = msg.encode();
    let decoded = ServerMessage::decode(&encoded).unwrap();
    match decoded {
        ServerMessage::MonitorList { monitors } => {
            assert_eq!(monitors.len(), 2);
            assert_eq!(monitors[0].index, 0);
            assert_eq!(monitors[0].width, 1920);
            assert!(monitors[0].primary);
            assert_eq!(monitors[1].index, 1);
            assert_eq!(monitors[1].x, 1920);
            assert_eq!(monitors[1].width, 2560);
            assert!(!monitors[1].primary);
        }
        _ => panic!("wrong variant"),
    }
}

#[test]
fn roundtrip_select_monitor() {
    let msg = ClientMessage::SelectMonitor { index: 2 };
    let encoded = msg.encode();
    let decoded = ClientMessage::decode(&encoded).unwrap();
    match decoded {
        ClientMessage::SelectMonitor { index } => assert_eq!(index, 2),
        _ => panic!("wrong variant"),
    }
}

#[test]
fn roundtrip_audio_data() {
    let pcm = vec![0u8; 7680]; // 20ms of 48kHz stereo f32le
    let msg = ServerMessage::AudioData { data: pcm.clone() };
    let encoded = msg.encode();
    let decoded = ServerMessage::decode(&encoded).unwrap();
    match decoded {
        ServerMessage::AudioData { data } => {
            assert_eq!(data.len(), 7680);
            assert_eq!(data, pcm);
        }
        _ => panic!("wrong variant"),
    }
}

#[test]
fn roundtrip_audio_device_list() {
    let msg = ServerMessage::AudioDeviceList {
        devices: vec![
            AudioDeviceInfo { index: 0, name: "Stereo Mix (Realtek)".into() },
            AudioDeviceInfo { index: 1, name: "Microphone (Realtek)".into() },
        ],
    };
    let encoded = msg.encode();
    let decoded = ServerMessage::decode(&encoded).unwrap();
    match decoded {
        ServerMessage::AudioDeviceList { devices } => {
            assert_eq!(devices.len(), 2);
            assert_eq!(devices[0].index, 0);
            assert_eq!(devices[0].name, "Stereo Mix (Realtek)");
            assert_eq!(devices[1].index, 1);
            assert_eq!(devices[1].name, "Microphone (Realtek)");
        }
        _ => panic!("wrong variant"),
    }
}

#[test]
fn roundtrip_audio_device_list_empty() {
    let msg = ServerMessage::AudioDeviceList { devices: vec![] };
    let encoded = msg.encode();
    let decoded = ServerMessage::decode(&encoded).unwrap();
    match decoded {
        ServerMessage::AudioDeviceList { devices } => {
            assert_eq!(devices.len(), 0);
        }
        _ => panic!("wrong variant"),
    }
}

#[test]
fn roundtrip_select_audio() {
    let msg = ClientMessage::SelectAudio { index: 3 };
    let encoded = msg.encode();
    let decoded = ClientMessage::decode(&encoded).unwrap();
    match decoded {
        ClientMessage::SelectAudio { index } => assert_eq!(index, 3),
        _ => panic!("wrong variant"),
    }
}

#[test]
fn roundtrip_select_audio_disable() {
    let msg = ClientMessage::SelectAudio { index: 0xFF };
    let encoded = msg.encode();
    let decoded = ClientMessage::decode(&encoded).unwrap();
    match decoded {
        ClientMessage::SelectAudio { index } => assert_eq!(index, 0xFF),
        _ => panic!("wrong variant"),
    }
}

#[test]
fn roundtrip_encoder_list() {
    let msg = ServerMessage::EncoderList {
        encoders: vec![
            EncoderInfo {
                index: 0,
                name: "h264_amf".into(),
                codec: 0,
                hw_vendor: 0,
                active: true,
            },
            EncoderInfo {
                index: 1,
                name: "libsvtav1".into(),
                codec: 2,
                hw_vendor: 4,
                active: false,
            },
        ],
    };
    let encoded = msg.encode();
    let decoded = ServerMessage::decode(&encoded).unwrap();
    match decoded {
        ServerMessage::EncoderList { encoders } => {
            assert_eq!(encoders.len(), 2);
            assert_eq!(encoders[0].name, "h264_amf");
            assert!(encoders[0].active);
            assert_eq!(encoders[1].codec, 2);
            assert_eq!(encoders[1].hw_vendor, 4);
        }
        _ => panic!("wrong variant"),
    }
}

#[test]
fn roundtrip_encoder_list_empty() {
    let msg = ServerMessage::EncoderList { encoders: vec![] };
    let decoded = ServerMessage::decode(&msg.encode()).unwrap();
    match decoded {
        ServerMessage::EncoderList { encoders } => assert!(encoders.is_empty()),
        _ => panic!("wrong variant"),
    }
}

#[test]
fn roundtrip_profile_list() {
    let msg = ServerMessage::ProfileList {
        profiles: vec![
            ProfileInfo { index: 0, name: "gaming".into(), active: true },
            ProfileInfo { index: 1, name: "office".into(), active: false },
        ],
    };
    let decoded = ServerMessage::decode(&msg.encode()).unwrap();
    match decoded {
        ServerMessage::ProfileList { profiles } => {
            assert_eq!(profiles.len(), 2);
            assert_eq!(profiles[0].name, "gaming");
            assert!(profiles[0].active);
            assert_eq!(profiles[1].name, "office");
        }
        _ => panic!("wrong variant"),
    }
}

#[test]
fn roundtrip_select_encoder() {
    let msg = ClientMessage::SelectEncoder { index: 5 };
    match ClientMessage::decode(&msg.encode()).unwrap() {
        ClientMessage::SelectEncoder { index } => assert_eq!(index, 5),
        _ => panic!("wrong variant"),
    }
}

#[test]
fn roundtrip_select_profile() {
    let msg = ClientMessage::SelectProfile { index: 2 };
    match ClientMessage::decode(&msg.encode()).unwrap() {
        ClientMessage::SelectProfile { index } => assert_eq!(index, 2),
        _ => panic!("wrong variant"),
    }
}

/// Older clients must keep working: when the server sends a future
/// message ID they don't recognise, `decode` returns `None` and the
/// dispatcher silently skips it.  This test pins that contract.
#[test]
fn unknown_message_id_decodes_to_none() {
    // 0xFE is reserved / future use.
    assert!(ServerMessage::decode(&[0xFE, 0, 0, 0]).is_none());
    assert!(ClientMessage::decode(&[0xFE, 0, 0, 0]).is_none());
}

/// Truncated EncoderList payloads must not panic — `decode` returns
/// `None` and the caller skips the bad message.
#[test]
fn encoder_list_truncated_decodes_to_none() {
    // Says count=2 but contains only enough bytes for one entry header.
    let bytes = [MSG_ENCODER_LIST, 2, 0, 0, 0, 0, 4, 0];
    assert!(ServerMessage::decode(&bytes).is_none());
}

/// Truncated ProfileList payloads must not panic.
#[test]
fn profile_list_truncated_decodes_to_none() {
    let bytes = [MSG_PROFILE_LIST, 5, 0, 1];
    assert!(ServerMessage::decode(&bytes).is_none());
}

#[test]
fn cut_messages_are_refused() {
    let lists = [
        ServerMessage::MonitorList {
            monitors: vec![MonitorInfo { index: 0, x: -1, y: 2, width: 3, height: 4, primary: true }],
        },
        ServerMessage::AudioDeviceList {
            devices: vec![
                AudioDeviceInfo { index: 0, name: "Gerät".into() },
                AudioDeviceInfo { index: 1, name: String::new() },
            ],
        },
        ServerMessage::EncoderList {
            encoders: vec![EncoderInfo {
                index: 0,
                name: "libx264".into(),
                codec: 0,
                hw_vendor: 4,
                active: true,
            }],
        },
        ServerMessage::ProfileList {
            profiles: vec![ProfileInfo { index: 0, name: "office".into(), active: false }],
        },
        ServerMessage::CursorInfo { x: 1, y: 2, visible: true },
        ServerMessage::Pong { client_ts_us: 3 },
    ];
    for m in lists {
        let bytes = m.encode();
        for k in 0..bytes.len() {
            assert!(ServerMessage::decode(&bytes[..k]).is_none(), "{m:?} cut to {k}");
        }
        let mut longer = bytes.clone();
        longer.extend_from_slice(&[1, 2, 3]);
        let read = ServerMessage::decode(&longer).expect("complete");
        assert_eq!(read.encode(), bytes);
    }
    let client = [
        ClientMessage::MouseMove { x: 1, y: 2 },
        ClientMessage::MouseButton { button: 0, pressed: true, x: 1, y: 2 },
        ClientMessage::MouseScroll { delta_x: -1, delta_y: 1 },
        ClientMessage::KeyEvent { key_code: 1, pressed: false },
        ClientMessage::KeyScancode { scancode: 1, extended: false, pressed: true },
        ClientMessage::ClientReady,
        ClientMessage::SelectMonitor { index: 1 },
        ClientMessage::SetKeyboardLayout { klid: 0x407 },
        ClientMessage::Ping { client_ts_us: 9 },
    ];
    for m in client {
        let bytes = m.encode();
        for k in 0..bytes.len() {
            assert!(ClientMessage::decode(&bytes[..k]).is_none(), "{m:?} cut to {k}");
        }
        assert!(ServerMessage::decode(&bytes).is_none());
    }
}

#[test]
fn layout_on_the_wire() {
    assert_eq!(
        ServerMessage::ServerInfo { width: 0x0780, height: 0x0438, fps: 60, codec: 2 }.encode(),
        [MSG_SERVER_INFO, 0x80, 0x07, 0x38, 0x04, 60, 2]
    );
    assert_eq!(
        ServerMessage::ProfileList {
            profiles: vec![ProfileInfo { index: 3, name: "ab".into(), active: true }],
        }
        .encode(),
        [MSG_PROFILE_LIST, 1, 3, 1, 2, 0, b'a', b'b']
    );
    assert_eq!(
        ClientMessage::MouseScroll { delta_x: -1, delta_y: 256 }.encode()[1..],
        [0xFF, 0xFF, 0x00, 0x01]
    );
}
