//! The counters and what the endpoints tell.

use remote_desktop::diagnostics::{Diagnostics, EncoderResponse, HealthResponse};
use remote_desktop::encoder::backends::HwVendor;
use remote_desktop::encoder::CodecKind;
use remote_desktop::hw_probe::EncoderCapability;
use serde_json::Value;

#[test]
fn snapshot_reflects_increments() {
    let mut d = Diagnostics::new("h264_amf".into());
    d.active_sessions += 2;
    d.total_sessions += 7;
    d.frames_sent += 120;
    d.encoder_restarts += 1;
    let s = d.snapshot(0);
    assert_eq!(s.active_sessions, 2);
    assert_eq!(s.total_sessions, 7);
    assert_eq!(s.frames_sent, 120);
    assert_eq!(s.encoder_restarts, 1);
    assert_eq!(s.current_encoder, "h264_amf");
}

#[test]
fn encoder_response_serialises_capability_fields() {
    let cap = EncoderCapability {
        name: "libsvtav1".into(),
        codec: CodecKind::Av1,
        hw_vendor: HwVendor::Software,
        working: true,
        reason: None,
    };
    let resp = EncoderResponse::from_capability(&cap);
    let mut map = serde_json::Map::new();
    map.insert("name".to_string(), Value::from(resp.name));
    map.insert("codec".to_string(), Value::from(resp.codec));
    map.insert("hw_vendor".to_string(), Value::from(resp.hw_vendor));
    map.insert("working".to_string(), Value::from(resp.working));
    map.insert("reason".to_string(), Value::from(resp.reason));
    let json = serde_json::to_string(&Value::Object(map)).expect("serialises");
    assert!(json.contains("\"name\":\"libsvtav1\""));
    assert!(json.contains("\"codec\":\"Av1\""));
    assert!(json.contains("\"hw_vendor\":\"Software\""));
    assert!(json.contains("\"working\":true"));
}

#[test]
fn health_response_serialises() {
    let r = HealthResponse { ok: true, uptime_secs: 42, active_sessions: 3 };
    let mut map = serde_json::Map::new();
    map.insert("ok".to_string(), Value::from(r.ok));
    map.insert("uptime_secs".to_string(), Value::from(r.uptime_secs));
    map.insert("active_sessions".to_string(), Value::from(r.active_sessions));
    let json = serde_json::to_string(&Value::Object(map)).expect("serialises");
    assert!(json.contains("\"ok\":true"));
    assert!(json.contains("\"uptime_secs\":42"));
    assert!(json.contains("\"active_sessions\":3"));
}

#[test]
fn counters_follow_what_happens() {
    let mut d = Diagnostics::new("libx264".to_string());
    d.session_opened();
    d.session_opened();
    d.session_closed();
    d.encoder_started();
    d.frame_sent(1000);
    d.frame_sent(24);
    d.message_sent(6);
    d.deltas_dropped(3);
    d.observe_fps(90, 30);
    let s = d.snapshot(17);
    assert_eq!(s.uptime_secs, 17);
    assert_eq!((s.active_sessions, s.total_sessions), (1, 2));
    assert_eq!(s.encoder_restarts, 1);
    assert_eq!((s.frames_sent, s.bytes_sent), (2, 1030));
    assert_eq!(s.dropped_intermediate_deltas, 3);
    assert_eq!(s.current_fps, 60);
    d.observe_fps(10, 30);
    assert_eq!(d.current_fps, 0);
    let h = HealthResponse::from_snapshot(&s);
    assert_eq!(h, HealthResponse { ok: true, uptime_secs: 17, active_sessions: 1 });
}

#[test]
fn every_codec_and_vendor_has_a_label() {
    let label = |codec: CodecKind, hw_vendor: HwVendor| {
        let cap = EncoderCapability {
            name: "x".to_string(),
            codec,
            hw_vendor,
            working: false,
            reason: Some("no gpu".to_string()),
        };
        let r = EncoderResponse::from_capability(&cap);
        assert_eq!(r.reason.as_deref(), Some("no gpu"));
        assert!(!r.working);
        (r.codec, r.hw_vendor)
    };
    assert_eq!(label(CodecKind::H264, HwVendor::Amd), ("H264".to_string(), "Amd".to_string()));
    assert_eq!(
        label(CodecKind::Hevc, HwVendor::Nvidia),
        ("Hevc".to_string(), "Nvidia".to_string())
    );
    assert_eq!(label(CodecKind::Av1, HwVendor::Intel), ("Av1".to_string(), "Intel".to_string()));
    assert_eq!(label(CodecKind::Av1, HwVendor::Microsoft).1, "Microsoft");
    assert_eq!(label(CodecKind::Av1, HwVendor::Other).1, "Other");
}
