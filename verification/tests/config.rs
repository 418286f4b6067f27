//! The configuration file and the settings that follow from it.

use remote_desktop::config::{
    AppConfig, AudioSection, AuthConfig, CaptureBackendKind, CaptureSection, EmptyCredentials,
    EncoderProfile, EncoderSection, LoggingSection, Overrides, ServerSection, SettingsError,
};
use remote_desktop::config::{picks_encoder, resolve};
use remote_desktop::encoder::{Chroma, CodecKind};

fn text(t: Option<&toml::Table>, key: &str) -> Option<String> {
    t.and_then(|t| t.get(key)).and_then(|v| v.as_str()).map(str::to_string)
}

fn number(t: Option<&toml::Table>, key: &str) -> Option<i64> {
    t.and_then(|t| t.get(key)).and_then(|v| v.as_integer())
}

fn parse(s: &str) -> AppConfig {
    let root: toml::Table = s.parse().expect("must parse");
    let section = |name: &str| root.get(name).and_then(|v| v.as_table());
    let auth = section("auth");
    let server = section("server");
    let capture = section("capture");
    let encoder = section("encoder");
    let audio = section("audio");
    let logging = section("logging");
    let mut cfg = AppConfig {
        auth: AuthConfig {
            username: text(auth, "username").expect("username"),
            password: text(auth, "password").expect("password"),
        },
        audio_device: text(Some(&root), "audio_device"),
        server: ServerSection {
            host: text(server, "host"),
            port: number(server, "port").map(|n| n as u16),
            static_dir: text(server, "static_dir"),
        },
        capture: CaptureSection {
            default_monitor: number(capture, "default_monitor").map(|n| n as u8),
            capture_backend: text(capture, "capture_backend"),
        },
        encoder: EncoderSection::default(),
        audio: AudioSection {
            default_device: text(audio, "default_device"),
            sample_rate: number(audio, "sample_rate").map(|n| n as u32),
            channels: number(audio, "channels").map(|n| n as u8),
        },
        logging: LoggingSection {
            level: text(logging, "level"),
            file: text(logging, "file"),
        },
    };
    cfg.encoder.default_profile = text(encoder, "default_profile");
    if let Some(b) = encoder.and_then(|e| e.get("auto_select")).and_then(|v| v.as_bool()) {
        cfg.encoder.auto_select = b;
    }
    if let Some(profiles) = encoder.and_then(|e| e.get("profiles")).and_then(|v| v.as_table()) {
        for (name, p) in profiles {
            let p = p.as_table();
            cfg.encoder.insert_profile(
                name.clone(),
                EncoderProfile {
                    encoder: text(p, "encoder"),
                    codec: text(p, "codec"),
                    fps: number(p, "fps").map(|n| n as u32),
                    quality: number(p, "quality").map(|n| n as u8),
                    bitrate_kbps: number(p, "bitrate_kbps").map(|n| n as u32),
                    slices: number(p, "slices").map(|n| n as u32),
                    chroma: text(p, "chroma"),
                },
            );
        }
    }
    cfg
}

#[test]
fn legacy_minimal_auth_only_config_still_parses() {
    let cfg = parse(r#"
        [auth]
        username = "alice"
        password = "secret"
    "#);
    assert_eq!(cfg.auth.username, "alice");
    assert!(cfg.audio_device.is_none());
    assert!(cfg.server.host.is_none());
    assert!(cfg.encoder.profiles.is_empty());
    assert!(cfg.encoder.auto_select); // defaults to true
    assert_eq!(cfg.capture.backend_kind(), CaptureBackendKind::Scrap);
}

#[test]
fn legacy_top_level_audio_device_still_parses() {
    let cfg = parse(r#"
        audio_device = "Speakers (Realtek)"

        [auth]
        username = "u"
        password = "p"
    "#);
    assert_eq!(cfg.audio_device.as_deref(), Some("Speakers (Realtek)"));
}

#[test]
fn full_config_parses_all_sections() {
    let cfg = parse(r#"
        [auth]
        username = "u"
        password = "p"

        [server]
        host = "127.0.0.1"
        port = 8443
        static_dir = "./static"

        [capture]
        default_monitor = 1
        capture_backend = "wgc"

        [encoder]
        default_profile = "gaming"
        auto_select = false

        [encoder.profiles.gaming]
        encoder = "h264_amf"
        codec = "h264"
        fps = 60
        quality = 18
        bitrate_kbps = 12000
        slices = 4
        chroma = "420"

        [encoder.profiles.office]
        encoder = "libx264"
        fps = 30
        quality = 24

        [audio]
        default_device = "default"
        sample_rate = 48000
        channels = 2

        [logging]
        level = "debug"
        file = "/tmp/srv.log"
    "#);

    assert_eq!(cfg.server.host.as_deref(), Some("127.0.0.1"));
    assert_eq!(cfg.server.port, Some(8443));
    assert_eq!(cfg.capture.default_monitor, Some(1));
    assert_eq!(cfg.capture.backend_kind(), CaptureBackendKind::Wgc);

    assert_eq!(cfg.encoder.default_profile.as_deref(), Some("gaming"));
    assert!(!cfg.encoder.auto_select);
    assert_eq!(cfg.encoder.profiles.len(), 2);

    let gaming = cfg.profile(Some("gaming")).expect("gaming present");
    assert_eq!(gaming.encoder.as_deref(), Some("h264_amf"));
    assert_eq!(gaming.fps, Some(60));
    assert_eq!(gaming.quality, Some(18));
    assert_eq!(gaming.bitrate_kbps, Some(12000));
    assert_eq!(gaming.slices, Some(4));
    assert_eq!(gaming.chroma.as_deref(), Some("420"));

    let office = cfg.profile(Some("office")).expect("office present");
    assert_eq!(office.encoder.as_deref(), Some("libx264"));
    assert_eq!(office.fps, Some(30));

    assert_eq!(cfg.audio.default_device.as_deref(), Some("default"));
    assert_eq!(cfg.audio.sample_rate, Some(48000));
    assert_eq!(cfg.audio.channels, Some(2));

    assert_eq!(cfg.logging.level.as_deref(), Some("debug"));
    assert_eq!(cfg.logging.file.as_deref(), Some("/tmp/srv.log"));
}

#[test]
fn profile_lookup_uses_default_when_no_name_given() {
    let cfg = parse(r#"
        [auth]
        username = "u"
        password = "p"

        [encoder]
        default_profile = "office"

        [encoder.profiles.office]
        encoder = "libx264"
    "#);
    let p = cfg.profile(None).expect("default profile resolves");
    assert_eq!(p.encoder.as_deref(), Some("libx264"));
}

#[test]
fn profile_lookup_returns_none_for_unknown_profile() {
    let cfg = parse(r#"
        [auth]
        username = "u"
        password = "p"
    "#);
    assert!(cfg.profile(Some("missing")).is_none());
    assert!(cfg.profile(None).is_none());
}

#[test]
fn capture_backend_unknown_value_falls_back_to_scrap() {
    let cfg = parse(r#"
        [auth]
        username = "u"
        password = "p"

        [capture]
        capture_backend = "magic"
    "#);
    assert_eq!(cfg.capture.backend_kind(), CaptureBackendKind::Scrap);
}

fn nothing() -> Overrides {
    Overrides {
        encoder: None,
        codec: None,
        chroma: None,
        fps: None,
        quality: None,
        slices: None,
        bitrate_kbps: None,
        profile: None,
        audio_device: None,
    }
}

fn with_profiles() -> AppConfig {
    let mut cfg = AppConfig::default();
    cfg.encoder.insert_profile(
        "office".to_string(),
        EncoderProfile { encoder: Some("libx264".to_string()), ..EncoderProfile::default() },
    );
    cfg.encoder.insert_profile(
        "gaming".to_string(),
        EncoderProfile {
            encoder: Some("hevc_nvenc".to_string()),
            fps: Some(120),
            quality: Some(18),
            bitrate_kbps: Some(25000),
            slices: Some(4),
            chroma: Some("444".to_string()),
            codec: None,
        },
    );
    cfg
}

#[test]
fn profiles_are_kept_in_the_order_of_their_names() {
    let mut cfg = with_profiles();
    let names: Vec<&str> = cfg.encoder.profiles.iter().map(|p| p.name.as_str()).collect();
    assert_eq!(names, ["gaming", "office"]);
    // A second profile of the same name takes the place of the first.
    cfg.encoder.insert_profile(
        "office".to_string(),
        EncoderProfile { fps: Some(30), ..EncoderProfile::default() },
    );
    assert_eq!(cfg.encoder.profiles.len(), 2);
    let office = cfg.profile(Some("office")).unwrap();
    assert_eq!(office.fps, Some(30));
    assert!(office.encoder.is_none());
}

#[test]
fn defaults_apply_without_a_profile() {
    let s = resolve(&nothing(), &AppConfig::default(), None).unwrap();
    assert_eq!(s.encoder, "h264_amf");
    assert_eq!(s.codec, CodecKind::H264);
    assert_eq!(s.chroma, Chroma::Yuv420);
    assert_eq!((s.fps, s.quality, s.slices), (60, 20, 1));
    assert_eq!(s.bitrate_kbps, None);
    assert!(s.audio_device.is_none());
}

#[test]
fn profile_values_come_before_defaults() {
    let mut cfg = with_profiles();
    cfg.encoder.default_profile = Some("gaming".to_string());
    let s = resolve(&nothing(), &cfg, Some("libx264")).unwrap();
    assert_eq!(s.encoder, "hevc_nvenc");
    assert_eq!(s.codec, CodecKind::Hevc);
    assert_eq!(s.chroma, Chroma::Yuv444);
    assert_eq!((s.fps, s.quality, s.slices), (120, 18, 4));
    assert_eq!(s.bitrate_kbps, Some(25000));
}

#[test]
fn command_line_wins_over_the_profile() {
    let cfg = with_profiles();
    let mut o = nothing();
    o.profile = Some("gaming".to_string());
    o.encoder = Some("libsvtav1".to_string());
    o.fps = Some(30);
    o.quality = Some(40);
    o.slices = Some(2);
    o.bitrate_kbps = Some(8000);
    o.chroma = Some("420".to_string());
    o.audio_device = Some("default".to_string());
    let s = resolve(&o, &cfg, None).unwrap();
    assert_eq!(s.encoder, "libsvtav1");
    assert_eq!(s.codec, CodecKind::Av1);
    assert_eq!(s.chroma, Chroma::Yuv420);
    assert_eq!((s.fps, s.quality, s.slices), (30, 40, 2));
    assert_eq!(s.bitrate_kbps, Some(8000));
    assert_eq!(s.audio_device.as_deref(), Some("default"));
}

#[test]
fn the_probe_picks_where_nobody_names_an_encoder() {
    let mut cfg = with_profiles();
    assert!(picks_encoder(&nothing(), &cfg));
    assert_eq!(resolve(&nothing(), &cfg, Some("av1_nvenc")).unwrap().encoder, "av1_nvenc");
    assert_eq!(resolve(&nothing(), &cfg, Some("av1_nvenc")).unwrap().codec, CodecKind::Av1);
    let mut o = nothing();
    o.encoder = Some("libx265".to_string());
    assert!(!picks_encoder(&o, &cfg));
    cfg.encoder.default_profile = Some("office".to_string());
    assert!(!picks_encoder(&nothing(), &cfg));
    cfg.encoder.default_profile = None;
    cfg.encoder.auto_select = false;
    assert!(!picks_encoder(&nothing(), &cfg));
    assert_eq!(resolve(&nothing(), &cfg, Some("av1_nvenc")).unwrap().encoder, "h264_amf");
}

#[test]
fn bad_settings_are_named() {
    let cfg = with_profiles();
    let mut o = nothing();
    o.profile = Some("missing".to_string());
    let e = resolve(&o, &cfg, None).unwrap_err();
    assert!(matches!(&e, SettingsError::UnknownProfile { name } if name == "missing"));
    assert!(e.message().contains("missing"));

    let mut o = nothing();
    o.codec = Some("vp9".to_string());
    let e = resolve(&o, &cfg, None).unwrap_err();
    assert!(matches!(&e, SettingsError::UnknownCodec { name } if name == "vp9"));
    assert!(e.message().contains("vp9"));

    let mut o = nothing();
    o.chroma = Some("422".to_string());
    let e = resolve(&o, &cfg, None).unwrap_err();
    assert!(matches!(&e, SettingsError::UnknownChroma { name } if name == "422"));
    assert!(e.message().contains("422"));

    let mut o = nothing();
    o.slices = Some(0);
    let e = resolve(&o, &cfg, None).unwrap_err();
    assert!(matches!(e, SettingsError::ZeroSlices));
    assert!(!e.message().is_empty());
}

#[test]
fn empty_credentials_are_refused() {
    let mut cfg = AppConfig::default();
    let e: EmptyCredentials = AppConfig::load(cfg.clone()).unwrap_err();
    assert!(!e.message().is_empty());
    cfg.auth.username = "alice".to_string();
    assert!(AppConfig::load(cfg.clone()).is_err());
    cfg.auth.password = "secret".to_string();
    assert_eq!(AppConfig::load(cfg).unwrap().auth.username, "alice");
}

#[test]
fn audio_device_of_the_top_level_wins_over_the_section() {
    let mut cfg = AppConfig::default();
    cfg.audio.default_device = Some("section".to_string());
    let s = resolve(&nothing(), &cfg, None).unwrap();
    assert_eq!(s.audio_device.as_deref(), Some("section"));
    cfg.audio_device = Some("top".to_string());
    let s = resolve(&nothing(), &cfg, None).unwrap();
    assert_eq!(s.audio_device.as_deref(), Some("top"));
}
