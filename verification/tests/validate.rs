//! Which encoder settings are accepted.

use remote_desktop::encoder::validate::{validate, ValidationError};
use remote_desktop::encoder::{Chroma, CodecKind, EncoderConfig};

fn cfg(encoder: &str) -> EncoderConfig {
    EncoderConfig {
        width: 1920,
        height: 1080,
        fps: 60,
        quality: 20,
        encoder_name: encoder.to_string(),
        codec: CodecKind::from_encoder_name(encoder),
        chroma: Chroma::Yuv420,
        slices: 1,
        bitrate_kbps: None,
    }
}

#[test]
fn validate_accepts_default_config() {
    for enc in ["h264_amf", "hevc_amf", "av1_amf", "h264_nvenc",
                "hevc_nvenc", "av1_nvenc", "h264_qsv", "hevc_qsv",
                "av1_qsv", "h264_mf", "hevc_mf", "libx264", "libx265",
                "libsvtav1", "libaom-av1"] {
        let mut c = cfg(enc);
        // Media Foundation uses 0..100 instead of 0..51 — quality 20 is
        // valid in both.
        c.quality = 20;
        assert!(validate(&c).is_ok(), "encoder {enc} rejected default config: {:?}", validate(&c));
    }
}

#[test]
fn validate_rejects_zero_resolution() {
    let mut c = cfg("libx264");
    c.width = 0;
    assert_eq!(validate(&c), Err(ValidationError::ZeroResolution));
    c.width = 1920;
    c.height = 0;
    assert_eq!(validate(&c), Err(ValidationError::ZeroResolution));
}

#[test]
fn validate_rejects_fps_zero() {
    let mut c = cfg("libx264");
    c.fps = 0;
    assert_eq!(validate(&c), Err(ValidationError::FpsZero));
}

#[test]
fn validate_rejects_bitrate_zero() {
    let mut c = cfg("libx264");
    c.bitrate_kbps = Some(0);
    assert_eq!(validate(&c), Err(ValidationError::BitrateZero));
}

#[test]
fn validate_rejects_yuv444_on_av1_amf() {
    let mut c = cfg("av1_amf");
    c.chroma = Chroma::Yuv444;
    match validate(&c) {
        Err(ValidationError::ChromaUnsupported { .. }) => {}
        other => panic!("expected ChromaUnsupported, got {other:?}"),
    }
}

#[test]
fn validate_rejects_slices_on_av1_amf() {
    let mut c = cfg("av1_amf");
    c.slices = 4;
    match validate(&c) {
        Err(ValidationError::SlicesUnsupported { .. }) => {}
        other => panic!("expected SlicesUnsupported, got {other:?}"),
    }
}

#[test]
fn validate_rejects_quality_above_max_for_h264() {
    let mut c = cfg("libx264");
    c.quality = 60; // out of [0, 51]
    match validate(&c) {
        Err(ValidationError::QualityOutOfRange { value: 60, max: 51, .. }) => {}
        other => panic!("expected QualityOutOfRange, got {other:?}"),
    }
}

#[test]
fn validate_accepts_quality_in_range_for_av1() {
    let mut c = cfg("libsvtav1");
    c.quality = 60; // valid for AV1 (0..63)
    assert!(validate(&c).is_ok());
}

#[test]
fn unknown_encoder_uses_permissive_defaults() {
    let c = cfg("magic_new_encoder");
    assert!(validate(&c).is_ok());
}

#[test]
fn problems_are_put_into_words() {
    let mut c = cfg("libx264");
    c.quality = 60;
    assert_eq!(
        validate(&c).unwrap_err().message(),
        "quality=60 is outside libx264's range [0, 51]"
    );
    let mut c = cfg("av1_amf");
    c.chroma = Chroma::Yuv444;
    assert_eq!(
        validate(&c).unwrap_err().message(),
        "encoder av1_amf does not support 4:4:4 chroma"
    );
    let mut c = cfg("av1_amf");
    c.slices = 2;
    assert_eq!(
        validate(&c).unwrap_err().message(),
        "encoder av1_amf ignores --slices > 1"
    );
    assert_eq!(ValidationError::BitrateZero.message(), "--bitrate-kbps must be > 0 when set");
    assert_eq!(ValidationError::FpsZero.message(), "fps must be > 0");
    assert_eq!(ValidationError::ZeroResolution.message(), "width and height must both be > 0");
}
