//! The encoder's settings and command line.

use remote_desktop::encoder::backends::{
    is_hw_encoder, lookup, BackendCaps, HwVendor, RcArgs, KNOWN_ENCODERS,
};
use remote_desktop::encoder::validate::ValidationError;
use remote_desktop::encoder::{
    ffmpeg_stderr_hint, Chroma, CodecKind, CodecSplitter, EncodedFrame, EncoderConfig,
    EncoderReader, FfmpegEncoder, HINT_NVENC,
};

fn cfg(encoder: &str) -> EncoderConfig {
    EncoderConfig {
        width: 1920,
        height: 1080,
        fps: 60,
        quality: 20,
        encoder_name: encoder.to_string(),
        codec: CodecKind::from_encoder_name(encoder),
        chroma: Chroma::Yuv420,
        slices: 1,
        bitrate_kbps: None,
    }
}

#[test]
fn mod_codec_kind_auto_detection() {
    assert_eq!(CodecKind::from_encoder_name("h264_amf"), CodecKind::H264);
    assert_eq!(CodecKind::from_encoder_name("libx264"), CodecKind::H264);
    assert_eq!(CodecKind::from_encoder_name("hevc_amf"), CodecKind::Hevc);
    assert_eq!(CodecKind::from_encoder_name("h265_nvenc"), CodecKind::Hevc);
    assert_eq!(CodecKind::from_encoder_name("libx265"), CodecKind::Hevc);
    assert_eq!(CodecKind::from_encoder_name("av1_amf"), CodecKind::Av1);
    assert_eq!(CodecKind::from_encoder_name("libsvtav1"), CodecKind::Av1);
    assert_eq!(CodecKind::from_encoder_name("libaom-av1"), CodecKind::Av1);
    assert_eq!(CodecKind::from_encoder_name("unknown"), CodecKind::H264);
}

#[test]
fn mod_codec_kind_protocol_id_stable() {
    assert_eq!(CodecKind::H264.protocol_id(), 0);
    assert_eq!(CodecKind::Hevc.protocol_id(), 1);
    assert_eq!(CodecKind::Av1.protocol_id(), 2);
}

#[test]
fn mod_ffmpeg_stderr_hint_detects_av1_amf_unsupported() {
    let line = "[av1_amf @ 000002b2687ee4c0] CreateComponent(AMFVideoEncoderHW_AV1) \
                failed with error 30";
    let hint = ffmpeg_stderr_hint(line).expect("must produce a hint");
    assert!(hint.contains("RDNA3"));
    assert!(hint.contains("--encoder"));
}

#[test]
fn mod_ffmpeg_stderr_hint_detects_hevc_metadata_missing_vps() {
    let line = "[hevc_metadata @ 000001cb4bc0c040] VPS id 0 not available.";
    assert!(ffmpeg_stderr_hint(line).is_some());
}

#[test]
fn mod_ffmpeg_stderr_hint_ignores_normal_progress_lines() {
    for line in [
        "frame=  120 fps= 60 q=20.0 size=     128KiB time=00:00:02.00",
        "Stream #0:0: Video: hevc_amf, 2560x1440, 60 fps",
        "",
    ] {
        assert!(
            ffmpeg_stderr_hint(line).is_none(),
            "must not flag noise: {line:?}",
        );
    }
}

#[test]
fn build_command_h264_amf_has_forced_idr_and_high_profile_for_yuv444() {
    let mut c = cfg("h264_amf");
    c.chroma = Chroma::Yuv444;
    let cmd = FfmpegEncoder::build_command(&c);
    let args = cmd;
    assert!(args.iter().any(|a| a == "h264_amf"));
    assert!(args.windows(2).any(|w| w == ["-forced_idr", "1"]));
    assert!(args.windows(2).any(|w| w == ["-profile:v", "high"]));
    assert!(args.windows(2).any(|w| w == ["-pix_fmt", "yuv444p"]));
}

#[test]
fn build_command_libx264_has_color_tags_but_h264_amf_does_not() {
    let cmd_sw = FfmpegEncoder::build_command(&cfg("libx264"));
    let args_sw = cmd_sw;
    assert!(args_sw.windows(2).any(|w| w == ["-colorspace", "bt709"]));

    let cmd_hw = FfmpegEncoder::build_command(&cfg("h264_amf"));
    let args_hw = cmd_hw;
    assert!(!args_hw.windows(2).any(|w| w == ["-colorspace", "bt709"]));
}

#[test]
fn build_command_hevc_uses_dump_extra_bsf_chain() {
    let cmd = FfmpegEncoder::build_command(&cfg("hevc_amf"));
    let args = cmd;
    let bsf = args
        .windows(2)
        .find(|w| w[0] == "-bsf:v")
        .map(|w| w[1].clone())
        .expect("must set -bsf:v");
    assert!(bsf.starts_with("dump_extra=freq=keyframe"));
    assert!(bsf.contains("hevc_metadata=aud=insert"));
}

#[test]
fn build_command_av1_uses_obu_container() {
    let cmd = FfmpegEncoder::build_command(&cfg("av1_amf"));
    let args = cmd;
    assert!(args.windows(2).any(|w| w == ["-f", "obu"]));
}

#[test]
fn build_command_bitrate_overrides_quality_for_amf() {
    let mut c = cfg("h264_amf");
    c.bitrate_kbps = Some(8000);
    let args = FfmpegEncoder::build_command(&c);
    assert!(args.windows(2).any(|w| w == ["-rc", "cbr"]));
    assert!(args.windows(2).any(|w| w == ["-b:v", "8000k"]));
    assert!(args.windows(2).any(|w| w == ["-maxrate", "8000k"]));
}

#[test]
fn build_command_quality_mode_uses_qp_for_amf() {
    let cmd = FfmpegEncoder::build_command(&cfg("h264_amf"));
    let args = cmd;
    assert!(args.windows(2).any(|w| w == ["-rc", "cqp"]));
    assert!(args.windows(2).any(|w| w == ["-qp_i", "20"]));
    assert!(args.windows(2).any(|w| w == ["-qp_p", "20"]));
}

#[test]
fn every_known_encoder_has_a_backend() {
    for name in KNOWN_ENCODERS {
        let b = lookup(name).expect(name);
        assert_eq!(b.name, name);
        assert_eq!(
            is_hw_encoder(name),
            matches!(b.caps.vendor, HwVendor::Amd | HwVendor::Nvidia | HwVendor::Intel)
        );
        let args = FfmpegEncoder::build_command(&cfg(name));
        assert!(args.windows(2).any(|w| w[0] == "-c:v" && w[1] == name));
        assert_eq!(args.last().map(String::as_str), Some("pipe:1"));
    }
    assert!(lookup("magic_new_encoder").is_none());
    assert_eq!(BackendCaps::unknown().vendor, HwVendor::Other);
}

#[test]
fn rate_control_values_are_spelled_out() {
    let mut c = cfg("libx264");
    c.bitrate_kbps = Some(6000);
    c.slices = 4;
    let rc = RcArgs::from_config(&c);
    assert_eq!((rc.quality.as_str(), rc.slices.as_str(), rc.want_slices), ("20", "4", true));
    assert_eq!(rc.bitrate_arg.as_deref(), Some("6000k"));
    // One frame of the stream, in bits.
    assert_eq!(rc.vbv_buf_arg.as_deref(), Some("100000"));
    let rc = RcArgs::from_config(&cfg("libx264"));
    assert!(!rc.want_slices && rc.bitrate_arg.is_none() && rc.vbv_buf_arg.is_none());
}

#[test]
fn the_command_starts_with_the_input() {
    let args = FfmpegEncoder::build_command(&cfg("libx264"));
    assert_eq!(
        args[..13],
        ["-hide_banner", "-loglevel", "error", "-f", "rawvideo", "-pix_fmt", "bgra",
            "-video_size", "1920x1080", "-framerate", "60", "-i", "pipe:0"]
    );
}

#[test]
fn an_encoder_is_made_of_valid_settings_only() {
    let mut c = cfg("libx264");
    let e = FfmpegEncoder::new(&c).unwrap_or_else(|e| panic!("{}", e.message()));
    assert_eq!(e.codec(), CodecKind::H264);
    assert_eq!(*e.args(), FfmpegEncoder::build_command(&c));
    c.fps = 0;
    assert_eq!(FfmpegEncoder::new(&c).err(), Some(ValidationError::FpsZero));
}

#[test]
fn the_newest_frame_wins() {
    let mut e = match FfmpegEncoder::new(&cfg("libx264")) {
        Ok(e) => e,
        Err(e) => panic!("{}", e.message()),
    };
    assert!(e.take_frame().is_none());
    assert!(e.send_frame(&[1, 1]).is_ok());
    assert!(e.send_frame(&[2, 2, 2]).is_ok());
    assert_eq!(e.take_frame(), Some(vec![2, 2, 2]));
    assert!(e.take_frame().is_none());
    e.stop();
    let stopped = e.send_frame(&[3]).unwrap_err();
    assert!(!stopped.message().is_empty());
}

#[test]
fn the_reader_counts_bytes_and_frames() {
    let aud = [0u8, 0, 0, 1, 0x09];
    let mut bytes = aud.to_vec();
    bytes.extend_from_slice(&[0, 0, 1, 0x65, 0xAA]);
    bytes.extend_from_slice(&aud);
    let mut r = EncoderReader::new(CodecKind::H264);
    let mut frames: Vec<EncodedFrame> = Vec::new();
    r.on_read(&bytes, 77, &mut frames);
    assert_eq!(frames.len(), 1);
    for f in &frames {
        r.on_frame(f.is_keyframe);
    }
    let s = r.snapshot();
    assert_eq!((s.bytes_read, s.frames_out, s.keys_out), (15, 1, 1));
    assert_eq!(s.last_read_us, 77);
    assert_eq!(r.buffered_bytes(), 5);
}

#[test]
fn each_codec_has_its_splitter() {
    assert!(matches!(CodecSplitter::new(CodecKind::H264), CodecSplitter::H264(_)));
    assert!(matches!(CodecSplitter::new(CodecKind::Hevc), CodecSplitter::Hevc(_)));
    assert!(matches!(CodecSplitter::new(CodecKind::Av1), CodecSplitter::Av1(_)));
}

#[test]
fn nvenc_failures_have_a_hint() {
    for line in [
        "[h264_nvenc @ 0x1] Cannot load nvEncodeAPI64.dll",
        "[av1_nvenc @ 0x1] OpenEncodeSessionEx failed: unsupported device (2)",
    ] {
        assert_eq!(ffmpeg_stderr_hint(line), Some(HINT_NVENC));
    }
    assert!(HINT_NVENC.contains("RTX 4000+"));
}

#[test]
fn a_bitrate_takes_the_place_of_the_quality() {
    for name in KNOWN_ENCODERS {
        let mut c = cfg(name);
        let mut d = cfg(name);
        c.quality = 10;
        d.quality = 40;
        assert_ne!(FfmpegEncoder::build_command(&c), FfmpegEncoder::build_command(&d));
        c.bitrate_kbps = Some(5000);
        d.bitrate_kbps = Some(5000);
        assert_eq!(FfmpegEncoder::build_command(&c), FfmpegEncoder::build_command(&d));
    }
}

#[test]
fn slices_are_asked_for_when_there_are_several() {
    for name in KNOWN_ENCODERS {
        let mut c = cfg(name);
        let one = FfmpegEncoder::build_command(&c);
        assert!(!one.iter().any(|a| a == "-slices" || a.starts_with("slices=")));
        c.slices = 0;
        assert_eq!(FfmpegEncoder::build_command(&c), one);
    }
    let mut c = cfg("h264_nvenc");
    c.slices = 4;
    assert!(FfmpegEncoder::build_command(&c).windows(2).any(|w| w == ["-slices", "4"]));
    c = cfg("libx265");
    c.slices = 4;
    assert!(FfmpegEncoder::build_command(&c).windows(2).any(|w| w == ["-x265-params", "slices=4"]));
}
