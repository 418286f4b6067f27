//! From the encoder's byte stream to frames.

use remote_desktop::encoder::splitter::{
    Av1Splitter, FrameSplitter, H264Splitter, HevcSplitter, OBU_FRAME, OBU_SEQUENCE_HEADER,
    OBU_TEMPORAL_DELIMITER,
};
use remote_desktop::encoder::{ffmpeg_stderr_hint, CodecKind, EncodedFrame};

/// Build a minimal Annex-B fragment: AUD (4-byte SC, type 9) +
/// `payload` bytes (the slice should not contain another AUD start).
fn aud_au(payload: &[u8]) -> Vec<u8> {
    let mut v = vec![0x00, 0x00, 0x00, 0x01, 0x09]; // AUD
    v.extend_from_slice(payload);
    v
}

/// Test helper: invoke `splitter.push` and return the access units
/// it appended, instead of having every test plumb its own `Vec`.
fn push_collect(s: &mut dyn FrameSplitter, data: &[u8]) -> Vec<EncodedFrame> {
    let mut out = Vec::new();
    s.push(data, &mut out);
    out
}

#[test]
fn encoder_h264_detects_two_access_units_split_on_aud() {
    let mut det = H264Splitter::new();
    // Two AUs back-to-back: AUD | non-IDR slice (type 1)
    //                     + AUD | IDR slice     (type 5)
    let mut bytes = aud_au(&[0x00, 0x00, 0x01, 0x41, 0xaa]); // type 1 (P/B)
    bytes.extend_from_slice(&aud_au(&[0x00, 0x00, 0x01, 0x65, 0xbb])); // type 5 (IDR)
    // Trailing AUD so the second AU is closed.
    bytes.extend_from_slice(&[0x00, 0x00, 0x00, 0x01, 0x09]);

    let frames = push_collect(&mut det, &bytes);
    assert_eq!(frames.len(), 2);
    assert!(!frames[0].is_keyframe);
    assert!(frames[1].is_keyframe);
    // Each emitted frame must reserve the 10-byte wire header.
    for f in &frames {
        assert!(f.data.len() >= EncodedFrame::HEADER_LEN);
        // Header bytes start out zeroed.
        assert!(f.data[..EncodedFrame::HEADER_LEN].iter().all(|&b| b == 0));
    }
}

#[test]
fn encoder_h264_handles_streaming_chunks_without_losing_data() {
    // Same bytes as above, fed one byte at a time.  Stresses the
    // `drain`-based leftover handling.
    let mut det = H264Splitter::new();
    let mut bytes = aud_au(&[0x00, 0x00, 0x01, 0x41, 0xaa]);
    bytes.extend_from_slice(&aud_au(&[0x00, 0x00, 0x01, 0x65, 0xbb]));
    bytes.extend_from_slice(&[0x00, 0x00, 0x00, 0x01, 0x09]);

    let mut got = Vec::new();
    for b in &bytes {
        got.extend(push_collect(&mut det, std::slice::from_ref(b)));
    }
    assert_eq!(got.len(), 2);
    assert!(!got[0].is_keyframe);
    assert!(got[1].is_keyframe);
}

#[test]
fn encoder_h264_no_aud_means_no_frames_emitted() {
    let mut det = H264Splitter::new();
    let frames = push_collect(&mut det, &[0x00, 0x00, 0x00, 0x01, 0x65, 0xff, 0xff]);
    assert!(frames.is_empty());
}

/// Drives the lazy-compaction path: feed many access units in
/// sequence and verify that the splitter's internal buffer doesn't
/// grow without bound.  Each push leaves only the trailing AUD
/// (5 bytes) plus partial next-frame payload as live data, so after
/// many iterations the live region must remain small.
#[test]
fn encoder_h264_lazy_compaction_keeps_buffer_bounded() {
    let mut det = H264Splitter::new();
    // Build a single AU large enough that the dead-prefix exceeds
    // the live tail and triggers compaction every iteration.
    let mut au = vec![0x00, 0x00, 0x00, 0x01, 0x09]; // AUD
    au.extend_from_slice(&[0x00, 0x00, 0x01, 0x41]); // NAL type 1
    au.extend(std::iter::repeat_n(0xaau8, 4096));    // big payload
    let trailing_aud = [0x00, 0x00, 0x00, 0x01, 0x09];

    // Prime with one open AU.
    push_collect(&mut det, &au);

    // Feed 100 more (closing AUDs) — each push completes the prior
    // AU and starts a new one.  Without compaction the buffer would
    // grow to ~400 KB.
    for _ in 0..100 {
        // Closing AUD for the previous AU + a fresh AU body.
        let mut chunk = trailing_aud.to_vec();
        chunk.extend_from_slice(&au[5..]); // body without leading AUD
        let frames = push_collect(&mut det, &chunk);
        assert_eq!(frames.len(), 1);
    }

    // After 100 iterations the live buffer must be O(one frame),
    // not O(100 frames).  Allow generous headroom.
    assert!(
        det.buffered_bytes() < 16 * 1024,
        "buffer grew unboundedly: {} bytes",
        det.buffered_bytes()
    );
}

/// Build a minimal HEVC AU: AUD (4-byte SC, type 35) + `payload`.
/// The HEVC AUD NAL header byte 0 is `0x46` because `type 35 << 1 = 70 = 0x46`.
fn hevc_aud_au(payload: &[u8]) -> Vec<u8> {
    let mut v = vec![0x00, 0x00, 0x00, 0x01, 0x46, 0x01]; // AUD + 2-byte NAL header
    v.extend_from_slice(payload);
    v
}

#[test]
fn encoder_hevc_detects_two_access_units() {
    let mut det = HevcSplitter::new();
    // Trailing-picture (TRAIL_R, type 1 → byte 0 = 0x02): non-key
    let mut bytes = hevc_aud_au(&[0x00, 0x00, 0x01, 0x02, 0x01, 0xaa]);
    // IDR_W_RADL (type 19 → byte 0 = 0x26): key
    bytes.extend_from_slice(&hevc_aud_au(&[0x00, 0x00, 0x01, 0x26, 0x01, 0xbb]));
    // Trailing AUD so the second AU is closed.
    bytes.extend_from_slice(&[0x00, 0x00, 0x00, 0x01, 0x46, 0x01]);

    let frames = push_collect(&mut det, &bytes);
    assert_eq!(frames.len(), 2);
    assert!(!frames[0].is_keyframe);
    assert!(frames[1].is_keyframe);
}

#[test]
fn encoder_hevc_streamed_one_byte_at_a_time() {
    let mut det = HevcSplitter::new();
    let mut bytes = hevc_aud_au(&[0x00, 0x00, 0x01, 0x02, 0x01, 0xaa]);
    bytes.extend_from_slice(&hevc_aud_au(&[0x00, 0x00, 0x01, 0x26, 0x01, 0xbb]));
    bytes.extend_from_slice(&[0x00, 0x00, 0x00, 0x01, 0x46, 0x01]);

    let mut got = Vec::new();
    for b in &bytes {
        got.extend(push_collect(&mut det, std::slice::from_ref(b)));
    }
    assert_eq!(got.len(), 2);
    assert!(!got[0].is_keyframe);
    assert!(got[1].is_keyframe);
}

/// Build one OBU with size flag set: header byte | LEB128(size) | payload.
fn av1_obu(obu_type: u8, payload: &[u8]) -> Vec<u8> {
    // header = 0_TTTT_0_1_0 (type, no extension, size flag set)
    let header = (obu_type & 0x0F) << 3 | 0x02;
    let mut v = vec![header];
    // LEB128 of payload length (single byte for length < 128).
    assert!(payload.len() < 128, "test helper only handles small OBUs");
    v.push(payload.len() as u8);
    v.extend_from_slice(payload);
    v
}

#[test]
fn encoder_av1_detects_two_access_units() {
    let mut det = Av1Splitter::new();
    let mut bytes = Vec::new();
    // First TU: TD + sequence header + frame
    bytes.extend_from_slice(&av1_obu(OBU_TEMPORAL_DELIMITER, &[]));
    bytes.extend_from_slice(&av1_obu(OBU_SEQUENCE_HEADER, &[0x00, 0x01]));
    bytes.extend_from_slice(&av1_obu(OBU_FRAME, &[0xAA, 0xBB, 0xCC]));
    // Second TU: TD + frame (no SH → not a keyframe)
    bytes.extend_from_slice(&av1_obu(OBU_TEMPORAL_DELIMITER, &[]));
    bytes.extend_from_slice(&av1_obu(OBU_FRAME, &[0xDD, 0xEE]));
    // Third TD so the second TU is closed.
    bytes.extend_from_slice(&av1_obu(OBU_TEMPORAL_DELIMITER, &[]));

    let frames = push_collect(&mut det, &bytes);
    assert_eq!(frames.len(), 2);
    assert!(frames[0].is_keyframe, "TU containing a Sequence Header must be flagged as keyframe");
    assert!(!frames[1].is_keyframe);
    for f in &frames {
        assert!(f.data.len() >= EncodedFrame::HEADER_LEN);
    }
}

#[test]
fn encoder_av1_streamed_one_byte_at_a_time() {
    let mut det = Av1Splitter::new();
    let mut bytes = Vec::new();
    bytes.extend_from_slice(&av1_obu(OBU_TEMPORAL_DELIMITER, &[]));
    bytes.extend_from_slice(&av1_obu(OBU_SEQUENCE_HEADER, &[0x00, 0x01]));
    bytes.extend_from_slice(&av1_obu(OBU_FRAME, &[0xAA, 0xBB]));
    bytes.extend_from_slice(&av1_obu(OBU_TEMPORAL_DELIMITER, &[]));
    bytes.extend_from_slice(&av1_obu(OBU_FRAME, &[0xCC]));
    bytes.extend_from_slice(&av1_obu(OBU_TEMPORAL_DELIMITER, &[]));

    let mut got = Vec::new();
    for b in &bytes {
        got.extend(push_collect(&mut det, std::slice::from_ref(b)));
    }
    assert_eq!(got.len(), 2);
    assert!(got[0].is_keyframe);
    assert!(!got[1].is_keyframe);
}

#[test]
fn encoder_codec_kind_auto_detection() {
    assert_eq!(CodecKind::from_encoder_name("h264_amf"), CodecKind::H264);
    assert_eq!(CodecKind::from_encoder_name("libx264"), CodecKind::H264);
    assert_eq!(CodecKind::from_encoder_name("hevc_amf"), CodecKind::Hevc);
    assert_eq!(CodecKind::from_encoder_name("h265_nvenc"), CodecKind::Hevc);
    assert_eq!(CodecKind::from_encoder_name("libx265"), CodecKind::Hevc);
    assert_eq!(CodecKind::from_encoder_name("av1_amf"), CodecKind::Av1);
    assert_eq!(CodecKind::from_encoder_name("libsvtav1"), CodecKind::Av1);
    assert_eq!(CodecKind::from_encoder_name("libaom-av1"), CodecKind::Av1);
    assert_eq!(CodecKind::from_encoder_name("unknown"), CodecKind::H264); // safe default
}

#[test]
fn encoder_codec_kind_protocol_id_stable() {
    assert_eq!(CodecKind::H264.protocol_id(), 0);
    assert_eq!(CodecKind::Hevc.protocol_id(), 1);
    assert_eq!(CodecKind::Av1.protocol_id(), 2);
}

#[test]
fn encoder_ffmpeg_stderr_hint_detects_av1_amf_unsupported() {
    // The exact line emitted by FFmpeg when the GPU/driver lacks
    // an AV1 hardware encoder, captured from a real run on a
    // pre-RDNA3 AMD card.
    let line = "[av1_amf @ 000002b2687ee4c0] CreateComponent(AMFVideoEncoderHW_AV1) \
                failed with error 30";
    let hint = ffmpeg_stderr_hint(line).expect("must produce a hint");
    assert!(hint.contains("RDNA3"), "hint should mention HW requirement");
    assert!(hint.contains("--encoder"), "hint should suggest a switch");
}

#[test]
fn encoder_ffmpeg_stderr_hint_detects_hevc_metadata_missing_vps() {
    let line = "[hevc_metadata @ 000001cb4bc0c040] VPS id 0 not available.";
    assert!(ffmpeg_stderr_hint(line).is_some());
}

#[test]
fn encoder_ffmpeg_stderr_hint_ignores_normal_progress_lines() {
    for line in [
        "frame=  120 fps= 60 q=20.0 size=     128KiB time=00:00:02.00",
        "Stream #0:0: Video: hevc_amf, 2560x1440, 60 fps",
        "",
    ] {
        assert!(
            ffmpeg_stderr_hint(line).is_none(),
            "must not flag noise: {line:?}",
        );
    }
}

#[test]
fn encoder_av1_leb128_round_trip_small_and_multi_byte() {
    // single-byte values (0..=127)
    assert_eq!(Av1Splitter::read_leb128(&[0x00]), Some((0, 1)));
    assert_eq!(Av1Splitter::read_leb128(&[0x7F]), Some((127, 1)));
    // two-byte: 200 = 11001000 → encoded LSB-first 7-bit groups
    // 200 = 0b1100_1000 → group0 = 0b1001000 (0x48) | 0x80, group1 = 0b0000001 (0x01)
    assert_eq!(Av1Splitter::read_leb128(&[0xC8, 0x01]), Some((200, 2)));
}
