//! The frame splitters, on well-formed streams and on noise.

use remote_desktop::encoder::splitter::{
    Av1Splitter, FrameSplitter, H264Splitter, HevcSplitter, OBU_FRAME, OBU_SEQUENCE_HEADER,
    OBU_TEMPORAL_DELIMITER,
};
use remote_desktop::encoder::EncodedFrame;

fn aud_au(payload: &[u8]) -> Vec<u8> {
    let mut v = vec![0x00, 0x00, 0x00, 0x01, 0x09]; // AUD
    v.extend_from_slice(payload);
    v
}

fn push_collect(s: &mut dyn FrameSplitter, data: &[u8]) -> Vec<EncodedFrame> {
    let mut out = Vec::new();
    s.push(data, &mut out);
    out
}

#[test]
fn splitter_h264_detects_two_access_units_split_on_aud() {
    let mut det = H264Splitter::new();
    let mut bytes = aud_au(&[0x00, 0x00, 0x01, 0x41, 0xaa]); // type 1 (P/B)
    bytes.extend_from_slice(&aud_au(&[0x00, 0x00, 0x01, 0x65, 0xbb])); // type 5 (IDR)
    bytes.extend_from_slice(&[0x00, 0x00, 0x00, 0x01, 0x09]);

    let frames = push_collect(&mut det, &bytes);
    assert_eq!(frames.len(), 2);
    assert!(!frames[0].is_keyframe);
    assert!(frames[1].is_keyframe);
    for f in &frames {
        assert!(f.data.len() >= EncodedFrame::HEADER_LEN);
        assert!(f.data[..EncodedFrame::HEADER_LEN].iter().all(|&b| b == 0));
    }
}

#[test]
fn splitter_h264_handles_streaming_chunks_without_losing_data() {
    let mut det = H264Splitter::new();
    let mut bytes = aud_au(&[0x00, 0x00, 0x01, 0x41, 0xaa]);
    bytes.extend_from_slice(&aud_au(&[0x00, 0x00, 0x01, 0x65, 0xbb]));
    bytes.extend_from_slice(&[0x00, 0x00, 0x00, 0x01, 0x09]);

    let mut got = Vec::new();
    for b in &bytes {
        got.extend(push_collect(&mut det, std::slice::from_ref(b)));
    }
    assert_eq!(got.len(), 2);
    assert!(!got[0].is_keyframe);
    assert!(got[1].is_keyframe);
}

#[test]
fn splitter_h264_no_aud_means_no_frames_emitted() {
    let mut det = H264Splitter::new();
    let frames = push_collect(&mut det, &[0x00, 0x00, 0x00, 0x01, 0x65, 0xff, 0xff]);
    assert!(frames.is_empty());
}

#[test]
fn splitter_h264_lazy_compaction_keeps_buffer_bounded() {
    let mut det = H264Splitter::new();
    let mut au = vec![0x00, 0x00, 0x00, 0x01, 0x09]; // AUD
    au.extend_from_slice(&[0x00, 0x00, 0x01, 0x41]); // NAL type 1
    au.extend(std::iter::repeat_n(0xaau8, 4096));    // big payload
    let trailing_aud = [0x00, 0x00, 0x00, 0x01, 0x09];

    push_collect(&mut det, &au);

    for _ in 0..100 {
        let mut chunk = trailing_aud.to_vec();
        chunk.extend_from_slice(&au[5..]);
        let frames = push_collect(&mut det, &chunk);
        assert_eq!(frames.len(), 1);
    }

    assert!(
        det.buffered_bytes() < 16 * 1024,
        "buffer grew unboundedly: {} bytes",
        det.buffered_bytes()
    );
}

fn hevc_aud_au(payload: &[u8]) -> Vec<u8> {
    let mut v = vec![0x00, 0x00, 0x00, 0x01, 0x46, 0x01];
    v.extend_from_slice(payload);
    v
}

#[test]
fn splitter_hevc_detects_two_access_units() {
    let mut det = HevcSplitter::new();
    let mut bytes = hevc_aud_au(&[0x00, 0x00, 0x01, 0x02, 0x01, 0xaa]);
    bytes.extend_from_slice(&hevc_aud_au(&[0x00, 0x00, 0x01, 0x26, 0x01, 0xbb]));
    bytes.extend_from_slice(&[0x00, 0x00, 0x00, 0x01, 0x46, 0x01]);

    let frames = push_collect(&mut det, &bytes);
    assert_eq!(frames.len(), 2);
    assert!(!frames[0].is_keyframe);
    assert!(frames[1].is_keyframe);
}

#[test]
fn splitter_hevc_streamed_one_byte_at_a_time() {
    let mut det = HevcSplitter::new();
    let mut bytes = hevc_aud_au(&[0x00, 0x00, 0x01, 0x02, 0x01, 0xaa]);
    bytes.extend_from_slice(&hevc_aud_au(&[0x00, 0x00, 0x01, 0x26, 0x01, 0xbb]));
    bytes.extend_from_slice(&[0x00, 0x00, 0x00, 0x01, 0x46, 0x01]);

    let mut got = Vec::new();
    for b in &bytes {
        got.extend(push_collect(&mut det, std::slice::from_ref(b)));
    }
    assert_eq!(got.len(), 2);
    assert!(!got[0].is_keyframe);
    assert!(got[1].is_keyframe);
}

fn av1_obu(obu_type: u8, payload: &[u8]) -> Vec<u8> {
    let header = (obu_type & 0x0F) << 3 | 0x02;
    let mut v = vec![header];
    assert!(payload.len() < 128, "test helper only handles small OBUs");
    v.push(payload.len() as u8);
    v.extend_from_slice(payload);
    v
}

#[test]
fn splitter_av1_detects_two_access_units() {
    let mut det = Av1Splitter::new();
    let mut bytes = Vec::new();
    bytes.extend_from_slice(&av1_obu(OBU_TEMPORAL_DELIMITER, &[]));
    bytes.extend_from_slice(&av1_obu(OBU_SEQUENCE_HEADER, &[0x00, 0x01]));
    bytes.extend_from_slice(&av1_obu(OBU_FRAME, &[0xAA, 0xBB, 0xCC]));
    bytes.extend_from_slice(&av1_obu(OBU_TEMPORAL_DELIMITER, &[]));
    bytes.extend_from_slice(&av1_obu(OBU_FRAME, &[0xDD, 0xEE]));
    bytes.extend_from_slice(&av1_obu(OBU_TEMPORAL_DELIMITER, &[]));

    let frames = push_collect(&mut det, &bytes);
    assert_eq!(frames.len(), 2);
    assert!(frames[0].is_keyframe);
    assert!(!frames[1].is_keyframe);
    for f in &frames {
        assert!(f.data.len() >= EncodedFrame::HEADER_LEN);
    }
}

#[test]
fn splitter_av1_streamed_one_byte_at_a_time() {
    let mut det = Av1Splitter::new();
    let mut bytes = Vec::new();
    bytes.extend_from_slice(&av1_obu(OBU_TEMPORAL_DELIMITER, &[]));
    bytes.extend_from_slice(&av1_obu(OBU_SEQUENCE_HEADER, &[0x00, 0x01]));
    bytes.extend_from_slice(&av1_obu(OBU_FRAME, &[0xAA, 0xBB]));
    bytes.extend_from_slice(&av1_obu(OBU_TEMPORAL_DELIMITER, &[]));
    bytes.extend_from_slice(&av1_obu(OBU_FRAME, &[0xCC]));
    bytes.extend_from_slice(&av1_obu(OBU_TEMPORAL_DELIMITER, &[]));

    let mut got = Vec::new();
    for b in &bytes {
        got.extend(push_collect(&mut det, std::slice::from_ref(b)));
    }
    assert_eq!(got.len(), 2);
    assert!(got[0].is_keyframe);
    assert!(!got[1].is_keyframe);
}

#[test]
fn splitter_av1_leb128_round_trip_small_and_multi_byte() {
    assert_eq!(Av1Splitter::read_leb128(&[0x00]), Some((0, 1)));
    assert_eq!(Av1Splitter::read_leb128(&[0x7F]), Some((127, 1)));
    assert_eq!(Av1Splitter::read_leb128(&[0xC8, 0x01]), Some((200, 2)));
}

/// Pseudo-random fuzz: feed a deterministic byte sequence to each
/// splitter in random-sized chunks. Ensures: no panic, every emitted
/// frame reserves the wire-protocol header, and the internal buffer
/// never grows unbounded across 1 MiB of input.
fn fuzz_one(mut splitter: Box<dyn FrameSplitter>) {
    // Linear-congruential PRNG so this test is deterministic and
    // does not pull in a `rand` dev-dep.
    let mut state: u64 = 0xCAFE_BABE_DEAD_BEEF;
    let mut next = || {
        state = state.wrapping_mul(6364136223846793005).wrapping_add(1442695040888963407);
        (state >> 33) as u32
    };

    let total: usize = 1024 * 1024;
    let mut produced = 0usize;
    let mut buf = vec![0u8; 4096];
    let mut frames: Vec<EncodedFrame> = Vec::new();

    while produced < total {
        let n = ((next() as usize) % buf.len()).max(1);
        for b in buf[..n].iter_mut() {
            *b = (next() & 0xFF) as u8;
        }
        frames.clear();
        splitter.push(&buf[..n], &mut frames);
        for f in &frames {
            assert!(
                f.data.len() >= EncodedFrame::HEADER_LEN,
                "splitter emitted a frame smaller than HEADER_LEN",
            );
        }
        produced += n;

        // Buffered bytes must remain bounded by ~one frame's worth.
        assert!(
            splitter.buffered_bytes() < 8 * 1024 * 1024,
            "splitter internal buffer grew unboundedly: {} bytes",
            splitter.buffered_bytes(),
        );
    }
}

#[test]
fn h264_fuzz_random_input_no_panic_no_unbounded_growth() {
    fuzz_one(Box::new(H264Splitter::new()));
}

#[test]
fn hevc_fuzz_random_input_no_panic_no_unbounded_growth() {
    fuzz_one(Box::new(HevcSplitter::new()));
}

#[test]
fn av1_fuzz_random_input_no_panic_no_unbounded_growth() {
    fuzz_one(Box::new(Av1Splitter::new()));
}

#[test]
fn reset_clears_internal_buffer() {
    let mut det = H264Splitter::new();
    // Push partial data without a closing AUD so it stays buffered.
    det.push(&[0x00, 0x00, 0x00, 0x01, 0x09, 0xAA, 0xBB], &mut Vec::new());
    assert!(det.buffered_bytes() > 0);
    det.reset();
    assert_eq!(det.buffered_bytes(), 0);
}

/// The frames of a stream that arrives in pieces of `n` bytes, without their
/// headers, and what is left.
fn in_pieces(mut s: Box<dyn FrameSplitter>, data: &[u8], n: usize) -> (Vec<Vec<u8>>, usize) {
    let mut frames = Vec::new();
    for piece in data.chunks(n) {
        s.push(piece, &mut frames);
    }
    let units = frames.iter().map(|f| f.data[EncodedFrame::HEADER_LEN..].to_vec()).collect();
    (units, s.buffered_bytes())
}

#[test]
fn annexb_frames_do_not_depend_on_the_pieces() {
    let mut stream = vec![7u8, 7];
    for i in 0..6u8 {
        stream.extend_from_slice(&aud_au(&[0x00, 0x00, 0x01, 0x41 + (i % 2) * 0x24, i, i]));
    }
    let (whole, rest) = in_pieces(Box::new(H264Splitter::new()), &stream, stream.len());
    assert_eq!(whole.len(), 5);
    for n in 1..20 {
        let (units, left) = in_pieces(Box::new(H264Splitter::new()), &stream, n);
        assert_eq!(units, whole);
        assert_eq!(left, rest);
    }
    // Nothing between the first delimiter and the end is lost.
    let mut joined: Vec<u8> = whole.concat();
    joined.extend_from_slice(&stream[stream.len() - rest..]);
    assert_eq!(joined, stream[2..]);
    assert!(whole.iter().all(|u| u.starts_with(&[0, 0, 0, 1, 0x09])));
}

#[test]
fn av1_frames_do_not_depend_on_the_pieces() {
    let mut stream = Vec::new();
    for i in 0..5u8 {
        stream.extend_from_slice(&av1_obu(OBU_TEMPORAL_DELIMITER, &[]));
        if i % 2 == 0 {
            stream.extend_from_slice(&av1_obu(OBU_SEQUENCE_HEADER, &[i]));
        }
        stream.extend_from_slice(&av1_obu(OBU_FRAME, &[i, i, i]));
    }
    let (whole, _) = in_pieces(Box::new(Av1Splitter::new()), &stream, stream.len());
    assert_eq!(whole.len(), 4);
    for n in 1..15 {
        assert_eq!(in_pieces(Box::new(Av1Splitter::new()), &stream, n).0, whole);
    }
    assert!(stream.starts_with(&whole.concat()));
}

#[test]
fn leb128_stops_at_eight_bytes() {
    assert_eq!(Av1Splitter::read_leb128(&[]), None);
    assert_eq!(Av1Splitter::read_leb128(&[0x80]), None);
    assert_eq!(Av1Splitter::read_leb128(&[0x80; 9]), None);
    assert_eq!(
        Av1Splitter::read_leb128(&[0xFF, 0xFF, 0xFF, 0xFF, 0xFF, 0xFF, 0xFF, 0x7F]),
        Some(((1 << 56) - 1, 8))
    );
}
