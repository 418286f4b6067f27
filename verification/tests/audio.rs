//! Audio devices and chunks.

use remote_desktop::audio::{
    capture_command, enumerate_audio_devices, enumerate_via_ffmpeg_pulse, enumerate_via_pactl, is_default_device,
    pactl_is_enough, parse_ffmpeg_pulse_sources, parse_pactl_sources, AudioChunker, CHUNK_BYTES,
};
use remote_desktop::protocol::ServerMessage;

#[test]
fn parse_pactl_sources_typical() {
    let output = "\
0\talsa_output.pci-0000_00_1f.3.analog-stereo.monitor\tPipeWire\ts16le 2ch 48000Hz\tIDLE
1\talsa_input.pci-0000_00_1f.3.analog-stereo\tPipeWire\ts16le 2ch 48000Hz\tIDLE
";
    let devices = parse_pactl_sources(output);
    assert_eq!(devices.len(), 2);
    // Monitors come first.
    assert!(devices[0].contains(".monitor"));
    assert_eq!(
        devices[0],
        "alsa_output.pci-0000_00_1f.3.analog-stereo.monitor"
    );
    assert_eq!(devices[1], "alsa_input.pci-0000_00_1f.3.analog-stereo");
}

#[test]
fn parse_pactl_sources_empty() {
    let devices = parse_pactl_sources("");
    assert!(devices.is_empty());
}

#[test]
fn parse_ffmpeg_pulse_sources_typical() {
    let stderr = r#"Auto-detected sources for pulse:
  * default [Default]
    alsa_output.pci-0000_00_1f.3.analog-stereo.monitor [Monitor of Built-in Audio Analog Stereo]
"#;
    let devices = parse_ffmpeg_pulse_sources(stderr);
    assert_eq!(devices.len(), 2);
    assert_eq!(devices[0], "default");
    assert_eq!(
        devices[1],
        "alsa_output.pci-0000_00_1f.3.analog-stereo.monitor"
    );
}

#[test]
fn parse_ffmpeg_pulse_sources_empty() {
    let devices = parse_ffmpeg_pulse_sources("");
    assert!(devices.is_empty());
}

#[test]
fn chunks_are_cut_and_tagged() {
    let mut c = AudioChunker::new();
    let mut out: Vec<Vec<u8>> = Vec::new();
    let data: Vec<u8> = (0..20000u32).map(|i| (i % 251) as u8).collect();
    c.push_samples(&data[..5000], &mut out);
    assert!(out.is_empty());
    c.push_samples(&data[5000..], &mut out);
    assert_eq!(out.len(), 2);
    let mut joined = Vec::new();
    for chunk in &out {
        assert_eq!(chunk.len(), CHUNK_BYTES + 1);
        match ServerMessage::decode(chunk).unwrap() {
            ServerMessage::AudioData { data } => joined.extend(data),
            _ => panic!("wrong variant"),
        }
    }
    assert_eq!(joined, data[..2 * CHUNK_BYTES]);
    // What is left waits for the next samples.
    c.push_samples(&data[..3 * CHUNK_BYTES - 20000], &mut out);
    assert_eq!(out.len(), 3);
    assert_eq!(&out[2][1..=20000 - 2 * CHUNK_BYTES], &data[2 * CHUNK_BYTES..]);
}

#[test]
fn cutting_does_not_depend_on_the_reads() {
    let data: Vec<u8> = (0..30000u32).map(|i| (i * 7 % 256) as u8).collect();
    let mut whole: Vec<Vec<u8>> = Vec::new();
    AudioChunker::new().push_samples(&data, &mut whole);
    let mut c = AudioChunker::new();
    let mut parts: Vec<Vec<u8>> = Vec::new();
    for piece in data.chunks(997) {
        c.push_samples(piece, &mut parts);
    }
    assert_eq!(whole, parts);
}

#[test]
fn pactl_output_counts_only_on_success() {
    assert!(enumerate_via_pactl(false, b"0\tx\n").is_none());
    let found = enumerate_via_pactl(true, b"0\tmic\tz\n1\tout.monitor\tz\n");
    assert_eq!(found, Some(vec!["out.monitor".to_string(), "mic".to_string()]));
    assert!(pactl_is_enough(&found));
    assert!(!pactl_is_enough(&None));
    assert!(!pactl_is_enough(&Some(Vec::new())));
}

#[test]
fn ffmpeg_is_asked_where_pactl_knows_nothing() {
    let stderr: &[u8] = b"Auto-detected sources for pulse:\n  * default [Default]\n";
    let pactl: &[u8] = b"0\tmic\tz\n";
    assert_eq!(enumerate_audio_devices(Some((true, pactl)), Some(stderr)), ["mic"]);
    assert_eq!(enumerate_audio_devices(Some((true, b"")), Some(stderr)), ["default"]);
    assert_eq!(enumerate_audio_devices(Some((false, pactl)), Some(stderr)), ["default"]);
    assert_eq!(enumerate_audio_devices(None, Some(stderr)), ["default"]);
    assert!(enumerate_audio_devices(None, None).is_empty());
}

#[test]
fn broken_text_of_the_tools_is_repaired() {
    let found = enumerate_via_pactl(true, b"0\tm\xFFc\tz\n");
    assert_eq!(found, Some(vec!["m\u{FFFD}c".to_string()]));
    let found = enumerate_via_ffmpeg_pulse(b"Auto-detected sources for pulse:\n  d\xC3 [X]\n");
    assert_eq!(found, ["d\u{FFFD}"]);
}

#[test]
fn the_default_device_is_known_by_name() {
    assert!(is_default_device("default"));
    assert!(!is_default_device("Speakers"));
}

#[test]
fn capture_command_names_the_device() {
    let args = capture_command("my device");
    assert!(args.windows(2).any(|w| w == ["-i", "my device"]));
    assert!(args.iter().any(|a| a == "f32le"));
}
