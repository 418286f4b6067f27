//! Which encoders are there, and which one is picked.

use remote_desktop::encoder::backends::{HwVendor, KNOWN_ENCODERS};
use remote_desktop::encoder::CodecKind;
use remote_desktop::hw_probe::{
    dxgi_vendors, list_ffmpeg_encoders, parse_ffmpeg_encoders, probe, probe_with_encode,
    select_default, trial_command, try_one_frame, EncoderCapability, ToolRun, TrialEvent,
    TrialOutcome,
};

#[test]
fn parses_ffmpeg_encoders_table() {
    let sample = "Encoders:\n\
         V..... = Video\n\
         A..... = Audio\n\
         ------\n\
         V..... libx264              libx264 H.264 / AVC / MPEG-4 AVC encoder\n\
         V....D libx265              libx265 H.265 / HEVC encoder\n\
         V..... h264_amf             AMD AMF H.264 Encoder\n\
         A..... aac                  AAC (Advanced Audio Coding)\n";
    let names = parse_ffmpeg_encoders(sample);
    assert!(names.contains(&"libx264".to_string()));
    assert!(names.contains(&"libx265".to_string()));
    assert!(names.contains(&"h264_amf".to_string()));
    assert!(!names.contains(&"aac".to_string()),
            "audio encoders must be filtered out");
}

#[test]
fn parse_handles_empty_input() {
    assert!(parse_ffmpeg_encoders("").is_empty());
    assert!(parse_ffmpeg_encoders("no separator here").is_empty());
}

#[test]
fn select_default_prefers_av1_hw_for_amd_when_present() {
    let caps = vec![
        EncoderCapability { name: "av1_amf".into(), codec: CodecKind::Av1, hw_vendor: HwVendor::Amd, working: true, reason: None },
        EncoderCapability { name: "h264_amf".into(), codec: CodecKind::H264, hw_vendor: HwVendor::Amd, working: true, reason: None },
        EncoderCapability { name: "libx264".into(), codec: CodecKind::H264, hw_vendor: HwVendor::Software, working: true, reason: None },
    ];
    let pick = select_default(&caps, &[HwVendor::Amd]).unwrap();
    assert_eq!(pick.name, "av1_amf");
}

#[test]
fn select_default_falls_back_to_h264_when_av1_hw_not_working() {
    let caps = vec![
        EncoderCapability { name: "av1_amf".into(), codec: CodecKind::Av1, hw_vendor: HwVendor::Amd, working: false, reason: Some("rdna2 lacks av1".into()) },
        EncoderCapability { name: "hevc_amf".into(), codec: CodecKind::Hevc, hw_vendor: HwVendor::Amd, working: true, reason: None },
        EncoderCapability { name: "h264_amf".into(), codec: CodecKind::H264, hw_vendor: HwVendor::Amd, working: true, reason: None },
    ];
    let pick = select_default(&caps, &[HwVendor::Amd]).unwrap();
    assert_eq!(pick.name, "hevc_amf");
}

#[test]
fn select_default_falls_back_to_software_when_no_hw() {
    let caps = vec![
        EncoderCapability { name: "libsvtav1".into(), codec: CodecKind::Av1, hw_vendor: HwVendor::Software, working: true, reason: None },
        EncoderCapability { name: "libx264".into(), codec: CodecKind::H264, hw_vendor: HwVendor::Software, working: true, reason: None },
    ];
    let pick = select_default(&caps, &[]).unwrap();
    assert_eq!(pick.name, "libsvtav1");
}

#[test]
fn select_default_returns_none_when_nothing_works() {
    let caps = vec![EncoderCapability {
        name: "h264_amf".into(),
        codec: CodecKind::H264,
        hw_vendor: HwVendor::Amd,
        working: false,
        reason: Some("no gpu".into()),
    }];
    assert!(select_default(&caps, &[HwVendor::Amd]).is_none());
}

#[test]
fn select_default_prefers_nvidia_match_over_other_hw() {
    let caps = vec![
        EncoderCapability { name: "h264_amf".into(), codec: CodecKind::H264, hw_vendor: HwVendor::Amd, working: true, reason: None },
        EncoderCapability { name: "h264_nvenc".into(), codec: CodecKind::H264, hw_vendor: HwVendor::Nvidia, working: true, reason: None },
    ];
    let pick = select_default(&caps, &[HwVendor::Nvidia]).unwrap();
    assert_eq!(pick.name, "h264_nvenc");
}

#[test]
fn probe_returns_one_entry_per_known_encoder_even_without_ffmpeg() {
    // probe is best-effort; on a host without FFmpeg every
    // entry should be marked not-working with a reason set.
    let caps = probe(&Vec::new());
    assert_eq!(caps.len(), KNOWN_ENCODERS.len());
    for c in &caps {
        if !c.working {
            assert!(c.reason.is_some(), "non-working entries must have a reason");
        }
    }
}

#[test]
fn probe_marks_what_ffmpeg_has() {
    let caps = probe(&vec!["libx264".to_string()]);
    for c in &caps {
        assert_eq!(c.working, c.name == "libx264");
        assert_eq!(c.reason.is_none(), c.working);
    }
}

#[test]
fn encoder_table_is_read_on_success_only() {
    let table = b"------\n V..... libx264  H.264 \xFF\n A..... aac  AAC\n";
    let run = |success: bool| list_ffmpeg_encoders(ToolRun::Finished { success, stdout: table });
    assert_eq!(run(true), Ok(vec!["libx264".to_string()]));
    assert_eq!(run(false), Ok(Vec::new()));
    assert_eq!(
        list_ffmpeg_encoders(ToolRun::NotStarted { cause: "not found" }),
        Err("Failed to spawn ffmpeg -encoders: not found".to_string())
    );
}

#[test]
fn a_failed_trial_takes_an_encoder_out() {
    let caps = probe(&vec!["libx264".to_string(), "libx265".to_string()]);
    let failures: Vec<Option<String>> = caps
        .iter()
        .map(|c| if c.name == "libx265" { Some("broken".to_string()) } else { None })
        .collect();
    let after = probe_with_encode(caps, failures);
    let find = |name: &str| after.iter().find(|c| c.name == name).unwrap();
    assert!(find("libx264").working);
    assert!(!find("libx265").working);
    assert_eq!(find("libx265").reason.as_deref(), Some("broken"));
    assert!(!find("h264_amf").working);
}

#[test]
fn trials_end_in_a_verdict() {
    let exited = |success: bool| TrialEvent::Exited {
        success,
        status: "exit status: 1".to_string(),
        stderr: "first\n  last line \n".to_string(),
    };
    assert!(matches!(try_one_frame(exited(true)), TrialOutcome::Works));
    assert!(matches!(try_one_frame(exited(false)), TrialOutcome::Fails { reason }
        if reason == "encode probe exited exit status: 1 (last line)"));
    assert!(matches!(
        try_one_frame(TrialEvent::Running { past_deadline: false }),
        TrialOutcome::Pending
    ));
    assert!(matches!(
        try_one_frame(TrialEvent::Running { past_deadline: true }),
        TrialOutcome::Fails { reason } if reason == "encode probe timed out"
    ));
    assert!(matches!(
        try_one_frame(TrialEvent::NotStarted { cause: "not found".to_string() }),
        TrialOutcome::Fails { reason } if reason == "spawn failed: not found"
    ));
    assert!(matches!(
        try_one_frame(TrialEvent::WaitFailed { cause: "gone".to_string() }),
        TrialOutcome::Fails { reason } if reason == "wait failed: gone"
    ));
    let args = trial_command("libx264");
    assert!(args.windows(2).any(|w| w == ["-c:v", "libx264"]));
    assert!(args.windows(2).any(|w| w == ["-frames:v", "1"]));
}

#[test]
fn no_adapter_is_reported() {
    assert!(dxgi_vendors().is_empty());
}
