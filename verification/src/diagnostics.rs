//! Counters of the running server and what its diagnostic endpoints tell.

use crate::encoder::backends::HwVendor;
use crate::encoder::{counted, CodecKind};
use crate::hw_probe::EncoderCapability;
use vstd::prelude::*;

verus! {

/// Seconds over which the frame rate is observed.
pub const FPS_WINDOW_SECS: u64 = 1;

/// The counters of the server.
#[derive(Debug, Clone)]
pub struct Diagnostics {
    /// Sessions that are open.
    pub active_sessions: usize,
    /// Sessions that were ever opened.
    pub total_sessions: u64,
    /// How often the encoder was started.
    pub encoder_restarts: u64,
    /// The encoder chosen last.
    pub current_encoder: String,
    /// Frames sent in the last window, per second.
    pub current_fps: u64,
    /// Video frames sent.
    pub frames_sent: u64,
    /// Bytes sent: video, audio and cursor.
    pub bytes_sent: u64,
    /// Delta frames dropped because a newer key frame was waiting.
    pub dropped_intermediate_deltas: u64,
}

/// The counters at one moment.
#[derive(Debug, Clone)]
pub struct DiagnosticsSnapshot {
    pub uptime_secs: u64,
    pub active_sessions: usize,
    pub total_sessions: u64,
    pub encoder_restarts: u64,
    pub current_encoder: String,
    pub current_fps: u64,
    pub frames_sent: u64,
    pub bytes_sent: u64,
    pub dropped_intermediate_deltas: u64,
}

/// `n` less one in a counter that wraps.
pub open spec fn one_less(n: usize) -> usize {
    if n == 0 {
        usize::MAX
    } else {
        (n - 1) as usize
    }
}

/// `n` and one more in a counter that wraps.
pub open spec fn one_more(n: usize) -> usize {
    if n == usize::MAX {
        0
    } else {
        (n + 1) as usize
    }
}

/// Frames per second, given the frames sent now and a window ago.
pub open spec fn observed_fps(sent: u64, sent_before: u64) -> u64 {
    if sent < sent_before {
        0
    } else {
        ((sent - sent_before) / FPS_WINDOW_SECS as int) as u64
    }
}

impl Diagnostics {
    /// All counters at zero.
    pub fn new(initial_encoder: String) -> (r: Self)
        ensures
            r == (Diagnostics {
                active_sessions: 0,
                total_sessions: 0,
                encoder_restarts: 0,
                current_encoder: initial_encoder,
                current_fps: 0,
                frames_sent: 0,
                bytes_sent: 0,
                dropped_intermediate_deltas: 0,
            }),
    {
        Diagnostics {
            active_sessions: 0,
            total_sessions: 0,
            encoder_restarts: 0,
            current_encoder: initial_encoder,
            current_fps: 0,
            frames_sent: 0,
            bytes_sent: 0,
            dropped_intermediate_deltas: 0,
        }
    }

    /// The counters as they are now.
    pub fn snapshot(&self, uptime_secs: u64) -> (r: DiagnosticsSnapshot)
        ensures
            r.uptime_secs == uptime_secs,
            r.active_sessions == self.active_sessions,
            r.total_sessions == self.total_sessions,
            r.encoder_restarts == self.encoder_restarts,
            r.current_encoder@ == self.current_encoder@,
            r.current_fps == self.current_fps,
            r.frames_sent == self.frames_sent,
            r.bytes_sent == self.bytes_sent,
            r.dropped_intermediate_deltas == self.dropped_intermediate_deltas,
    {
        DiagnosticsSnapshot {
            uptime_secs,
            active_sessions: self.active_sessions,
            total_sessions: self.total_sessions,
            encoder_restarts: self.encoder_restarts,
            current_encoder: self.current_encoder.clone(),
            current_fps: self.current_fps,
            frames_sent: self.frames_sent,
            bytes_sent: self.bytes_sent,
            dropped_intermediate_deltas: self.dropped_intermediate_deltas,
        }
    }

    /// Counts a session that opens.
    pub fn session_opened(&mut self)
        ensures
            *final(self) == (Diagnostics {
                active_sessions: one_more(old(self).active_sessions),
                total_sessions: counted(old(self).total_sessions, 1),
                ..*old(self)
            }),
    {
        self.active_sessions = self.active_sessions.wrapping_add(1);
        self.total_sessions = self.total_sessions.wrapping_add(1);
    }

    /// Counts a session that closes.
    pub fn session_closed(&mut self)
        ensures
            *final(self) == (Diagnostics {
                active_sessions: one_less(old(self).active_sessions),
                ..*old(self)
            }),
    {
        self.active_sessions = self.active_sessions.wrapping_sub(1);
    }

    /// Counts a start of the encoder.
    pub fn encoder_started(&mut self)
        ensures
            *final(self) == (Diagnostics {
                encoder_restarts: counted(old(self).encoder_restarts, 1),
                ..*old(self)
            }),
    {
        self.encoder_restarts = self.encoder_restarts.wrapping_add(1);
    }

    /// Counts a video frame of `bytes` bytes that was sent.
    pub fn frame_sent(&mut self, bytes: usize)
        ensures
            *final(self) == (Diagnostics {
                frames_sent: counted(old(self).frames_sent, 1),
                bytes_sent: counted(old(self).bytes_sent, bytes as u64),
                ..*old(self)
            }),
    {
        self.frames_sent = self.frames_sent.wrapping_add(1);
        self.bytes_sent = self.bytes_sent.wrapping_add(bytes as u64);
    }

    /// Counts an audio chunk or a cursor message of `bytes` bytes that was
    /// sent.
    pub fn message_sent(&mut self, bytes: usize)
        ensures
            *final(self) == (Diagnostics {
                bytes_sent: counted(old(self).bytes_sent, bytes as u64),
                ..*old(self)
            }),
    {
        self.bytes_sent = self.bytes_sent.wrapping_add(bytes as u64);
    }

    /// Counts `n` delta frames that were dropped.
    pub fn deltas_dropped(&mut self, n: usize)
        ensures
            *final(self) == (Diagnostics {
                dropped_intermediate_deltas: counted(
                    old(self).dropped_intermediate_deltas,
                    n as u64,
                ),
                ..*old(self)
            }),
    {
        self.dropped_intermediate_deltas = self.dropped_intermediate_deltas.wrapping_add(n as u64);
    }

    /// Notes the frame rate, given the frames sent now and a window ago.
    pub fn observe_fps(&mut self, sent: u64, sent_before: u64)
        ensures
            *final(self) == (Diagnostics {
                current_fps: observed_fps(sent, sent_before),
                ..*old(self)
            }),
    {
        self.current_fps = sent.saturating_sub(sent_before) / FPS_WINDOW_SECS;
    }
}

/// What the health endpoint tells.
#[derive(Debug, Clone, Copy, PartialEq, Eq, Structural)]
pub struct HealthResponse {
    pub ok: bool,
    pub uptime_secs: u64,
    pub active_sessions: usize,
}

impl HealthResponse {
    /// The server is up, for so long, with so many sessions.
    pub fn from_snapshot(s: &DiagnosticsSnapshot) -> (r: Self)
        ensures
            r == (HealthResponse {
                ok: true,
                uptime_secs: s.uptime_secs,
                active_sessions: s.active_sessions,
            }),
    {
        HealthResponse { ok: true, uptime_secs: s.uptime_secs, active_sessions: s.active_sessions }
    }
}

/// What the encoder endpoint tells of an encoder.
#[derive(Debug, Clone, PartialEq, Eq)]
pub struct EncoderResponse {
    pub name: String,
    pub codec: String,
    pub hw_vendor: String,
    pub working: bool,
    pub reason: Option<String>,
}

/// The name of a codec in answers.
pub open spec fn codec_label(c: CodecKind) -> Seq<char> {
    match c {
        CodecKind::H264 => "H264"@,
        CodecKind::Hevc => "Hevc"@,
        CodecKind::Av1 => "Av1"@,
    }
}

/// The name of a vendor in answers.
pub open spec fn vendor_label(v: HwVendor) -> Seq<char> {
    match v {
        HwVendor::Amd => "Amd"@,
        HwVendor::Nvidia => "Nvidia"@,
        HwVendor::Intel => "Intel"@,
        HwVendor::Microsoft => "Microsoft"@,
        HwVendor::Software => "Software"@,
        HwVendor::Other => "Other"@,
    }
}

impl EncoderResponse {
    /// What is known of an encoder, in words.
    pub fn from_capability(c: &EncoderCapability) -> (r: Self)
        ensures
            r.name@ == c.name@,
            r.codec@ == codec_label(c.codec),
            r.hw_vendor@ == vendor_label(c.hw_vendor),
            r.working == c.working,
            match c.reason {
                Some(s) => r.reason matches Some(t) && t@ == s@,
                None => r.reason is None,
            },
    {
        let codec = match c.codec {
            CodecKind::H264 => "H264",
            CodecKind::Hevc => "Hevc",
            CodecKind::Av1 => "Av1",
        };
        let hw_vendor = match c.hw_vendor {
            HwVendor::Amd => "Amd",
            HwVendor::Nvidia => "Nvidia",
            HwVendor::Intel => "Intel",
            HwVendor::Microsoft => "Microsoft",
            HwVendor::Software => "Software",
            HwVendor::Other => "Other",
        };
        let reason = match &c.reason {
            Some(s) => Some(s.clone()),
            None => None,
        };
        EncoderResponse {
            name: c.name.clone(),
            codec: codec.to_owned(),
            hw_vendor: hw_vendor.to_owned(),
            working: c.working,
            reason,
        }
    }
}

/// A session that opens and closes again leaves the number of open sessions as
/// it was.
pub proof fn law_sessions_balance(n: usize)
    ensures
        one_less(one_more(n)) == n,
{
}

/// Frames are counted over one second, and a count that went backwards counts
/// as none.
pub proof fn law_observed_fps(sent: u64, before: u64)
    ensures
        before <= sent ==> observed_fps(sent, before) == sent - before,
        before > sent ==> observed_fps(sent, before) == 0,
{
}

/// Opening a session counts one up and closing it one down, each wrapping
/// around.
pub proof fn law_session_counts(n: usize)
    ensures
        n < usize::MAX ==> one_more(n) == n + 1,
        one_more(usize::MAX) == 0,
        n > 0 ==> one_less(n) == n - 1,
        one_less(0) == usize::MAX,
{
}

/// The words for codecs and vendors.
pub proof fn law_labels()
    ensures
        codec_label(CodecKind::H264) == "H264"@,
        codec_label(CodecKind::Hevc) == "Hevc"@,
        codec_label(CodecKind::Av1) == "Av1"@,
        vendor_label(HwVendor::Amd) == "Amd"@,
        vendor_label(HwVendor::Nvidia) == "Nvidia"@,
        vendor_label(HwVendor::Intel) == "Intel"@,
        vendor_label(HwVendor::Microsoft) == "Microsoft"@,
        vendor_label(HwVendor::Software) == "Software"@,
        vendor_label(HwVendor::Other) == "Other"@,
{
}

} // verus!
