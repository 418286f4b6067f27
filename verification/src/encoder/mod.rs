//! Video encoding through an FFmpeg process: which command it is run with, how
//! frames go in, and how its output becomes frames for the client.

pub mod backends;
pub mod laws;
pub mod splitter;
pub mod validate;

use self::backends::RcArgs;
use self::splitter::{Av1Splitter, FrameSplitter, H264Splitter, HevcSplitter};
use self::validate::ValidationError;
use crate::text;
use vstd::prelude::*;
use vstd::slice::slice_to_vec;

verus! {

/// The codec of an encoder's output.
#[derive(Debug, Clone, Copy, PartialEq, Eq, Structural)]
pub enum CodecKind {
    /// H.264, as an Annex-B stream.
    H264,
    /// HEVC, as an Annex-B stream.
    Hevc,
    /// AV1, in the Low-Overhead Bitstream Format.
    Av1,
}

/// The codec that the name of an encoder tells of, whatever its case.
pub open spec fn codec_named(name: Seq<char>) -> CodecKind {
    let n = text::lowered(name);
    if text::occurs(n, "av1"@) || text::occurs(n, "svtav1"@) || text::occurs(n, "aom"@) {
        CodecKind::Av1
    } else if text::occurs(n, "hevc"@) || text::occurs(n, "h265"@) || text::occurs(n, "265"@) {
        CodecKind::Hevc
    } else {
        CodecKind::H264
    }
}

impl CodecKind {
    /// The number of the codec on the wire.
    pub open spec fn id(self) -> u8 {
        match self {
            CodecKind::H264 => 0,
            CodecKind::Hevc => 1,
            CodecKind::Av1 => 2,
        }
    }

    /// Tells the codec from the name of an FFmpeg encoder.
    pub fn from_encoder_name(name: &str) -> (r: Self)
        ensures
            r == codec_named(name@),
    {
        let n = text::to_lower(name);
        let n = n.as_slice();
        if text::contains(n, "av1") || text::contains(n, "svtav1") || text::contains(n, "aom") {
            CodecKind::Av1
        } else if text::contains(n, "hevc") || text::contains(n, "h265") || text::contains(
            n,
            "265",
        ) {
            CodecKind::Hevc
        } else {
            CodecKind::H264
        }
    }

    /// The number of the codec on the wire.
    pub fn protocol_id(self) -> (r: u8)
        ensures
            r == self.id(),
    {
        match self {
            CodecKind::H264 => 0,
            CodecKind::Hevc => 1,
            CodecKind::Av1 => 2,
        }
    }
}

/// How much colour detail the encoder keeps.
#[derive(Debug, Clone, Copy, PartialEq, Eq, Structural)]
pub enum Chroma {
    /// 4:2:0, which every browser decodes in hardware.
    Yuv420,
    /// 4:4:4, sharper but larger and less widely supported.
    Yuv444,
}

/// What an encoder is asked to do.
#[derive(Debug, Clone)]
pub struct EncoderConfig {
    pub width: u32,
    pub height: u32,
    pub fps: u32,
    pub quality: u8,
    pub encoder_name: String,
    pub codec: CodecKind,
    pub chroma: Chroma,
    pub slices: u32,
    pub bitrate_kbps: Option<u32>,
}

/// One encoded access unit, with room for the wire header in front.
#[derive(Debug, Clone)]
pub struct EncodedFrame {
    /// `HEADER_LEN` reserved bytes followed by the access unit.
    pub data: Vec<u8>,
    /// Whether the access unit can be decoded on its own.
    pub is_keyframe: bool,
}

/// What an [`EncodedFrame`] holds, as a mathematical value.
pub struct FrameModel {
    pub data: Seq<u8>,
    pub is_keyframe: bool,
}

impl View for EncodedFrame {
    type V = FrameModel;

    open spec fn view(&self) -> FrameModel {
        FrameModel { data: self.data@, is_keyframe: self.is_keyframe }
    }
}

impl EncodedFrame {
    /// Bytes reserved for the wire header: tag, timestamp, keyframe flag.
    pub const HEADER_LEN: usize = 10;
}

// ── Command line ───────────────────────────────────────────────────

/// Raw BGRA frames of a fixed size and rate on standard input.
pub open spec fn input_args(cfg: EncoderConfig) -> Seq<Seq<char>> {
    seq![
        "-hide_banner"@,
        "-loglevel"@,
        "error"@,
        "-f"@,
        "rawvideo"@,
        "-pix_fmt"@,
        "bgra"@,
        "-video_size"@,
        text::decimal(cfg.width as nat) + "x"@ + text::decimal(cfg.height as nat),
        "-framerate"@,
        text::decimal(cfg.fps as nat),
        "-i"@,
        "pipe:0"@,
    ]
}

/// Colour tags, for the encoders that take them.
pub open spec fn colour_args(cfg: EncoderConfig) -> Seq<Seq<char>> {
    if backends::rejects_colour_tags(cfg.encoder_name@) {
        Seq::empty()
    } else {
        seq![
            "-color_range"@,
            "pc"@,
            "-color_primaries"@,
            "bt709"@,
            "-color_trc"@,
            "bt709"@,
            "-colorspace"@,
            "bt709"@,
        ]
    }
}

/// The pixel format, where it is not the usual one.
pub open spec fn chroma_args(cfg: EncoderConfig) -> Seq<Seq<char>> {
    if cfg.chroma == Chroma::Yuv444 {
        seq!["-pix_fmt"@, "yuv444p"@]
    } else {
        Seq::empty()
    }
}

/// The encoder and its own flags.
pub open spec fn codec_args(cfg: EncoderConfig) -> Seq<Seq<char>> {
    match backends::backend_named(cfg.encoder_name@) {
        Some(id) => backends::args_of(id, cfg, backends::rc_of(cfg)),
        None => backends::generic::generic_args(cfg, backends::rc_of(cfg)),
    }
}

/// No reordering, a key frame every second, no buffering.
pub open spec fn latency_args(cfg: EncoderConfig) -> Seq<Seq<char>> {
    seq![
        "-bf"@,
        "0"@,
        "-g"@,
        text::decimal(cfg.fps as nat),
        "-force_key_frames"@,
        "expr:gte(t,n_forced*1)"@,
        "-fflags"@,
        "nobuffer"@,
        "-flags"@,
        "low_delay"@,
        "-flush_packets"@,
        "1"@,
    ]
}

/// Access unit framing, and the stream on standard output.
pub open spec fn output_args(cfg: EncoderConfig) -> Seq<Seq<char>> {
    match cfg.codec {
        CodecKind::H264 => seq![
            "-bsf:v"@,
            "h264_metadata=aud=insert"@,
            "-f"@,
            "h264"@,
            "pipe:1"@,
        ],
        CodecKind::Hevc => seq![
            "-bsf:v"@,
            "dump_extra=freq=keyframe,hevc_metadata=aud=insert"@,
            "-f"@,
            "hevc"@,
            "pipe:1"@,
        ],
        CodecKind::Av1 => seq!["-f"@, "obu"@, "pipe:1"@],
    }
}

/// The arguments that FFmpeg is run with.
pub open spec fn command_args(cfg: EncoderConfig) -> Seq<Seq<char>> {
    input_args(cfg) + colour_args(cfg) + chroma_args(cfg) + codec_args(cfg) + latency_args(cfg)
        + output_args(cfg)
}

fn push_input(args: &mut Vec<String>, cfg: &EncoderConfig)
    ensures
        text::texts(final(args)@) == text::texts(old(args)@) + input_args(*cfg),
{
    let mut size = text::decimal_string(cfg.width as u64);
    text::push_text(&mut size, "x");
    text::push_decimal(&mut size, cfg.height as u64);
    let fps = text::decimal_string(cfg.fps as u64);
    text::push_string(args, "-hide_banner");
    text::push_string(args, "-loglevel");
    text::push_string(args, "error");
    text::push_string(args, "-f");
    text::push_string(args, "rawvideo");
    text::push_string(args, "-pix_fmt");
    text::push_string(args, "bgra");
    text::push_string(args, "-video_size");
    text::push_string(args, size.as_str());
    text::push_string(args, "-framerate");
    text::push_string(args, fps.as_str());
    text::push_string(args, "-i");
    text::push_string(args, "pipe:0");
    proof {
        assert(text::texts(args@) =~= text::texts(old(args)@) + input_args(*cfg));
    }
}

fn push_colour(args: &mut Vec<String>, cfg: &EncoderConfig)
    ensures
        text::texts(final(args)@) == text::texts(old(args)@) + colour_args(*cfg) + chroma_args(
            *cfg,
        ),
{
    if !backends::is_hw_encoder(cfg.encoder_name.as_str()) {
        text::push_string(args, "-color_range");
        text::push_string(args, "pc");
        text::push_string(args, "-color_primaries");
        text::push_string(args, "bt709");
        text::push_string(args, "-color_trc");
        text::push_string(args, "bt709");
        text::push_string(args, "-colorspace");
        text::push_string(args, "bt709");
    }
    if cfg.chroma == Chroma::Yuv444 {
        text::push_string(args, "-pix_fmt");
        text::push_string(args, "yuv444p");
    }
    proof {
        assert(text::texts(args@) =~= text::texts(old(args)@) + colour_args(*cfg) + chroma_args(
            *cfg,
        ));
    }
}

fn push_latency(args: &mut Vec<String>, cfg: &EncoderConfig)
    ensures
        text::texts(final(args)@) == text::texts(old(args)@) + latency_args(*cfg),
{
    let gop = text::decimal_string(cfg.fps as u64);
    text::push_string(args, "-bf");
    text::push_string(args, "0");
    text::push_string(args, "-g");
    text::push_string(args, gop.as_str());
    text::push_string(args, "-force_key_frames");
    text::push_string(args, "expr:gte(t,n_forced*1)");
    text::push_string(args, "-fflags");
    text::push_string(args, "nobuffer");
    text::push_string(args, "-flags");
    text::push_string(args, "low_delay");
    text::push_string(args, "-flush_packets");
    text::push_string(args, "1");
    proof {
        assert(text::texts(args@) =~= text::texts(old(args)@) + latency_args(*cfg));
    }
}

fn push_output(args: &mut Vec<String>, cfg: &EncoderConfig)
    ensures
        text::texts(final(args)@) == text::texts(old(args)@) + output_args(*cfg),
{
    match cfg.codec {
        CodecKind::H264 => {
            text::push_string(args, "-bsf:v");
            text::push_string(args, "h264_metadata=aud=insert");
            text::push_string(args, "-f");
            text::push_string(args, "h264");
        },
        CodecKind::Hevc => {
            text::push_string(args, "-bsf:v");
            text::push_string(args, "dump_extra=freq=keyframe,hevc_metadata=aud=insert");
            text::push_string(args, "-f");
            text::push_string(args, "hevc");
        },
        CodecKind::Av1 => {
            text::push_string(args, "-f");
            text::push_string(args, "obu");
        },
    }
    text::push_string(args, "pipe:1");
    proof {
        assert(text::texts(args@) =~= text::texts(old(args)@) + output_args(*cfg));
    }
}

// ── Encoder ────────────────────────────────────────────────────────

/// The process that took raw frames is gone.
#[derive(Debug, Clone, Copy, PartialEq, Eq, Structural)]
pub struct WriterStopped;

impl WriterStopped {
    /// What to tell the operator.
    pub fn message(&self) -> (s: &'static str)
        ensures
            s@ == "FFmpeg writer thread terminated"@,
    {
        "FFmpeg writer thread terminated"
    }
}

/// The side of an FFmpeg encoder that decides: the command it is run with,
/// and the one raw frame that waits for the process to take it.
pub struct FfmpegEncoder {
    args: Vec<String>,
    codec: CodecKind,
    queued: Option<Vec<u8>>,
    stopped: bool,
}

impl FfmpegEncoder {
    /// The arguments that FFmpeg is run with.
    pub closed spec fn command(&self) -> Seq<Seq<char>> {
        text::texts(self.args@)
    }

    /// The codec of the output.
    pub closed spec fn output_codec(&self) -> CodecKind {
        self.codec
    }

    /// The raw frame that waits.
    pub closed spec fn waiting(&self) -> Option<Seq<u8>> {
        match self.queued {
            Some(v) => Some(v@),
            None => None,
        }
    }

    /// Whether the process takes no more frames.
    pub closed spec fn is_stopped(&self) -> bool {
        self.stopped
    }

    /// Builds the FFmpeg arguments for `cfg`.
    pub fn build_command(cfg: &EncoderConfig) -> (args: Vec<String>)
        requires
            backends::bitrate_fits(*cfg),
        ensures
            text::texts(args@) == command_args(*cfg),
    {
        let mut args: Vec<String> = Vec::new();
        push_input(&mut args, cfg);
        push_colour(&mut args, cfg);
        let rc = RcArgs::from_config(cfg);
        match backends::lookup(cfg.encoder_name.as_str()) {
            Some(b) => b.build_args(&mut args, cfg, &rc),
            None => backends::generic::build(&mut args, cfg, &rc),
        }
        push_latency(&mut args, cfg);
        push_output(&mut args, cfg);
        proof {
            assert(text::texts(args@) =~= command_args(*cfg));
        }
        args
    }

    /// An encoder for `cfg` with no frame waiting, or why `cfg` cannot be used.
    pub fn new(cfg: &EncoderConfig) -> (r: Result<Self, ValidationError>)
        requires
            validate::problem_with(*cfg) is None ==> backends::bitrate_fits(*cfg),
        ensures
            match r {
                Ok(e) => {
                    &&& validate::problem_with(*cfg) is None
                    &&& e.command() == command_args(*cfg)
                    &&& e.output_codec() == cfg.codec
                    &&& e.waiting() is None
                    &&& !e.is_stopped()
                },
                Err(e) => validate::problem_with(*cfg) == Some(e@),
            },
    {
        match validate::validate(cfg) {
            Ok(_caps) => Ok(
                FfmpegEncoder {
                    args: Self::build_command(cfg),
                    codec: cfg.codec,
                    queued: None,
                    stopped: false,
                },
            ),
            Err(e) => Err(e),
        }
    }

    /// The arguments that FFmpeg is run with.
    pub fn args(&self) -> (args: &Vec<String>)
        ensures
            text::texts(args@) == self.command(),
    {
        &self.args
    }

    /// The codec of the output.
    pub fn codec(&self) -> (r: CodecKind)
        ensures
            r == self.output_codec(),
    {
        self.codec
    }

    /// Hands one raw frame over. The newest wins: a frame that still waits is
    /// dropped.
    pub fn send_frame(&mut self, bgra: &[u8]) -> (r: Result<(), WriterStopped>)
        ensures
            r == (if old(self).is_stopped() {
                Err::<(), WriterStopped>(WriterStopped)
            } else {
                Ok::<(), WriterStopped>(())
            }),
            old(self).is_stopped() ==> *final(self) == *old(self),
            !old(self).is_stopped() ==> final(self).waiting() == Some(bgra@),
            final(self).is_stopped() == old(self).is_stopped(),
            final(self).command() == old(self).command(),
            final(self).output_codec() == old(self).output_codec(),
    {
        if self.stopped {
            return Err(WriterStopped);
        }
        self.queued = Some(slice_to_vec(bgra));
        Ok(())
    }

    /// Takes the frame that waits, for the process to read.
    pub fn take_frame(&mut self) -> (r: Option<Vec<u8>>)
        ensures
            match r {
                Some(v) => old(self).waiting() == Some(v@),
                None => old(self).waiting() is None,
            },
            final(self).waiting() is None,
            final(self).is_stopped() == old(self).is_stopped(),
            final(self).command() == old(self).command(),
            final(self).output_codec() == old(self).output_codec(),
    {
        self.queued.take()
    }

    /// Notes that the process takes no more frames.
    pub fn stop(&mut self)
        ensures
            final(self).is_stopped(),
            final(self).waiting() == old(self).waiting(),
            final(self).command() == old(self).command(),
            final(self).output_codec() == old(self).output_codec(),
    {
        self.stopped = true;
    }
}

// ── Output ─────────────────────────────────────────────────────────

/// `a` and `b` added in a counter of 64 bits.
pub open spec fn counted(a: u64, b: u64) -> u64 {
    if a + b > u64::MAX {
        (a + b - 0x1_0000_0000_0000_0000) as u64
    } else {
        (a + b) as u64
    }
}

/// What an encoder has put out so far.
#[derive(Debug, Clone, Copy, PartialEq, Eq, Structural)]
pub struct EncoderStats {
    pub bytes_read: u64,
    pub frames_out: u64,
    pub keys_out: u64,
    /// Microseconds at which the last bytes came; 0 before any came.
    pub last_read_us: u64,
}

/// The counters of an [`EncoderStats`] at one moment.
#[derive(Debug, Clone, Copy, PartialEq, Eq, Structural)]
pub struct EncoderStatsSnapshot {
    pub bytes_read: u64,
    pub frames_out: u64,
    pub keys_out: u64,
    pub last_read_us: u64,
}

impl Default for EncoderStats {
    fn default() -> (r: Self)
        ensures
            r == (EncoderStats { bytes_read: 0, frames_out: 0, keys_out: 0, last_read_us: 0 }),
    {
        EncoderStats { bytes_read: 0, frames_out: 0, keys_out: 0, last_read_us: 0 }
    }
}

impl EncoderStats {
    /// The counters as they are now.
    pub fn snapshot(&self) -> (r: EncoderStatsSnapshot)
        ensures
            r == (EncoderStatsSnapshot {
                bytes_read: self.bytes_read,
                frames_out: self.frames_out,
                keys_out: self.keys_out,
                last_read_us: self.last_read_us,
            }),
    {
        EncoderStatsSnapshot {
            bytes_read: self.bytes_read,
            frames_out: self.frames_out,
            keys_out: self.keys_out,
            last_read_us: self.last_read_us,
        }
    }

    /// Counts `n` bytes that came at `now_us`.
    pub fn record_read(&mut self, n: usize, now_us: u64)
        ensures
            *final(self) == (EncoderStats {
                bytes_read: counted(old(self).bytes_read, n as u64),
                last_read_us: now_us,
                ..*old(self)
            }),
    {
        self.bytes_read = self.bytes_read.wrapping_add(n as u64);
        self.last_read_us = now_us;
    }

    /// Counts a frame.
    pub fn record_frame(&mut self, is_keyframe: bool)
        ensures
            *final(self) == (EncoderStats {
                frames_out: counted(old(self).frames_out, 1),
                keys_out: if is_keyframe {
                    counted(old(self).keys_out, 1)
                } else {
                    old(self).keys_out
                },
                ..*old(self)
            }),
    {
        self.frames_out = self.frames_out.wrapping_add(1);
        if is_keyframe {
            self.keys_out = self.keys_out.wrapping_add(1);
        }
    }
}

/// The splitter for a codec that is known at run time only.
pub enum CodecSplitter {
    H264(H264Splitter),
    Hevc(HevcSplitter),
    Av1(Av1Splitter),
}

impl CodecSplitter {
    /// The codec that is split.
    pub open spec fn codec(&self) -> CodecKind {
        match self {
            CodecSplitter::H264(_) => CodecKind::H264,
            CodecSplitter::Hevc(_) => CodecKind::Hevc,
            CodecSplitter::Av1(_) => CodecKind::Av1,
        }
    }

    /// An empty splitter for `codec`.
    pub fn new(codec: CodecKind) -> (r: Self)
        ensures
            r.well_formed(),
            r.codec() == codec,
            r.pending() == Seq::<u8>::empty(),
    {
        match codec {
            CodecKind::H264 => CodecSplitter::H264(H264Splitter::new()),
            CodecKind::Hevc => CodecSplitter::Hevc(HevcSplitter::new()),
            CodecKind::Av1 => CodecSplitter::Av1(Av1Splitter::new()),
        }
    }
}

/// The frames that are complete in a stream of `codec`.
pub open spec fn stream_frames(codec: CodecKind, s: Seq<u8>) -> Seq<FrameModel> {
    match codec {
        CodecKind::H264 => splitter::annexb_frames(splitter::NalSyntax::H264, s),
        CodecKind::Hevc => splitter::annexb_frames(splitter::NalSyntax::Hevc, s),
        CodecKind::Av1 => splitter::av1_frames(s),
    }
}

/// What a stream of `codec` leaves buffered.
pub open spec fn stream_remainder(codec: CodecKind, s: Seq<u8>) -> Seq<u8> {
    match codec {
        CodecKind::H264 => splitter::annexb_remainder(splitter::NalSyntax::H264, s),
        CodecKind::Hevc => splitter::annexb_remainder(splitter::NalSyntax::Hevc, s),
        CodecKind::Av1 => splitter::av1_remainder(s),
    }
}

impl FrameSplitter for CodecSplitter {
    open spec fn pending(&self) -> Seq<u8> {
        match self {
            CodecSplitter::H264(s) => s.pending(),
            CodecSplitter::Hevc(s) => s.pending(),
            CodecSplitter::Av1(s) => s.pending(),
        }
    }

    open spec fn well_formed(&self) -> bool {
        match self {
            CodecSplitter::H264(s) => s.well_formed(),
            CodecSplitter::Hevc(s) => s.well_formed(),
            CodecSplitter::Av1(s) => s.well_formed(),
        }
    }

    open spec fn complete_frames(&self, s: Seq<u8>) -> Seq<FrameModel> {
        stream_frames(self.codec(), s)
    }

    open spec fn remainder(&self, s: Seq<u8>) -> Seq<u8> {
        stream_remainder(self.codec(), s)
    }

    fn push(&mut self, data: &[u8], out: &mut Vec<EncodedFrame>)
        ensures
            final(self).codec() == old(self).codec(),
    {
        match self {
            CodecSplitter::H264(s) => s.push(data, out),
            CodecSplitter::Hevc(s) => s.push(data, out),
            CodecSplitter::Av1(s) => s.push(data, out),
        }
    }

    fn buffered_bytes(&self) -> usize {
        match self {
            CodecSplitter::H264(s) => s.buffered_bytes(),
            CodecSplitter::Hevc(s) => s.buffered_bytes(),
            CodecSplitter::Av1(s) => s.buffered_bytes(),
        }
    }

    fn reset(&mut self)
        ensures
            final(self).codec() == old(self).codec(),
    {
        match self {
            CodecSplitter::H264(s) => s.reset(),
            CodecSplitter::Hevc(s) => s.reset(),
            CodecSplitter::Av1(s) => s.reset(),
        }
    }
}

/// The reading side of an encoder: bytes in, frames and counters out.
pub struct EncoderReader {
    splitter: CodecSplitter,
    stats: EncoderStats,
}

impl EncoderReader {
    pub closed spec fn well_formed(&self) -> bool {
        self.splitter.well_formed()
    }

    /// The codec that is read.
    pub closed spec fn codec(&self) -> CodecKind {
        self.splitter.codec()
    }

    /// The bytes that belong to no complete frame yet.
    pub closed spec fn pending(&self) -> Seq<u8> {
        self.splitter.pending()
    }

    /// The counters.
    pub closed spec fn counters(&self) -> EncoderStats {
        self.stats
    }

    /// A reader that has seen nothing.
    pub fn new(codec: CodecKind) -> (r: Self)
        ensures
            r.well_formed(),
            r.codec() == codec,
            r.pending() == Seq::<u8>::empty(),
            r.counters() == (EncoderStats {
                bytes_read: 0,
                frames_out: 0,
                keys_out: 0,
                last_read_us: 0,
            }),
    {
        EncoderReader { splitter: CodecSplitter::new(codec), stats: EncoderStats::default() }
    }

    /// Takes `data`, read at `now_us`, and appends every frame that is now
    /// complete to `frames`.
    pub fn on_read(&mut self, data: &[u8], now_us: u64, frames: &mut Vec<EncodedFrame>)
        requires
            old(self).well_formed(),
            old(self).pending().len() * 2 + data@.len() + EncodedFrame::HEADER_LEN <= usize::MAX,
        ensures
            final(self).well_formed(),
            final(self).codec() == old(self).codec(),
            splitter::frame_models(final(frames)@) == splitter::frame_models(old(frames)@)
                + stream_frames(old(self).codec(), old(self).pending() + data@),
            final(self).pending() == stream_remainder(
                old(self).codec(),
                old(self).pending() + data@,
            ),
            final(self).counters() == (EncoderStats {
                bytes_read: counted(old(self).counters().bytes_read, data@.len() as u64),
                last_read_us: now_us,
                ..old(self).counters()
            }),
    {
        self.stats.record_read(data.len(), now_us);
        self.splitter.push(data, frames);
    }

    /// Counts a frame that goes out.
    pub fn on_frame(&mut self, is_keyframe: bool)
        requires
            old(self).well_formed(),
        ensures
            final(self).well_formed(),
            final(self).codec() == old(self).codec(),
            final(self).pending() == old(self).pending(),
            final(self).counters() == (EncoderStats {
                frames_out: counted(old(self).counters().frames_out, 1),
                keys_out: if is_keyframe {
                    counted(old(self).counters().keys_out, 1)
                } else {
                    old(self).counters().keys_out
                },
                ..old(self).counters()
            }),
    {
        self.stats.record_frame(is_keyframe);
    }

    /// The counters as they are now.
    pub fn snapshot(&self) -> (r: EncoderStatsSnapshot)
        ensures
            r == (EncoderStatsSnapshot {
                bytes_read: self.counters().bytes_read,
                frames_out: self.counters().frames_out,
                keys_out: self.counters().keys_out,
                last_read_us: self.counters().last_read_us,
            }),
    {
        self.stats.snapshot()
    }

    /// Number of bytes that belong to no complete frame yet.
    pub fn buffered_bytes(&self) -> (n: usize)
        requires
            self.well_formed(),
        ensures
            n == self.pending().len(),
    {
        self.splitter.buffered_bytes()
    }
}

// ── Diagnostics ────────────────────────────────────────────────────

/// What to do when AMF refuses AV1.
pub const HINT_AV1_AMF: &'static str =
    "av1_amf is not supported by this GPU/driver (AMD requires RDNA3 / RX 7000+). \
             Switch to --encoder hevc_amf, --encoder h264_amf, or a software AV1 \
             encoder such as --encoder libsvtav1.";

/// What to do when NVENC is missing.
pub const HINT_NVENC: &'static str =
    "NVENC is not available (no NVIDIA GPU, missing driver, or AV1 NVENC \
             needs RTX 4000+).  Switch to a different --encoder.";

/// What to do when HEVC comes without its parameter sets.
pub const HINT_HEVC_VPS: &'static str =
    "hevc_amf is emitting an HEVC bitstream without VPS in-band and the \
             encoder's extradata isn't being prepended.  Make sure the BSF chain \
             starts with `dump_extra=freq=keyframe` (the default ships this).";

/// The hint for a line of FFmpeg's error output, if it tells of a known cause.
pub open spec fn hint_for(line: Seq<char>) -> Option<Seq<char>> {
    if text::occurs(line, "CreateComponent(AMFVideoEncoderHW_AV1) failed"@) {
        Some(HINT_AV1_AMF@)
    } else if text::occurs(line, "OpenEncodeSessionEx failed: unsupported device"@) || text::occurs(
        line,
        "Cannot load nvEncodeAPI"@,
    ) {
        Some(HINT_NVENC@)
    } else if text::occurs(line, "hevc_metadata"@) && text::occurs(
        line,
        "VPS id 0 not available"@,
    ) {
        Some(HINT_HEVC_VPS@)
    } else {
        None
    }
}

/// The hint for a line of FFmpeg's error output, if it tells of a known cause.
pub fn ffmpeg_stderr_hint(line: &str) -> (r: Option<&'static str>)
    ensures
        match r {
            Some(hint) => hint_for(line@) == Some(hint@),
            None => hint_for(line@) is None,
        },
{
    let l = text::chars_of(line);
    let l = l.as_slice();
    if text::contains(l, "CreateComponent(AMFVideoEncoderHW_AV1) failed") {
        return Some(HINT_AV1_AMF);
    }
    if text::contains(l, "OpenEncodeSessionEx failed: unsupported device") || text::contains(
        l,
        "Cannot load nvEncodeAPI",
    ) {
        return Some(HINT_NVENC);
    }
    if text::contains(l, "hevc_metadata") && text::contains(l, "VPS id 0 not available") {
        return Some(HINT_HEVC_VPS);
    }
    None
}

// ── Laws ───────────────────────────────────────────────────────────

/// Codecs have different numbers on the wire.
pub proof fn law_codec_ids_differ(a: CodecKind, b: CodecKind)
    ensures
        a.id() == b.id() ==> a == b,
{
}

/// A bitrate takes the place of the quality: with one set, the command does not
/// depend on the quality.
pub proof fn law_bitrate_takes_the_place_of_quality(cfg: EncoderConfig, quality: u8)
    requires
        cfg.bitrate_kbps is Some,
    ensures
        command_args((EncoderConfig { quality, ..cfg })) == command_args(cfg),
{
    let other = EncoderConfig { quality, ..cfg };
    let a = backends::rc_of(cfg);
    let b = backends::rc_of(other);
    assert(backends::amf_rc_args(a) == backends::amf_rc_args(b));
    assert(backends::nvenc_rc_args(a) == backends::nvenc_rc_args(b));
    assert(backends::slice_args(a) == backends::slice_args(b));
    assert(codec_args(other) == codec_args(cfg));
}

/// Slices are asked for only where more than one is wanted: the command for
/// none is that for one, and holds no slice flag.
pub proof fn law_one_slice_is_not_asked_for(cfg: EncoderConfig)
    requires
        cfg.slices <= 1,
    ensures
        command_args((EncoderConfig { slices: 0, ..cfg })) == command_args(
            (EncoderConfig { slices: 1, ..cfg }),
        ),
        backends::slice_args(backends::rc_of(cfg)) == Seq::<Seq<char>>::empty(),
        backends::software::x265_slice_args(backends::rc_of(cfg)) == Seq::<Seq<char>>::empty(),
{
    let none = EncoderConfig { slices: 0, ..cfg };
    let one = EncoderConfig { slices: 1, ..cfg };
    assert(backends::rc_of(none) == backends::rc_of(one));
    assert(codec_args(none) == codec_args(one));
}

/// FFmpeg is told to use the encoder that was asked for.
pub proof fn law_command_names_the_encoder(cfg: EncoderConfig)
    ensures
        exists|i: int|
            0 <= i && i + 1 < command_args(cfg).len() && #[trigger] command_args(cfg)[i] == "-c:v"@
                && command_args(cfg)[i + 1] == cfg.encoder_name@,
{
    let front = input_args(cfg) + colour_args(cfg) + chroma_args(cfg);
    let i = front.len() as int;
    let own = codec_args(cfg);
    assert(own.len() >= 2 && own[0] == "-c:v"@ && own[1] == cfg.encoder_name@);
    let all = command_args(cfg);
    assert(all[i] == own[0]);
    assert(all[i + 1] == own[1]);
}

/// FFmpeg reads raw frames from its standard input and writes its stream to
/// its standard output.
pub proof fn law_command_uses_the_pipes(cfg: EncoderConfig)
    ensures
        command_args(cfg)[11] == "-i"@,
        command_args(cfg)[12] == "pipe:0"@,
        command_args(cfg).last() == "pipe:1"@,
{
    let all = command_args(cfg);
    assert(all[11] == input_args(cfg)[11]);
    assert(all[12] == input_args(cfg)[12]);
    let tail = output_args(cfg);
    assert(all.last() == tail[tail.len() - 1]);
}

/// It does not matter where the encoder's output is cut into reads: the same
/// frames come out and the same bytes are left. An AV1 unit without a size
/// field runs to the end of what is there, so for AV1 the units that the first
/// read completes have one; and what waits in front of the very first temporal
/// delimiter is dropped earlier or later.
pub proof fn law_reads_can_be_cut_anywhere(codec: CodecKind, a: Seq<u8>, b: Seq<u8>)
    requires
        codec == CodecKind::Av1 ==> forall|i: int|
            0 <= i < splitter::obus(a, 0).len() ==> splitter::has_size(
                a[(#[trigger] splitter::obus(a, 0)[i]).start],
            ),
    ensures
        stream_frames(codec, a) + stream_frames(codec, stream_remainder(codec, a) + b)
            == stream_frames(codec, a + b),
        codec != CodecKind::Av1 || splitter::delimiter_starts(splitter::obus(a + b, 0)).len() != 1
            ==> stream_remainder(codec, stream_remainder(codec, a) + b) == stream_remainder(
            codec,
            a + b,
        ),
{
    match codec {
        CodecKind::H264 => splitter::law_annexb_chunking(splitter::NalSyntax::H264, a, b),
        CodecKind::Hevc => splitter::law_annexb_chunking(splitter::NalSyntax::Hevc, a, b),
        CodecKind::Av1 => splitter::law_av1_chunking(a, b),
    }
}

} // verus!
