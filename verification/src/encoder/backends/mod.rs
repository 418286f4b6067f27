//! What each FFmpeg encoder supports, and the flags it is run with.

pub mod amf;
pub mod generic;
pub mod mediafoundation;
pub mod nvenc;
pub mod qsv;
pub mod software;

use super::EncoderConfig;
use crate::text;
use vstd::prelude::*;

verus! {

/// The vendor of the hardware that an encoder runs on.
#[derive(Debug, Clone, Copy, PartialEq, Eq, Structural)]
pub enum HwVendor {
    Amd,
    Nvidia,
    Intel,
    Microsoft,
    Software,
    Other,
}

impl HwVendor {
    /// The lower-case name of the vendor.
    pub open spec fn name(self) -> Seq<char> {
        match self {
            HwVendor::Amd => "amd"@,
            HwVendor::Nvidia => "nvidia"@,
            HwVendor::Intel => "intel"@,
            HwVendor::Microsoft => "microsoft"@,
            HwVendor::Software => "software"@,
            HwVendor::Other => "other"@,
        }
    }

    /// The lower-case name of the vendor.
    pub fn as_str(self) -> (s: &'static str)
        ensures
            s@ == self.name(),
    {
        match self {
            HwVendor::Amd => "amd",
            HwVendor::Nvidia => "nvidia",
            HwVendor::Intel => "intel",
            HwVendor::Microsoft => "microsoft",
            HwVendor::Software => "software",
            HwVendor::Other => "other",
        }
    }
}

/// What an encoder supports. The quality range includes both ends.
#[derive(Debug, Clone, Copy, PartialEq, Eq, Structural)]
pub struct BackendCaps {
    /// Vendor of the hardware it runs on.
    pub vendor: HwVendor,
    /// Whether it takes 4:4:4 chroma.
    pub supports_yuv444: bool,
    /// Whether it honours a slice count.
    pub supports_slices: bool,
    pub min_quality: u8,
    pub max_quality: u8,
}

/// What is taken for granted of an encoder that is not known.
pub open spec fn unknown_caps() -> BackendCaps {
    BackendCaps {
        vendor: HwVendor::Other,
        supports_yuv444: false,
        supports_slices: false,
        min_quality: 0,
        max_quality: 51,
    }
}

impl BackendCaps {
    /// What is taken for granted of an encoder that is not known.
    pub fn unknown() -> (r: Self)
        ensures
            r == unknown_caps(),
    {
        BackendCaps {
            vendor: HwVendor::Other,
            supports_yuv444: false,
            supports_slices: false,
            min_quality: 0,
            max_quality: 51,
        }
    }
}

/// The encoders with a builder of their own.
#[derive(Debug, Clone, Copy, PartialEq, Eq, Structural)]
pub enum BackendId {
    /// `h264_amf`
    AmfH264,
    /// `hevc_amf`
    AmfHevc,
    /// `av1_amf`
    AmfAv1,
    /// `h264_nvenc`
    NvencH264,
    /// `hevc_nvenc`
    NvencHevc,
    /// `av1_nvenc`
    NvencAv1,
    /// `h264_qsv`
    QsvH264,
    /// `hevc_qsv`
    QsvHevc,
    /// `av1_qsv`
    QsvAv1,
    /// `h264_mf`
    MfH264,
    /// `hevc_mf`
    MfHevc,
    /// `libx264`
    X264,
    /// `libx265`
    X265,
    /// `libsvtav1`
    SvtAv1,
    /// `libaom-av1`
    AomAv1,
}

/// An encoder with a builder of its own.
pub struct Backend {
    pub name: &'static str,
    pub caps: BackendCaps,
    pub id: BackendId,
}

/// The FFmpeg name of an encoder.
pub open spec fn name_of(id: BackendId) -> Seq<char> {
    match id {
        BackendId::AmfH264 => "h264_amf"@,
        BackendId::AmfHevc => "hevc_amf"@,
        BackendId::AmfAv1 => "av1_amf"@,
        BackendId::NvencH264 => "h264_nvenc"@,
        BackendId::NvencHevc => "hevc_nvenc"@,
        BackendId::NvencAv1 => "av1_nvenc"@,
        BackendId::QsvH264 => "h264_qsv"@,
        BackendId::QsvHevc => "hevc_qsv"@,
        BackendId::QsvAv1 => "av1_qsv"@,
        BackendId::MfH264 => "h264_mf"@,
        BackendId::MfHevc => "hevc_mf"@,
        BackendId::X264 => "libx264"@,
        BackendId::X265 => "libx265"@,
        BackendId::SvtAv1 => "libsvtav1"@,
        BackendId::AomAv1 => "libaom-av1"@,
    }
}

/// What an encoder supports.
pub open spec fn caps_of(id: BackendId) -> BackendCaps {
    match id {
        BackendId::AmfH264 => amf::caps_h264(),
        BackendId::AmfHevc => amf::caps_hevc(),
        BackendId::AmfAv1 => amf::caps_av1(),
        BackendId::NvencH264 => nvenc::caps_h264(),
        BackendId::NvencHevc => nvenc::caps_hevc(),
        BackendId::NvencAv1 => nvenc::caps_av1(),
        BackendId::QsvH264 => qsv::caps_h264(),
        BackendId::QsvHevc => qsv::caps_hevc(),
        BackendId::QsvAv1 => qsv::caps_av1(),
        BackendId::MfH264 => mediafoundation::caps_h264(),
        BackendId::MfHevc => mediafoundation::caps_hevc(),
        BackendId::X264 => software::caps_x264(),
        BackendId::X265 => software::caps_x265(),
        BackendId::SvtAv1 => software::caps_svtav1(),
        BackendId::AomAv1 => software::caps_aom_av1(),
    }
}

/// The flags that an encoder is run with.
pub open spec fn args_of(id: BackendId, cfg: EncoderConfig, rc: RcModel) -> Seq<Seq<char>> {
    match id {
        BackendId::AmfH264 => amf::h264_args(cfg, rc),
        BackendId::AmfHevc => amf::hevc_args(cfg, rc),
        BackendId::AmfAv1 => amf::av1_args(cfg, rc),
        BackendId::NvencH264 => nvenc::h264_args(cfg, rc),
        BackendId::NvencHevc => nvenc::hevc_args(cfg, rc),
        BackendId::NvencAv1 => nvenc::av1_args(cfg, rc),
        BackendId::QsvH264 => qsv::h264_args(cfg, rc),
        BackendId::QsvHevc => qsv::hevc_args(cfg, rc),
        BackendId::QsvAv1 => qsv::av1_args(cfg, rc),
        BackendId::MfH264 => mediafoundation::h264_args(cfg, rc),
        BackendId::MfHevc => mediafoundation::hevc_args(cfg, rc),
        BackendId::X264 => software::x264_args(cfg, rc),
        BackendId::X265 => software::x265_args(cfg, rc),
        BackendId::SvtAv1 => software::svtav1_args(cfg, rc),
        BackendId::AomAv1 => software::aom_av1_args(cfg, rc),
    }
}

/// The encoder with the FFmpeg name `name`, if it is one of these.
pub open spec fn backend_named(name: Seq<char>) -> Option<BackendId> {
    if name == "h264_amf"@ {
        Some(BackendId::AmfH264)
    } else if name == "hevc_amf"@ {
        Some(BackendId::AmfHevc)
    } else if name == "av1_amf"@ {
        Some(BackendId::AmfAv1)
    } else if name == "h264_nvenc"@ {
        Some(BackendId::NvencH264)
    } else if name == "hevc_nvenc"@ {
        Some(BackendId::NvencHevc)
    } else if name == "av1_nvenc"@ {
        Some(BackendId::NvencAv1)
    } else if name == "h264_qsv"@ {
        Some(BackendId::QsvH264)
    } else if name == "hevc_qsv"@ {
        Some(BackendId::QsvHevc)
    } else if name == "av1_qsv"@ {
        Some(BackendId::QsvAv1)
    } else if name == "h264_mf"@ {
        Some(BackendId::MfH264)
    } else if name == "hevc_mf"@ {
        Some(BackendId::MfHevc)
    } else if name == "libx264"@ {
        Some(BackendId::X264)
    } else if name == "libx265"@ {
        Some(BackendId::X265)
    } else if name == "libsvtav1"@ {
        Some(BackendId::SvtAv1)
    } else if name == "libaom-av1"@ {
        Some(BackendId::AomAv1)
    } else {
        None
    }
}

/// Looks an encoder up by its FFmpeg name.
pub fn lookup(name: &str) -> (r: Option<Backend>)
    ensures
        match r {
            Some(b) => backend_named(name@) == Some(b.id) && b.name@ == name@ && b.caps == caps_of(
                b.id,
            ),
            None => backend_named(name@) is None,
        },
{
    if text::same(name, "h264_amf") {
        Some(Backend { name: "h264_amf", caps: amf::caps_h264(), id: BackendId::AmfH264 })
    } else if text::same(name, "hevc_amf") {
        Some(Backend { name: "hevc_amf", caps: amf::caps_hevc(), id: BackendId::AmfHevc })
    } else if text::same(name, "av1_amf") {
        Some(Backend { name: "av1_amf", caps: amf::caps_av1(), id: BackendId::AmfAv1 })
    } else if text::same(name, "h264_nvenc") {
        Some(Backend { name: "h264_nvenc", caps: nvenc::caps_h264(), id: BackendId::NvencH264 })
    } else if text::same(name, "hevc_nvenc") {
        Some(Backend { name: "hevc_nvenc", caps: nvenc::caps_hevc(), id: BackendId::NvencHevc })
    } else if text::same(name, "av1_nvenc") {
        Some(Backend { name: "av1_nvenc", caps: nvenc::caps_av1(), id: BackendId::NvencAv1 })
    } else if text::same(name, "h264_qsv") {
        Some(Backend { name: "h264_qsv", caps: qsv::caps_h264(), id: BackendId::QsvH264 })
    } else if text::same(name, "hevc_qsv") {
        Some(Backend { name: "hevc_qsv", caps: qsv::caps_hevc(), id: BackendId::QsvHevc })
    } else if text::same(name, "av1_qsv") {
        Some(Backend { name: "av1_qsv", caps: qsv::caps_av1(), id: BackendId::QsvAv1 })
    } else if text::same(name, "h264_mf") {
        Some(Backend { name: "h264_mf", caps: mediafoundation::caps_h264(), id: BackendId::MfH264 })
    } else if text::same(name, "hevc_mf") {
        Some(Backend { name: "hevc_mf", caps: mediafoundation::caps_hevc(), id: BackendId::MfHevc })
    } else if text::same(name, "libx264") {
        Some(Backend { name: "libx264", caps: software::caps_x264(), id: BackendId::X264 })
    } else if text::same(name, "libx265") {
        Some(Backend { name: "libx265", caps: software::caps_x265(), id: BackendId::X265 })
    } else if text::same(name, "libsvtav1") {
        Some(Backend { name: "libsvtav1", caps: software::caps_svtav1(), id: BackendId::SvtAv1 })
    } else if text::same(name, "libaom-av1") {
        Some(Backend { name: "libaom-av1", caps: software::caps_aom_av1(), id: BackendId::AomAv1 })
    } else {
        None
    }
}

impl Backend {
    /// Appends the flags that the encoder is run with.
    pub fn build_args(&self, args: &mut Vec<String>, cfg: &EncoderConfig, rc: &RcArgs)
        ensures
            text::texts(final(args)@) == text::texts(old(args)@) + args_of(self.id, *cfg, rc@),
    {
        match self.id {
            BackendId::AmfH264 => amf::build_h264(args, cfg, rc),
            BackendId::AmfHevc => amf::build_hevc(args, cfg, rc),
            BackendId::AmfAv1 => amf::build_av1(args, cfg, rc),
            BackendId::NvencH264 => nvenc::build_h264(args, cfg, rc),
            BackendId::NvencHevc => nvenc::build_hevc(args, cfg, rc),
            BackendId::NvencAv1 => nvenc::build_av1(args, cfg, rc),
            BackendId::QsvH264 => qsv::build_h264(args, cfg, rc),
            BackendId::QsvHevc => qsv::build_hevc(args, cfg, rc),
            BackendId::QsvAv1 => qsv::build_av1(args, cfg, rc),
            BackendId::MfH264 => mediafoundation::build_h264(args, cfg, rc),
            BackendId::MfHevc => mediafoundation::build_hevc(args, cfg, rc),
            BackendId::X264 => software::build_x264(args, cfg, rc),
            BackendId::X265 => software::build_x265(args, cfg, rc),
            BackendId::SvtAv1 => software::build_svtav1(args, cfg, rc),
            BackendId::AomAv1 => software::build_aom_av1(args, cfg, rc),
        }
    }
}

/// The encoders with a builder, the preferred ones first: hardware before
/// software, and AV1 before HEVC before H.264.
pub open spec fn known_encoders() -> Seq<Seq<char>> {
    seq![
        "av1_amf"@,
        "av1_nvenc"@,
        "av1_qsv"@,
        "hevc_amf"@,
        "hevc_nvenc"@,
        "hevc_qsv"@,
        "hevc_mf"@,
        "h264_amf"@,
        "h264_nvenc"@,
        "h264_qsv"@,
        "h264_mf"@,
        "libsvtav1"@,
        "libaom-av1"@,
        "libx265"@,
        "libx264"@,
    ]
}

/// The encoders with a builder, the preferred ones first.
pub const KNOWN_ENCODERS: [&'static str; 15] = [
    "av1_amf",
    "av1_nvenc",
    "av1_qsv",
    "hevc_amf",
    "hevc_nvenc",
    "hevc_qsv",
    "hevc_mf",
    "h264_amf",
    "h264_nvenc",
    "h264_qsv",
    "h264_mf",
    "libsvtav1",
    "libaom-av1",
    "libx265",
    "libx264",
];

/// Whether FFmpeg's name is one of a hardware encoder that rejects colour
/// tags.
pub open spec fn rejects_colour_tags(name: Seq<char>) -> bool {
    ||| name == "h264_amf"@
    ||| name == "hevc_amf"@
    ||| name == "av1_amf"@
    ||| name == "h264_nvenc"@
    ||| name == "hevc_nvenc"@
    ||| name == "av1_nvenc"@
    ||| name == "h264_qsv"@
    ||| name == "hevc_qsv"@
    ||| name == "av1_qsv"@
    ||| name == "h264_vaapi"@
    ||| name == "hevc_vaapi"@
    ||| name == "av1_vaapi"@
}

/// Whether FFmpeg's name is one of a hardware encoder that rejects colour
/// tags.
pub fn is_hw_encoder(name: &str) -> (r: bool)
    ensures
        r == rejects_colour_tags(name@),
{
    text::same(name, "h264_amf")
        || text::same(name, "hevc_amf")
        || text::same(name, "av1_amf")
        || text::same(name, "h264_nvenc")
        || text::same(name, "hevc_nvenc")
        || text::same(name, "av1_nvenc")
        || text::same(name, "h264_qsv")
        || text::same(name, "hevc_qsv")
        || text::same(name, "av1_qsv")
        || text::same(name, "h264_vaapi")
        || text::same(name, "hevc_vaapi")
        || text::same(name, "av1_vaapi")
}

/// The rate control settings, spelled out once for all builders.
#[derive(Debug, Clone)]
pub struct RcArgs {
    pub quality: String,
    pub slices: String,
    pub want_slices: bool,
    pub bitrate_arg: Option<String>,
    pub vbv_buf_arg: Option<String>,
}

/// What an [`RcArgs`] says.
pub struct RcModel {
    pub quality: Seq<char>,
    pub slices: Seq<char>,
    pub want_slices: bool,
    pub bitrate: Option<Seq<char>>,
    pub vbv_buf: Option<Seq<char>>,
}

impl View for RcArgs {
    type V = RcModel;

    open spec fn view(&self) -> RcModel {
        RcModel {
            quality: self.quality@,
            slices: self.slices@,
            want_slices: self.want_slices,
            bitrate: match self.bitrate_arg {
                Some(s) => Some(s@),
                None => None,
            },
            vbv_buf: match self.vbv_buf_arg {
                Some(s) => Some(s@),
                None => None,
            },
        }
    }
}

/// The larger of `n` and 1.
pub open spec fn at_least_one(n: u32) -> u32 {
    if n == 0 {
        1
    } else {
        n
    }
}

/// The rate control settings of a configuration. A constant bitrate gets a
/// buffer of one frame's worth of bits.
pub open spec fn rc_of(cfg: EncoderConfig) -> RcModel {
    RcModel {
        quality: text::decimal(cfg.quality as nat),
        slices: text::decimal(at_least_one(cfg.slices) as nat),
        want_slices: cfg.slices > 1,
        bitrate: match cfg.bitrate_kbps {
            Some(kb) => Some(text::decimal(kb as nat) + "k"@),
            None => None,
        },
        vbv_buf: match cfg.bitrate_kbps {
            Some(kb) => Some(text::decimal(((kb * 1000) / at_least_one(cfg.fps) as int) as nat)),
            None => None,
        },
    }
}

/// Whether the bitrate of a configuration, in bits per second, fits 32 bits.
pub open spec fn bitrate_fits(cfg: EncoderConfig) -> bool {
    match cfg.bitrate_kbps {
        Some(kb) => kb * 1000 <= u32::MAX,
        None => true,
    }
}

impl RcArgs {
    /// Spells out the rate control settings of a configuration.
    pub fn from_config(cfg: &EncoderConfig) -> (r: Self)
        requires
            bitrate_fits(*cfg),
        ensures
            r@ == rc_of(*cfg),
    {
        let slices: u32 = if cfg.slices == 0 {
            1
        } else {
            cfg.slices
        };
        let fps: u32 = if cfg.fps == 0 {
            1
        } else {
            cfg.fps
        };
        let (bitrate_arg, vbv_buf_arg) = match cfg.bitrate_kbps {
            Some(kb) => {
                let mut rate = text::decimal_string(kb as u64);
                text::push_text(&mut rate, "k");
                (Some(rate), Some(text::decimal_string(((kb * 1000) / fps) as u64)))
            },
            None => (None, None),
        };
        RcArgs {
            quality: text::decimal_string(cfg.quality as u64),
            slices: text::decimal_string(slices as u64),
            want_slices: slices > 1,
            bitrate_arg,
            vbv_buf_arg,
        }
    }
}

/// The slice count, where more than one is wanted.
pub open spec fn slice_args(rc: RcModel) -> Seq<Seq<char>> {
    if rc.want_slices {
        seq!["-slices"@, rc.slices]
    } else {
        Seq::empty()
    }
}

pub(crate) fn push_slices(args: &mut Vec<String>, rc: &RcArgs)
    ensures
        text::texts(final(args)@) == text::texts(old(args)@) + slice_args(rc@),
{
    if rc.want_slices {
        text::push_string(args, "-slices");
        text::push_string(args, rc.slices.as_str());
    }
    proof {
        assert(text::texts(args@) =~= text::texts(old(args)@) + slice_args(rc@));
    }
}

/// Appends a bitrate, as target and maximum, and a buffer size.
pub(crate) fn push_bitrate(args: &mut Vec<String>, br: &str, buf: &str)
    ensures
        text::texts(final(args)@) == text::texts(old(args)@) + seq![
            "-b:v"@,
            br@,
            "-maxrate"@,
            br@,
            "-bufsize"@,
            buf@,
        ],
{
    text::push_string(args, "-b:v");
    text::push_string(args, br);
    text::push_string(args, "-maxrate");
    text::push_string(args, br);
    text::push_string(args, "-bufsize");
    text::push_string(args, buf);
    proof {
        assert(text::texts(args@) =~= text::texts(old(args)@) + seq![
            "-b:v"@,
            br@,
            "-maxrate"@,
            br@,
            "-bufsize"@,
            buf@,
        ]);
    }
}

/// The rate control flags of AMF: a constant bitrate if one is set, else
/// constant quantisers.
pub open spec fn amf_rc_args(rc: RcModel) -> Seq<Seq<char>> {
    match (rc.bitrate, rc.vbv_buf) {
        (Some(br), Some(buf)) => seq![
            "-rc"@,
            "cbr"@,
            "-b:v"@,
            br,
            "-maxrate"@,
            br,
            "-bufsize"@,
            buf,
        ],
        _ => seq!["-rc"@, "cqp"@, "-qp_i"@, rc.quality, "-qp_p"@, rc.quality],
    }
}

/// The rate control flags of NVENC: a constant bitrate if one is set, else a
/// constant quantiser.
pub open spec fn nvenc_rc_args(rc: RcModel) -> Seq<Seq<char>> {
    match (rc.bitrate, rc.vbv_buf) {
        (Some(br), Some(buf)) => seq![
            "-rc"@,
            "cbr"@,
            "-b:v"@,
            br,
            "-maxrate"@,
            br,
            "-bufsize"@,
            buf,
        ],
        _ => seq!["-rc"@, "constqp"@, "-qp"@, rc.quality],
    }
}

pub(crate) fn amf_rc(args: &mut Vec<String>, rc: &RcArgs)
    ensures
        text::texts(final(args)@) == text::texts(old(args)@) + amf_rc_args(rc@),
{
    text::push_string(args, "-rc");
    if let (Some(br), Some(buf)) = (&rc.bitrate_arg, &rc.vbv_buf_arg) {
        text::push_string(args, "cbr");
        push_bitrate(args, br.as_str(), buf.as_str());
    } else {
        text::push_string(args, "cqp");
        text::push_string(args, "-qp_i");
        text::push_string(args, rc.quality.as_str());
        text::push_string(args, "-qp_p");
        text::push_string(args, rc.quality.as_str());
    }
    proof {
        assert(text::texts(args@) =~= text::texts(old(args)@) + amf_rc_args(rc@));
    }
}

pub(crate) fn nvenc_rc(args: &mut Vec<String>, rc: &RcArgs)
    ensures
        text::texts(final(args)@) == text::texts(old(args)@) + nvenc_rc_args(rc@),
{
    text::push_string(args, "-rc");
    if let (Some(br), Some(buf)) = (&rc.bitrate_arg, &rc.vbv_buf_arg) {
        text::push_string(args, "cbr");
        push_bitrate(args, br.as_str(), buf.as_str());
    } else {
        text::push_string(args, "constqp");
        text::push_string(args, "-qp");
        text::push_string(args, rc.quality.as_str());
    }
    proof {
        assert(text::texts(args@) =~= text::texts(old(args)@) + nvenc_rc_args(rc@));
    }
}

// ── Laws ───────────────────────────────────────────────────────────

/// Looking an encoder up by its own name finds it.
pub proof fn law_lookup_finds_each_backend(id: BackendId)
    ensures
        backend_named(name_of(id)) == Some(id),
{
    reveal_strlit("h264_amf");
    assert("h264_amf"@.len() == 8 && "h264_amf"@[0] == 'h' && "h264_amf"@[1] == '2' && "h264_amf"@[4] == '_' && "h264_amf"@[5] == 'a' && "h264_amf"@[6] == 'm');
    reveal_strlit("hevc_amf");
    assert("hevc_amf"@.len() == 8 && "hevc_amf"@[0] == 'h' && "hevc_amf"@[1] == 'e' && "hevc_amf"@[4] == '_' && "hevc_amf"@[5] == 'a' && "hevc_amf"@[6] == 'm');
    reveal_strlit("av1_amf");
    assert("av1_amf"@.len() == 7 && "av1_amf"@[0] == 'a' && "av1_amf"@[1] == 'v' && "av1_amf"@[4] == 'a' && "av1_amf"@[5] == 'm' && "av1_amf"@[6] == 'f');
    reveal_strlit("h264_nvenc");
    assert("h264_nvenc"@.len() == 10 && "h264_nvenc"@[0] == 'h' && "h264_nvenc"@[1] == '2' && "h264_nvenc"@[4] == '_' && "h264_nvenc"@[5] == 'n' && "h264_nvenc"@[6] == 'v');
    reveal_strlit("hevc_nvenc");
    assert("hevc_nvenc"@.len() == 10 && "hevc_nvenc"@[0] == 'h' && "hevc_nvenc"@[1] == 'e' && "hevc_nvenc"@[4] == '_' && "hevc_nvenc"@[5] == 'n' && "hevc_nvenc"@[6] == 'v');
    reveal_strlit("av1_nvenc");
    assert("av1_nvenc"@.len() == 9 && "av1_nvenc"@[0] == 'a' && "av1_nvenc"@[1] == 'v' && "av1_nvenc"@[4] == 'n' && "av1_nvenc"@[5] == 'v' && "av1_nvenc"@[6] == 'e');
    reveal_strlit("h264_qsv");
    assert("h264_qsv"@.len() == 8 && "h264_qsv"@[0] == 'h' && "h264_qsv"@[1] == '2' && "h264_qsv"@[4] == '_' && "h264_qsv"@[5] == 'q' && "h264_qsv"@[6] == 's');
    reveal_strlit("hevc_qsv");
    assert("hevc_qsv"@.len() == 8 && "hevc_qsv"@[0] == 'h' && "hevc_qsv"@[1] == 'e' && "hevc_qsv"@[4] == '_' && "hevc_qsv"@[5] == 'q' && "hevc_qsv"@[6] == 's');
    reveal_strlit("av1_qsv");
    assert("av1_qsv"@.len() == 7 && "av1_qsv"@[0] == 'a' && "av1_qsv"@[1] == 'v' && "av1_qsv"@[4] == 'q' && "av1_qsv"@[5] == 's' && "av1_qsv"@[6] == 'v');
    reveal_strlit("h264_mf");
    assert("h264_mf"@.len() == 7 && "h264_mf"@[0] == 'h' && "h264_mf"@[1] == '2' && "h264_mf"@[4] == '_' && "h264_mf"@[5] == 'm' && "h264_mf"@[6] == 'f');
    reveal_strlit("hevc_mf");
    assert("hevc_mf"@.len() == 7 && "hevc_mf"@[0] == 'h' && "hevc_mf"@[1] == 'e' && "hevc_mf"@[4] == '_' && "hevc_mf"@[5] == 'm' && "hevc_mf"@[6] == 'f');
    reveal_strlit("libx264");
    assert("libx264"@.len() == 7 && "libx264"@[0] == 'l' && "libx264"@[1] == 'i' && "libx264"@[4] == '2' && "libx264"@[5] == '6' && "libx264"@[6] == '4');
    reveal_strlit("libx265");
    assert("libx265"@.len() == 7 && "libx265"@[0] == 'l' && "libx265"@[1] == 'i' && "libx265"@[4] == '2' && "libx265"@[5] == '6' && "libx265"@[6] == '5');
    reveal_strlit("libsvtav1");
    assert("libsvtav1"@.len() == 9 && "libsvtav1"@[0] == 'l' && "libsvtav1"@[1] == 'i' && "libsvtav1"@[4] == 'v' && "libsvtav1"@[5] == 't' && "libsvtav1"@[6] == 'a');
    reveal_strlit("libaom-av1");
    assert("libaom-av1"@.len() == 10 && "libaom-av1"@[0] == 'l' && "libaom-av1"@[1] == 'i' && "libaom-av1"@[4] == 'o' && "libaom-av1"@[5] == 'm' && "libaom-av1"@[6] == '-');
}

/// Every encoder with a builder is in the list of known encoders, and every
/// one of those has a builder.
pub proof fn law_known_encoders_are_the_backends(id: BackendId, i: int)
    ensures
        known_encoders().contains(name_of(id)),
        0 <= i < known_encoders().len() ==> backend_named(known_encoders()[i]) is Some,
{
    let k = known_encoders();
    assert(k[7] == "h264_amf"@);
    assert(k[3] == "hevc_amf"@);
    assert(k[0] == "av1_amf"@);
    assert(k[8] == "h264_nvenc"@);
    assert(k[4] == "hevc_nvenc"@);
    assert(k[1] == "av1_nvenc"@);
    assert(k[9] == "h264_qsv"@);
    assert(k[5] == "hevc_qsv"@);
    assert(k[2] == "av1_qsv"@);
    assert(k[10] == "h264_mf"@);
    assert(k[6] == "hevc_mf"@);
    assert(k[14] == "libx264"@);
    assert(k[13] == "libx265"@);
    assert(k[11] == "libsvtav1"@);
    assert(k[12] == "libaom-av1"@);
}

} // verus!
