//! Software encoders.

use super::{BackendCaps, HwVendor, RcArgs, RcModel};
use crate::encoder::{Chroma, EncoderConfig};
use crate::text;
use vstd::prelude::*;

verus! {

/// libx264 takes 4:4:4.
#[verifier::allow_in_spec]
pub fn caps_x264() -> BackendCaps
    returns
        (BackendCaps {
            vendor: HwVendor::Software,
            supports_yuv444: true,
            supports_slices: true,
            min_quality: 0,
            max_quality: 51,
        }),
{
    BackendCaps {
        vendor: HwVendor::Software,
        supports_yuv444: true,
        supports_slices: true,
        min_quality: 0,
        max_quality: 51,
    }
}

/// libx265 takes 4:4:4.
#[verifier::allow_in_spec]
pub fn caps_x265() -> BackendCaps
    returns
        (BackendCaps {
            vendor: HwVendor::Software,
            supports_yuv444: true,
            supports_slices: true,
            min_quality: 0,
            max_quality: 51,
        }),
{
    BackendCaps {
        vendor: HwVendor::Software,
        supports_yuv444: true,
        supports_slices: true,
        min_quality: 0,
        max_quality: 51,
    }
}

/// libsvtav1 takes 4:2:0 only and ignores slices.
#[verifier::allow_in_spec]
pub fn caps_svtav1() -> BackendCaps
    returns
        (BackendCaps {
            vendor: HwVendor::Software,
            supports_yuv444: false,
            supports_slices: false,
            min_quality: 0,
            max_quality: 63,
        }),
{
    BackendCaps {
        vendor: HwVendor::Software,
        supports_yuv444: false,
        supports_slices: false,
        min_quality: 0,
        max_quality: 63,
    }
}

/// libaom-av1 takes 4:4:4 and ignores slices.
#[verifier::allow_in_spec]
pub fn caps_aom_av1() -> BackendCaps
    returns
        (BackendCaps {
            vendor: HwVendor::Software,
            supports_yuv444: true,
            supports_slices: false,
            min_quality: 0,
            max_quality: 63,
        }),
{
    BackendCaps {
        vendor: HwVendor::Software,
        supports_yuv444: true,
        supports_slices: false,
        min_quality: 0,
        max_quality: 63,
    }
}

/// The rate control flags: a constant bitrate if one is set, else a constant
/// rate factor.
pub open spec fn rc_args(rc: RcModel) -> Seq<Seq<char>> {
    match (rc.bitrate, rc.vbv_buf) {
        (Some(br), Some(buf)) => seq!["-b:v"@, br, "-maxrate"@, br, "-bufsize"@, buf],
        _ => seq!["-crf"@, rc.quality],
    }
}

/// What libaom-av1 needs besides: constant quality with no bitrate cap.
pub open spec fn uncapped_args(rc: RcModel) -> Seq<Seq<char>> {
    match (rc.bitrate, rc.vbv_buf) {
        (Some(br), Some(buf)) => Seq::empty(),
        _ => seq!["-b:v"@, "0"@],
    }
}

/// libx265 takes the slice count as a parameter of its own.
pub open spec fn x265_slice_args(rc: RcModel) -> Seq<Seq<char>> {
    if rc.want_slices {
        seq!["-x265-params"@, "slices="@ + rc.slices]
    } else {
        Seq::empty()
    }
}

fn software_rc(args: &mut Vec<String>, rc: &RcArgs) -> (capped: bool)
    ensures
        text::texts(final(args)@) == text::texts(old(args)@) + rc_args(rc@),
        capped == (uncapped_args(rc@).len() == 0),
{
    let capped: bool = if let (Some(br), Some(buf)) = (&rc.bitrate_arg, &rc.vbv_buf_arg) {
        super::push_bitrate(args, br.as_str(), buf.as_str());
        true
    } else {
        text::push_string(args, "-crf");
        text::push_string(args, rc.quality.as_str());
        false
    };
    proof {
        assert(text::texts(args@) =~= text::texts(old(args)@) + rc_args(rc@));
    }
    capped
}

/// The flags of `libx264`.
pub open spec fn x264_args(cfg: EncoderConfig, rc: RcModel) -> Seq<Seq<char>> {
    seq![
        "-c:v"@,
        "libx264"@,
        "-preset"@,
        "ultrafast"@,
        "-tune"@,
        "zerolatency"@,
    ] + rc_args(rc) + seq![
        "-profile:v"@,
        if cfg.chroma == Chroma::Yuv444 {
            "high444"@
        } else {
            "baseline"@
        },
    ] + super::slice_args(rc)
}

/// Appends the flags of `libx264`.
pub fn build_x264(args: &mut Vec<String>, cfg: &EncoderConfig, rc: &RcArgs)
    ensures
        text::texts(final(args)@) == text::texts(old(args)@) + x264_args(*cfg, rc@),
{
    text::push_string(args, "-c:v");
    text::push_string(args, "libx264");
    text::push_string(args, "-preset");
    text::push_string(args, "ultrafast");
    text::push_string(args, "-tune");
    text::push_string(args, "zerolatency");
    software_rc(args, rc);
    text::push_string(args, "-profile:v");
    if cfg.chroma == Chroma::Yuv444 {
        text::push_string(args, "high444");
    } else {
        text::push_string(args, "baseline");
    }
    super::push_slices(args, rc);
    proof {
        assert(text::texts(args@) =~= text::texts(old(args)@) + x264_args(*cfg, rc@));
    }
}

/// The flags of `libx265`.
pub open spec fn x265_args(cfg: EncoderConfig, rc: RcModel) -> Seq<Seq<char>> {
    seq![
        "-c:v"@,
        "libx265"@,
        "-preset"@,
        "ultrafast"@,
        "-tune"@,
        "zerolatency"@,
    ] + rc_args(rc) + x265_slice_args(rc)
}

/// Appends the flags of `libx265`.
pub fn build_x265(args: &mut Vec<String>, cfg: &EncoderConfig, rc: &RcArgs)
    ensures
        text::texts(final(args)@) == text::texts(old(args)@) + x265_args(*cfg, rc@),
{
    text::push_string(args, "-c:v");
    text::push_string(args, "libx265");
    text::push_string(args, "-preset");
    text::push_string(args, "ultrafast");
    text::push_string(args, "-tune");
    text::push_string(args, "zerolatency");
    software_rc(args, rc);
    if rc.want_slices {
        let mut slices = "slices=".to_owned();
        text::push_text(&mut slices, rc.slices.as_str());
        text::push_string(args, "-x265-params");
        text::push_string(args, slices.as_str());
    }
    proof {
        assert(text::texts(args@) =~= text::texts(old(args)@) + x265_args(*cfg, rc@));
    }
}

/// The flags of `libsvtav1`.
pub open spec fn svtav1_args(cfg: EncoderConfig, rc: RcModel) -> Seq<Seq<char>> {
    seq![
        "-c:v"@,
        "libsvtav1"@,
        "-preset"@,
        "12"@,
        "-svtav1-params"@,
        "low-latency=1:tune=0"@,
    ] + rc_args(rc)
}

/// Appends the flags of `libsvtav1`.
pub fn build_svtav1(args: &mut Vec<String>, cfg: &EncoderConfig, rc: &RcArgs)
    ensures
        text::texts(final(args)@) == text::texts(old(args)@) + svtav1_args(*cfg, rc@),
{
    text::push_string(args, "-c:v");
    text::push_string(args, "libsvtav1");
    text::push_string(args, "-preset");
    text::push_string(args, "12");
    text::push_string(args, "-svtav1-params");
    text::push_string(args, "low-latency=1:tune=0");
    software_rc(args, rc);
    proof {
        assert(text::texts(args@) =~= text::texts(old(args)@) + svtav1_args(*cfg, rc@));
    }
}

/// The flags of `libaom-av1`.
pub open spec fn aom_av1_args(cfg: EncoderConfig, rc: RcModel) -> Seq<Seq<char>> {
    seq![
        "-c:v"@,
        "libaom-av1"@,
        "-cpu-used"@,
        "8"@,
        "-row-mt"@,
        "1"@,
        "-tile-columns"@,
        "2"@,
        "-tile-rows"@,
        "1"@,
        "-usage"@,
        "realtime"@,
    ] + rc_args(rc) + uncapped_args(rc)
}

/// Appends the flags of `libaom-av1`.
pub fn build_aom_av1(args: &mut Vec<String>, cfg: &EncoderConfig, rc: &RcArgs)
    ensures
        text::texts(final(args)@) == text::texts(old(args)@) + aom_av1_args(*cfg, rc@),
{
    text::push_string(args, "-c:v");
    text::push_string(args, "libaom-av1");
    text::push_string(args, "-cpu-used");
    text::push_string(args, "8");
    text::push_string(args, "-row-mt");
    text::push_string(args, "1");
    text::push_string(args, "-tile-columns");
    text::push_string(args, "2");
    text::push_string(args, "-tile-rows");
    text::push_string(args, "1");
    text::push_string(args, "-usage");
    text::push_string(args, "realtime");
    let capped: bool = software_rc(args, rc);
    if !capped {
        text::push_string(args, "-b:v");
        text::push_string(args, "0");
    }
    proof {
        assert(text::texts(args@) =~= text::texts(old(args)@) + aom_av1_args(*cfg, rc@));
    }
}

} // verus!
