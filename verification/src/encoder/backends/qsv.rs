//! Intel Quick Sync Video encoders. Quality goes through `-global_quality`;
//! `-low_power 1` selects the fixed-function path.

use super::{BackendCaps, HwVendor, RcArgs, RcModel};
use crate::encoder::{Chroma, EncoderConfig};
use crate::text;
use vstd::prelude::*;

verus! {

/// H.264 takes 4:2:0 only.
#[verifier::allow_in_spec]
pub fn caps_h264() -> BackendCaps
    returns
        (BackendCaps {
            vendor: HwVendor::Intel,
            supports_yuv444: false,
            supports_slices: true,
            min_quality: 1,
            max_quality: 51,
        }),
{
    BackendCaps {
        vendor: HwVendor::Intel,
        supports_yuv444: false,
        supports_slices: true,
        min_quality: 1,
        max_quality: 51,
    }
}

/// HEVC takes 4:2:0 only.
#[verifier::allow_in_spec]
pub fn caps_hevc() -> BackendCaps
    returns
        (BackendCaps {
            vendor: HwVendor::Intel,
            supports_yuv444: false,
            supports_slices: true,
            min_quality: 1,
            max_quality: 51,
        }),
{
    BackendCaps {
        vendor: HwVendor::Intel,
        supports_yuv444: false,
        supports_slices: true,
        min_quality: 1,
        max_quality: 51,
    }
}

/// AV1 takes 4:2:0 only and ignores slices.
#[verifier::allow_in_spec]
pub fn caps_av1() -> BackendCaps
    returns
        (BackendCaps {
            vendor: HwVendor::Intel,
            supports_yuv444: false,
            supports_slices: false,
            min_quality: 1,
            max_quality: 63,
        }),
{
    BackendCaps {
        vendor: HwVendor::Intel,
        supports_yuv444: false,
        supports_slices: false,
        min_quality: 1,
        max_quality: 63,
    }
}

/// The rate control flags: a constant bitrate if one is set, else intelligent
/// constant quality.
pub open spec fn rc_args(rc: RcModel) -> Seq<Seq<char>> {
    match (rc.bitrate, rc.vbv_buf) {
        (Some(br), Some(buf)) => seq!["-b:v"@, br, "-maxrate"@, br, "-bufsize"@, buf],
        _ => seq!["-global_quality"@, rc.quality],
    }
}

fn qsv_rc(args: &mut Vec<String>, rc: &RcArgs)
    ensures
        text::texts(final(args)@) == text::texts(old(args)@) + rc_args(rc@),
{
    if let (Some(br), Some(buf)) = (&rc.bitrate_arg, &rc.vbv_buf_arg) {
        super::push_bitrate(args, br.as_str(), buf.as_str());
    } else {
        text::push_string(args, "-global_quality");
        text::push_string(args, rc.quality.as_str());
    }
    proof {
        assert(text::texts(args@) =~= text::texts(old(args)@) + rc_args(rc@));
    }
}

/// The flags of `h264_qsv`.
pub open spec fn h264_args(cfg: EncoderConfig, rc: RcModel) -> Seq<Seq<char>> {
    seq![
        "-c:v"@,
        "h264_qsv"@,
        "-preset"@,
        "veryfast"@,
        "-low_power"@,
        "1"@,
        "-async_depth"@,
        "1"@,
    ] + rc_args(rc) + super::slice_args(rc)
}

/// Appends the flags of `h264_qsv`.
pub fn build_h264(args: &mut Vec<String>, cfg: &EncoderConfig, rc: &RcArgs)
    ensures
        text::texts(final(args)@) == text::texts(old(args)@) + h264_args(*cfg, rc@),
{
    text::push_string(args, "-c:v");
    text::push_string(args, "h264_qsv");
    text::push_string(args, "-preset");
    text::push_string(args, "veryfast");
    text::push_string(args, "-low_power");
    text::push_string(args, "1");
    text::push_string(args, "-async_depth");
    text::push_string(args, "1");
    qsv_rc(args, rc);
    super::push_slices(args, rc);
    proof {
        assert(text::texts(args@) =~= text::texts(old(args)@) + h264_args(*cfg, rc@));
    }
}

/// The flags of `hevc_qsv`.
pub open spec fn hevc_args(cfg: EncoderConfig, rc: RcModel) -> Seq<Seq<char>> {
    seq![
        "-c:v"@,
        "hevc_qsv"@,
        "-preset"@,
        "veryfast"@,
        "-low_power"@,
        "1"@,
        "-async_depth"@,
        "1"@,
    ] + rc_args(rc) + super::slice_args(rc)
}

/// Appends the flags of `hevc_qsv`.
pub fn build_hevc(args: &mut Vec<String>, cfg: &EncoderConfig, rc: &RcArgs)
    ensures
        text::texts(final(args)@) == text::texts(old(args)@) + hevc_args(*cfg, rc@),
{
    text::push_string(args, "-c:v");
    text::push_string(args, "hevc_qsv");
    text::push_string(args, "-preset");
    text::push_string(args, "veryfast");
    text::push_string(args, "-low_power");
    text::push_string(args, "1");
    text::push_string(args, "-async_depth");
    text::push_string(args, "1");
    qsv_rc(args, rc);
    super::push_slices(args, rc);
    proof {
        assert(text::texts(args@) =~= text::texts(old(args)@) + hevc_args(*cfg, rc@));
    }
}

/// The flags of `av1_qsv`.
pub open spec fn av1_args(cfg: EncoderConfig, rc: RcModel) -> Seq<Seq<char>> {
    seq![
        "-c:v"@,
        "av1_qsv"@,
        "-preset"@,
        "veryfast"@,
        "-low_power"@,
        "1"@,
        "-async_depth"@,
        "1"@,
    ] + rc_args(rc)
}

/// Appends the flags of `av1_qsv`.
pub fn build_av1(args: &mut Vec<String>, cfg: &EncoderConfig, rc: &RcArgs)
    ensures
        text::texts(final(args)@) == text::texts(old(args)@) + av1_args(*cfg, rc@),
{
    text::push_string(args, "-c:v");
    text::push_string(args, "av1_qsv");
    text::push_string(args, "-preset");
    text::push_string(args, "veryfast");
    text::push_string(args, "-low_power");
    text::push_string(args, "1");
    text::push_string(args, "-async_depth");
    text::push_string(args, "1");
    qsv_rc(args, rc);
    proof {
        assert(text::texts(args@) =~= text::texts(old(args)@) + av1_args(*cfg, rc@));
    }
}

} // verus!
