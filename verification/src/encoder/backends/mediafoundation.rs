//! Microsoft Media Foundation encoders. Quality is on a scale from 0 to 100.

use super::{BackendCaps, HwVendor, RcArgs, RcModel};
use crate::encoder::{Chroma, EncoderConfig};
use crate::text;
use vstd::prelude::*;

verus! {

/// H.264 takes 4:2:0 only and ignores slices.
#[verifier::allow_in_spec]
pub fn caps_h264() -> BackendCaps
    returns
        (BackendCaps {
            vendor: HwVendor::Microsoft,
            supports_yuv444: false,
            supports_slices: false,
            min_quality: 0,
            max_quality: 100,
        }),
{
    BackendCaps {
        vendor: HwVendor::Microsoft,
        supports_yuv444: false,
        supports_slices: false,
        min_quality: 0,
        max_quality: 100,
    }
}

/// HEVC takes 4:2:0 only and ignores slices.
#[verifier::allow_in_spec]
pub fn caps_hevc() -> BackendCaps
    returns
        (BackendCaps {
            vendor: HwVendor::Microsoft,
            supports_yuv444: false,
            supports_slices: false,
            min_quality: 0,
            max_quality: 100,
        }),
{
    BackendCaps {
        vendor: HwVendor::Microsoft,
        supports_yuv444: false,
        supports_slices: false,
        min_quality: 0,
        max_quality: 100,
    }
}

/// The rate control flags: a constant bitrate if one is set, else a quality.
pub open spec fn rc_args(rc: RcModel) -> Seq<Seq<char>> {
    match rc.bitrate {
        Some(br) => seq!["-rate_control"@, "cbr"@, "-b:v"@, br],
        None => seq!["-rate_control"@, "quality"@, "-quality"@, rc.quality],
    }
}

fn mf_rc(args: &mut Vec<String>, rc: &RcArgs)
    ensures
        text::texts(final(args)@) == text::texts(old(args)@) + rc_args(rc@),
{
    text::push_string(args, "-rate_control");
    if let Some(br) = &rc.bitrate_arg {
        text::push_string(args, "cbr");
        text::push_string(args, "-b:v");
        text::push_string(args, br.as_str());
    } else {
        text::push_string(args, "quality");
        text::push_string(args, "-quality");
        text::push_string(args, rc.quality.as_str());
    }
    proof {
        assert(text::texts(args@) =~= text::texts(old(args)@) + rc_args(rc@));
    }
}

/// The flags of `h264_mf`.
pub open spec fn h264_args(cfg: EncoderConfig, rc: RcModel) -> Seq<Seq<char>> {
    seq![
        "-c:v"@,
        "h264_mf"@,
        "-scenario"@,
        "live_streaming"@,
        "-hw_encoding"@,
        "true"@,
    ] + rc_args(rc)
}

/// Appends the flags of `h264_mf`.
pub fn build_h264(args: &mut Vec<String>, cfg: &EncoderConfig, rc: &RcArgs)
    ensures
        text::texts(final(args)@) == text::texts(old(args)@) + h264_args(*cfg, rc@),
{
    text::push_string(args, "-c:v");
    text::push_string(args, "h264_mf");
    text::push_string(args, "-scenario");
    text::push_string(args, "live_streaming");
    text::push_string(args, "-hw_encoding");
    text::push_string(args, "true");
    mf_rc(args, rc);
    proof {
        assert(text::texts(args@) =~= text::texts(old(args)@) + h264_args(*cfg, rc@));
    }
}

/// The flags of `hevc_mf`.
pub open spec fn hevc_args(cfg: EncoderConfig, rc: RcModel) -> Seq<Seq<char>> {
    seq![
        "-c:v"@,
        "hevc_mf"@,
        "-scenario"@,
        "live_streaming"@,
        "-hw_encoding"@,
        "true"@,
    ] + rc_args(rc)
}

/// Appends the flags of `hevc_mf`.
pub fn build_hevc(args: &mut Vec<String>, cfg: &EncoderConfig, rc: &RcArgs)
    ensures
        text::texts(final(args)@) == text::texts(old(args)@) + hevc_args(*cfg, rc@),
{
    text::push_string(args, "-c:v");
    text::push_string(args, "hevc_mf");
    text::push_string(args, "-scenario");
    text::push_string(args, "live_streaming");
    text::push_string(args, "-hw_encoding");
    text::push_string(args, "true");
    mf_rc(args, rc);
    proof {
        assert(text::texts(args@) =~= text::texts(old(args)@) + hevc_args(*cfg, rc@));
    }
}

} // verus!
