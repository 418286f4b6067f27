//! AMD Advanced Media Framework encoders.
//!
//! `-forced_idr 1` is needed for requested key frames to be IDR frames, which
//! a decoder can resume from. `hevc_amf` repeats its parameter sets in-band
//! before every IDR frame for the bitstream filters behind it.

use super::{BackendCaps, HwVendor, RcArgs, RcModel};
use crate::encoder::{Chroma, EncoderConfig};
use crate::text;
use vstd::prelude::*;

verus! {

/// H.264 takes 4:4:4 in its High profile.
#[verifier::allow_in_spec]
pub fn caps_h264() -> BackendCaps
    returns
        (BackendCaps {
            vendor: HwVendor::Amd,
            supports_yuv444: true,
            supports_slices: true,
            min_quality: 0,
            max_quality: 51,
        }),
{
    BackendCaps {
        vendor: HwVendor::Amd,
        supports_yuv444: true,
        supports_slices: true,
        min_quality: 0,
        max_quality: 51,
    }
}

/// HEVC takes 4:4:4 in its range extensions.
#[verifier::allow_in_spec]
pub fn caps_hevc() -> BackendCaps
    returns
        (BackendCaps {
            vendor: HwVendor::Amd,
            supports_yuv444: true,
            supports_slices: true,
            min_quality: 0,
            max_quality: 51,
        }),
{
    BackendCaps {
        vendor: HwVendor::Amd,
        supports_yuv444: true,
        supports_slices: true,
        min_quality: 0,
        max_quality: 51,
    }
}

/// AV1 takes 4:2:0 only and ignores slices.
#[verifier::allow_in_spec]
pub fn caps_av1() -> BackendCaps
    returns
        (BackendCaps {
            vendor: HwVendor::Amd,
            supports_yuv444: false,
            supports_slices: false,
            min_quality: 0,
            max_quality: 63,
        }),
{
    BackendCaps {
        vendor: HwVendor::Amd,
        supports_yuv444: false,
        supports_slices: false,
        min_quality: 0,
        max_quality: 63,
    }
}

/// The flags of `h264_amf`.
pub open spec fn h264_args(cfg: EncoderConfig, rc: RcModel) -> Seq<Seq<char>> {
    seq![
        "-c:v"@,
        "h264_amf"@,
        "-usage"@,
        "ultralowlatency"@,
        "-quality"@,
        "speed"@,
        "-forced_idr"@,
        "1"@,
    ] + super::amf_rc_args(rc) + seq![
        "-profile:v"@,
        if cfg.chroma == Chroma::Yuv444 {
            "high"@
        } else {
            "main"@
        },
    ] + super::slice_args(rc)
}

/// Appends the flags of `h264_amf`.
pub fn build_h264(args: &mut Vec<String>, cfg: &EncoderConfig, rc: &RcArgs)
    ensures
        text::texts(final(args)@) == text::texts(old(args)@) + h264_args(*cfg, rc@),
{
    text::push_string(args, "-c:v");
    text::push_string(args, "h264_amf");
    text::push_string(args, "-usage");
    text::push_string(args, "ultralowlatency");
    text::push_string(args, "-quality");
    text::push_string(args, "speed");
    text::push_string(args, "-forced_idr");
    text::push_string(args, "1");
    super::amf_rc(args, rc);
    text::push_string(args, "-profile:v");
    if cfg.chroma == Chroma::Yuv444 {
        text::push_string(args, "high");
    } else {
        text::push_string(args, "main");
    }
    super::push_slices(args, rc);
    proof {
        assert(text::texts(args@) =~= text::texts(old(args)@) + h264_args(*cfg, rc@));
    }
}

/// The flags of `hevc_amf`.
pub open spec fn hevc_args(cfg: EncoderConfig, rc: RcModel) -> Seq<Seq<char>> {
    seq![
        "-c:v"@,
        "hevc_amf"@,
        "-usage"@,
        "ultralowlatency"@,
        "-quality"@,
        "speed"@,
        "-forced_idr"@,
        "1"@,
        "-header_insertion_mode"@,
        "idr"@,
    ] + super::amf_rc_args(rc) + seq![
        "-profile:v"@,
        if cfg.chroma == Chroma::Yuv444 {
            "rext"@
        } else {
            "main"@
        },
    ] + super::slice_args(rc)
}

/// Appends the flags of `hevc_amf`.
pub fn build_hevc(args: &mut Vec<String>, cfg: &EncoderConfig, rc: &RcArgs)
    ensures
        text::texts(final(args)@) == text::texts(old(args)@) + hevc_args(*cfg, rc@),
{
    text::push_string(args, "-c:v");
    text::push_string(args, "hevc_amf");
    text::push_string(args, "-usage");
    text::push_string(args, "ultralowlatency");
    text::push_string(args, "-quality");
    text::push_string(args, "speed");
    text::push_string(args, "-forced_idr");
    text::push_string(args, "1");
    text::push_string(args, "-header_insertion_mode");
    text::push_string(args, "idr");
    super::amf_rc(args, rc);
    text::push_string(args, "-profile:v");
    if cfg.chroma == Chroma::Yuv444 {
        text::push_string(args, "rext");
    } else {
        text::push_string(args, "main");
    }
    super::push_slices(args, rc);
    proof {
        assert(text::texts(args@) =~= text::texts(old(args)@) + hevc_args(*cfg, rc@));
    }
}

/// The flags of `av1_amf`.
pub open spec fn av1_args(cfg: EncoderConfig, rc: RcModel) -> Seq<Seq<char>> {
    seq![
        "-c:v"@,
        "av1_amf"@,
        "-usage"@,
        "ultralowlatency"@,
        "-quality"@,
        "speed"@,
        "-forced_idr"@,
        "1"@,
    ] + super::amf_rc_args(rc)
}

/// Appends the flags of `av1_amf`.
pub fn build_av1(args: &mut Vec<String>, cfg: &EncoderConfig, rc: &RcArgs)
    ensures
        text::texts(final(args)@) == text::texts(old(args)@) + av1_args(*cfg, rc@),
{
    text::push_string(args, "-c:v");
    text::push_string(args, "av1_amf");
    text::push_string(args, "-usage");
    text::push_string(args, "ultralowlatency");
    text::push_string(args, "-quality");
    text::push_string(args, "speed");
    text::push_string(args, "-forced_idr");
    text::push_string(args, "1");
    super::amf_rc(args, rc);
    proof {
        assert(text::texts(args@) =~= text::texts(old(args)@) + av1_args(*cfg, rc@));
    }
}

} // verus!
