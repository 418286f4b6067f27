//! NVIDIA NVENC encoders.

use super::{BackendCaps, HwVendor, RcArgs, RcModel};
use crate::encoder::{Chroma, EncoderConfig};
use crate::text;
use vstd::prelude::*;

verus! {

/// H.264 takes 4:4:4 in its High 4:4:4 Predictive profile.
#[verifier::allow_in_spec]
pub fn caps_h264() -> BackendCaps
    returns
        (BackendCaps {
            vendor: HwVendor::Nvidia,
            supports_yuv444: true,
            supports_slices: true,
            min_quality: 0,
            max_quality: 51,
        }),
{
    BackendCaps {
        vendor: HwVendor::Nvidia,
        supports_yuv444: true,
        supports_slices: true,
        min_quality: 0,
        max_quality: 51,
    }
}

/// HEVC takes 4:4:4.
#[verifier::allow_in_spec]
pub fn caps_hevc() -> BackendCaps
    returns
        (BackendCaps {
            vendor: HwVendor::Nvidia,
            supports_yuv444: true,
            supports_slices: true,
            min_quality: 0,
            max_quality: 51,
        }),
{
    BackendCaps {
        vendor: HwVendor::Nvidia,
        supports_yuv444: true,
        supports_slices: true,
        min_quality: 0,
        max_quality: 51,
    }
}

/// AV1 takes 4:2:0 only and ignores slices.
#[verifier::allow_in_spec]
pub fn caps_av1() -> BackendCaps
    returns
        (BackendCaps {
            vendor: HwVendor::Nvidia,
            supports_yuv444: false,
            supports_slices: false,
            min_quality: 0,
            max_quality: 63,
        }),
{
    BackendCaps {
        vendor: HwVendor::Nvidia,
        supports_yuv444: false,
        supports_slices: false,
        min_quality: 0,
        max_quality: 63,
    }
}

/// The flags of `h264_nvenc`.
pub open spec fn h264_args(cfg: EncoderConfig, rc: RcModel) -> Seq<Seq<char>> {
    seq![
        "-c:v"@,
        "h264_nvenc"@,
        "-preset"@,
        "p1"@,
        "-tune"@,
        "ull"@,
        "-zerolatency"@,
        "1"@,
    ] + super::nvenc_rc_args(rc) + super::slice_args(rc)
}

/// Appends the flags of `h264_nvenc`.
pub fn build_h264(args: &mut Vec<String>, cfg: &EncoderConfig, rc: &RcArgs)
    ensures
        text::texts(final(args)@) == text::texts(old(args)@) + h264_args(*cfg, rc@),
{
    text::push_string(args, "-c:v");
    text::push_string(args, "h264_nvenc");
    text::push_string(args, "-preset");
    text::push_string(args, "p1");
    text::push_string(args, "-tune");
    text::push_string(args, "ull");
    text::push_string(args, "-zerolatency");
    text::push_string(args, "1");
    super::nvenc_rc(args, rc);
    super::push_slices(args, rc);
    proof {
        assert(text::texts(args@) =~= text::texts(old(args)@) + h264_args(*cfg, rc@));
    }
}

/// The flags of `hevc_nvenc`.
pub open spec fn hevc_args(cfg: EncoderConfig, rc: RcModel) -> Seq<Seq<char>> {
    seq![
        "-c:v"@,
        "hevc_nvenc"@,
        "-preset"@,
        "p1"@,
        "-tune"@,
        "ull"@,
        "-zerolatency"@,
        "1"@,
    ] + super::nvenc_rc_args(rc) + super::slice_args(rc)
}

/// Appends the flags of `hevc_nvenc`.
pub fn build_hevc(args: &mut Vec<String>, cfg: &EncoderConfig, rc: &RcArgs)
    ensures
        text::texts(final(args)@) == text::texts(old(args)@) + hevc_args(*cfg, rc@),
{
    text::push_string(args, "-c:v");
    text::push_string(args, "hevc_nvenc");
    text::push_string(args, "-preset");
    text::push_string(args, "p1");
    text::push_string(args, "-tune");
    text::push_string(args, "ull");
    text::push_string(args, "-zerolatency");
    text::push_string(args, "1");
    super::nvenc_rc(args, rc);
    super::push_slices(args, rc);
    proof {
        assert(text::texts(args@) =~= text::texts(old(args)@) + hevc_args(*cfg, rc@));
    }
}

/// The flags of `av1_nvenc`.
pub open spec fn av1_args(cfg: EncoderConfig, rc: RcModel) -> Seq<Seq<char>> {
    seq![
        "-c:v"@,
        "av1_nvenc"@,
        "-preset"@,
        "p1"@,
        "-tune"@,
        "ull"@,
        "-zerolatency"@,
        "1"@,
    ] + super::nvenc_rc_args(rc)
}

/// Appends the flags of `av1_nvenc`.
pub fn build_av1(args: &mut Vec<String>, cfg: &EncoderConfig, rc: &RcArgs)
    ensures
        text::texts(final(args)@) == text::texts(old(args)@) + av1_args(*cfg, rc@),
{
    text::push_string(args, "-c:v");
    text::push_string(args, "av1_nvenc");
    text::push_string(args, "-preset");
    text::push_string(args, "p1");
    text::push_string(args, "-tune");
    text::push_string(args, "ull");
    text::push_string(args, "-zerolatency");
    text::push_string(args, "1");
    super::nvenc_rc(args, rc);
    proof {
        assert(text::texts(args@) =~= text::texts(old(args)@) + av1_args(*cfg, rc@));
    }
}

} // verus!
