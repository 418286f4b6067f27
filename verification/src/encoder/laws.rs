//! What an FFmpeg command line says, flag by flag, for every configuration.

use super::backends;
use super::backends::{BackendId, HwVendor};
use super::splitter;
use super::validate;
use super::validate::Problem;
use super::{Chroma, CodecKind, EncoderConfig};
use crate::text;
use vstd::prelude::*;

verus! {

/// Whether `flag` stands in `args` with `value` right behind it.
pub open spec fn passes(args: Seq<Seq<char>>, flag: Seq<char>, value: Seq<char>) -> bool {
    exists|i: int|
        0 <= i && i + 1 < args.len() && #[trigger] args[i] == flag && args[i + 1] == value
}

/// The part of a command in front of the encoder's own arguments.
spec fn front_of(cfg: EncoderConfig) -> Seq<Seq<char>> {
    super::input_args(cfg) + super::colour_args(cfg) + super::chroma_args(cfg)
}

/// The part of a command behind the encoder's own arguments.
spec fn back_of(cfg: EncoderConfig) -> Seq<Seq<char>> {
    super::latency_args(cfg) + super::output_args(cfg)
}

proof fn lemma_parts(cfg: EncoderConfig)
    ensures
        super::command_args(cfg) == front_of(cfg) + super::codec_args(cfg) + back_of(cfg),
{
    assert(super::command_args(cfg) =~= front_of(cfg) + super::codec_args(cfg) + back_of(cfg));
}

/// A flag among the encoder's own arguments is one of the command.
proof fn lemma_own(cfg: EncoderConfig, k: int)
    requires
        0 <= k && k + 1 < super::codec_args(cfg).len(),
    ensures
        passes(super::command_args(cfg), super::codec_args(cfg)[k], super::codec_args(cfg)[k + 1]),
{
    lemma_parts(cfg);
    let i = front_of(cfg).len() + k;
    let all = super::command_args(cfg);
    assert(all[i] == super::codec_args(cfg)[k]);
    assert(all[i + 1] == super::codec_args(cfg)[k + 1]);
}

/// FFmpeg is told to write a stream that can be split into access units: H.264
/// and HEVC get an access unit delimiter in front of every picture, HEVC gets
/// its parameter sets with every key frame, and the format in front of the
/// output pipe is the raw one of the codec.
pub proof fn law_output_can_be_split(cfg: EncoderConfig)
    ensures
        ({
            let args = super::command_args(cfg);
            let n = args.len();
            &&& n >= 5
            &&& args[n - 3] == "-f"@
            &&& args[n - 1] == "pipe:1"@
            &&& args[n - 2] == match cfg.codec {
                CodecKind::H264 => "h264"@,
                CodecKind::Hevc => "hevc"@,
                CodecKind::Av1 => "obu"@,
            }
            &&& cfg.codec != CodecKind::Av1 ==> args[n - 5] == "-bsf:v"@ && text::occurs(
                args[n - 4],
                "aud=insert"@,
            )
            &&& cfg.codec == CodecKind::Hevc ==> text::occurs(
                args[n - 4],
                "dump_extra=freq=keyframe"@,
            )
        }),
{
    let args = super::command_args(cfg);
    let n = args.len();
    let tail = super::output_args(cfg);
    assert(forall|i: int|
        0 <= i < tail.len() ==> #[trigger] tail[i] == args[args.len() - tail.len() + i]);
    match cfg.codec {
        CodecKind::H264 => {
            assert(tail.len() == 5);
            assert(args[n - 5] == tail[0] && args[n - 4] == tail[1] && args[n - 3] == tail[2]
                && args[n - 2] == tail[3] && args[n - 1] == tail[4]);
            reveal_strlit("h264_metadata=aud=insert");
            reveal_strlit("aud=insert");
            let t = "h264_metadata=aud=insert"@;
            assert(t.subrange(14, 24) =~= "aud=insert"@);
            assert(t =~= t.take(14) + "aud=insert"@ + t.skip(24));
            text::law_occurs_means_surrounded(t, t.take(14), "aud=insert"@, t.skip(24));
        },
        CodecKind::Hevc => {
            assert(tail.len() == 5);
            assert(args[n - 5] == tail[0] && args[n - 4] == tail[1] && args[n - 3] == tail[2]
                && args[n - 2] == tail[3] && args[n - 1] == tail[4]);
            reveal_strlit("dump_extra=freq=keyframe,hevc_metadata=aud=insert");
            reveal_strlit("aud=insert");
            reveal_strlit("dump_extra=freq=keyframe");
            let t = "dump_extra=freq=keyframe,hevc_metadata=aud=insert"@;
            assert(t.subrange(39, 49) =~= "aud=insert"@);
            assert(t =~= t.take(39) + "aud=insert"@ + t.skip(49));
            text::law_occurs_means_surrounded(t, t.take(39), "aud=insert"@, t.skip(49));
            assert(t.subrange(0, 24) =~= "dump_extra=freq=keyframe"@);
            assert(t =~= t.take(0) + "dump_extra=freq=keyframe"@ + t.skip(24));
            text::law_occurs_means_surrounded(
                t,
                t.take(0),
                "dump_extra=freq=keyframe"@,
                t.skip(24),
            );
        },
        CodecKind::Av1 => {
            assert(args[n - 3] == tail[0] && args[n - 2] == tail[1] && args[n - 1] == tail[2]);
        },
    }
}

/// FFmpeg is told what it reads: raw BGRA frames of the configured width and
/// height, in this order, at the configured rate, from its standard input.
pub proof fn law_input_is_described(cfg: EncoderConfig)
    ensures
        ({
            let args = super::command_args(cfg);
            &&& args.len() > 13
            &&& args[3] == "-f"@ && args[4] == "rawvideo"@
            &&& args[5] == "-pix_fmt"@ && args[6] == "bgra"@
            &&& args[7] == "-video_size"@
            &&& args[8] == text::decimal(cfg.width as nat) + "x"@ + text::decimal(
                cfg.height as nat,
            )
            &&& args[9] == "-framerate"@ && args[10] == text::decimal(cfg.fps as nat)
            &&& args[11] == "-i"@ && args[12] == "pipe:0"@
        }),
{
    let args = super::command_args(cfg);
    let head = super::input_args(cfg);
    assert(forall|i: int| 0 <= i < 13 ==> #[trigger] args[i] == head[i]);
}

/// Every encoder is held to low latency: no B-frames, one key frame a second,
/// and nothing kept in a buffer.
pub proof fn law_low_latency(cfg: EncoderConfig)
    ensures
        ({
            let args = super::command_args(cfg);
            &&& passes(args, "-bf"@, "0"@)
            &&& passes(args, "-g"@, text::decimal(cfg.fps as nat))
            &&& passes(args, "-force_key_frames"@, "expr:gte(t,n_forced*1)"@)
            &&& passes(args, "-fflags"@, "nobuffer"@)
            &&& passes(args, "-flags"@, "low_delay"@)
            &&& passes(args, "-flush_packets"@, "1"@)
        }),
{
    lemma_parts(cfg);
    let args = super::command_args(cfg);
    let own = super::latency_args(cfg);
    let at = (front_of(cfg) + super::codec_args(cfg)).len() as int;
    assert(forall|k: int| 0 <= k < 12 ==> #[trigger] own[k] == args[at + k]);
    assert(args[at] == own[0] && args[at + 1] == own[1]);
    assert(args[at + 2] == own[2] && args[at + 3] == own[3]);
    assert(args[at + 4] == own[4] && args[at + 5] == own[5]);
    assert(args[at + 6] == own[6] && args[at + 7] == own[7]);
    assert(args[at + 8] == own[8] && args[at + 9] == own[9]);
    assert(args[at + 10] == own[10] && args[at + 11] == own[11]);
}

/// 4:4:4 is asked for where it is wanted, and that is all that an encoder is
/// told more than for 4:2:0.
pub proof fn law_chroma_is_asked_for(cfg: EncoderConfig)
    requires
        cfg.chroma == Chroma::Yuv444,
    ensures
        passes(super::command_args(cfg), "-pix_fmt"@, "yuv444p"@),
        super::command_args(cfg).len() == super::command_args(
            (EncoderConfig { chroma: Chroma::Yuv420, ..cfg }),
        ).len() + 2,
{
    let other = EncoderConfig { chroma: Chroma::Yuv420, ..cfg };
    let args = super::command_args(cfg);
    let at = (super::input_args(cfg) + super::colour_args(cfg)).len() as int;
    assert(args[at] == super::chroma_args(cfg)[0]);
    assert(args[at + 1] == super::chroma_args(cfg)[1]);
    assert(backends::rc_of(cfg) == backends::rc_of(other));
    assert(super::codec_args(cfg).len() == super::codec_args(other).len());
}

/// The hardware encoders that choke on colour tags get none: right behind the
/// input comes the encoder. All others are told full-range BT.709.
pub proof fn law_colour_tags(cfg: EncoderConfig)
    requires
        cfg.chroma == Chroma::Yuv420,
    ensures
        ({
            let args = super::command_args(cfg);
            let name = cfg.encoder_name@;
            if name == "h264_amf"@ || name == "hevc_amf"@ || name == "av1_amf"@ || name
                == "h264_nvenc"@ || name == "hevc_nvenc"@ || name == "av1_nvenc"@ || name
                == "h264_qsv"@ || name == "hevc_qsv"@ || name == "av1_qsv"@ || name
                == "h264_vaapi"@ || name == "hevc_vaapi"@ || name == "av1_vaapi"@ {
                &&& args[13] == "-c:v"@
                &&& args[14] == name
            } else {
                &&& args[13] == "-color_range"@ && args[14] == "pc"@
                &&& args[15] == "-color_primaries"@ && args[16] == "bt709"@
                &&& args[17] == "-color_trc"@ && args[18] == "bt709"@
                &&& args[19] == "-colorspace"@ && args[20] == "bt709"@
                &&& args[21] == "-c:v"@
                &&& args[22] == name
            }
        }),
{
    let args = super::command_args(cfg);
    let own = super::codec_args(cfg);
    let tags = super::colour_args(cfg);
    assert(own.len() >= 2 && own[0] == "-c:v"@ && own[1] == cfg.encoder_name@);
    assert(super::chroma_args(cfg).len() == 0);
    let at = 13 + tags.len() as int;
    assert(args[at] == own[0] && args[at + 1] == own[1]);
    assert(forall|k: int| 0 <= k < tags.len() ==> #[trigger] tags[k] == args[13 + k]);
    if tags.len() > 0 {
        assert(args[13] == tags[0] && args[14] == tags[1] && args[15] == tags[2] && args[16]
            == tags[3]);
        assert(args[17] == tags[4] && args[18] == tags[5] && args[19] == tags[6] && args[20]
            == tags[7]);
    }
}

/// The names of the encoders that each builder is for.
pub(crate) proof fn lemma_names()
    ensures
        backends::backend_named("h264_amf"@) == Some(BackendId::AmfH264),
        backends::backend_named("hevc_amf"@) == Some(BackendId::AmfHevc),
        backends::backend_named("av1_amf"@) == Some(BackendId::AmfAv1),
        backends::backend_named("h264_nvenc"@) == Some(BackendId::NvencH264),
        backends::backend_named("hevc_nvenc"@) == Some(BackendId::NvencHevc),
        backends::backend_named("av1_nvenc"@) == Some(BackendId::NvencAv1),
        backends::backend_named("h264_qsv"@) == Some(BackendId::QsvH264),
        backends::backend_named("hevc_qsv"@) == Some(BackendId::QsvHevc),
        backends::backend_named("av1_qsv"@) == Some(BackendId::QsvAv1),
        backends::backend_named("h264_mf"@) == Some(BackendId::MfH264),
        backends::backend_named("hevc_mf"@) == Some(BackendId::MfHevc),
        backends::backend_named("libx264"@) == Some(BackendId::X264),
        backends::backend_named("libx265"@) == Some(BackendId::X265),
        backends::backend_named("libsvtav1"@) == Some(BackendId::SvtAv1),
        backends::backend_named("libaom-av1"@) == Some(BackendId::AomAv1),
{
    backends::law_lookup_finds_each_backend(BackendId::AmfH264);
    backends::law_lookup_finds_each_backend(BackendId::AmfHevc);
    backends::law_lookup_finds_each_backend(BackendId::AmfAv1);
    backends::law_lookup_finds_each_backend(BackendId::NvencH264);
    backends::law_lookup_finds_each_backend(BackendId::NvencHevc);
    backends::law_lookup_finds_each_backend(BackendId::NvencAv1);
    backends::law_lookup_finds_each_backend(BackendId::QsvH264);
    backends::law_lookup_finds_each_backend(BackendId::QsvHevc);
    backends::law_lookup_finds_each_backend(BackendId::QsvAv1);
    backends::law_lookup_finds_each_backend(BackendId::MfH264);
    backends::law_lookup_finds_each_backend(BackendId::MfHevc);
    backends::law_lookup_finds_each_backend(BackendId::X264);
    backends::law_lookup_finds_each_backend(BackendId::X265);
    backends::law_lookup_finds_each_backend(BackendId::SvtAv1);
    backends::law_lookup_finds_each_backend(BackendId::AomAv1);
}

/// The bitrate in the form that FFmpeg takes.
pub open spec fn kilobits(kb: u32) -> Seq<char> {
    text::decimal(kb as nat) + "k"@
}

/// A bitrate reaches every encoder, known or not, under the one flag for it.
pub proof fn law_bitrate_is_passed(cfg: EncoderConfig, kb: u32)
    requires
        cfg.bitrate_kbps == Some(kb),
    ensures
        passes(super::command_args(cfg), "-b:v"@, kilobits(kb)),
{
    let own = super::codec_args(cfg);
    let rc = backends::rc_of(cfg);
    assert(rc.bitrate == Some(kilobits(kb)));
    let k: int = match backends::backend_named(cfg.encoder_name@) {
        Some(BackendId::AmfH264) => 10,
        Some(BackendId::AmfHevc) => 12,
        Some(BackendId::AmfAv1) => 10,
        Some(BackendId::NvencH264) => 10,
        Some(BackendId::NvencHevc) => 10,
        Some(BackendId::NvencAv1) => 10,
        Some(BackendId::QsvH264) => 8,
        Some(BackendId::QsvHevc) => 8,
        Some(BackendId::QsvAv1) => 8,
        Some(BackendId::MfH264) => 8,
        Some(BackendId::MfHevc) => 8,
        Some(BackendId::X264) => 6,
        Some(BackendId::X265) => 6,
        Some(BackendId::SvtAv1) => 6,
        Some(BackendId::AomAv1) => 12,
        None => 2,
    };
    assert(own[k] == "-b:v"@);
    assert(own[k + 1] == kilobits(kb));
    lemma_own(cfg, k);
}

/// Where the bitrate is held constant, its peak is the bitrate itself and the
/// buffer holds one frame's worth of bits: a thousand bits per kilobit, divided
/// by the frames per second.
pub proof fn law_bitrate_is_capped(cfg: EncoderConfig, kb: u32)
    requires
        cfg.bitrate_kbps == Some(kb),
        cfg.fps > 0,
        ({
            let name = cfg.encoder_name@;
            name == "h264_amf"@ || name == "hevc_amf"@ || name == "av1_amf"@ || name
                == "h264_nvenc"@ || name == "hevc_nvenc"@ || name == "av1_nvenc"@ || name
                == "h264_qsv"@ || name == "hevc_qsv"@ || name == "av1_qsv"@ || name == "libx264"@
                || name == "libx265"@ || name == "libsvtav1"@ || name == "libaom-av1"@
        }),
    ensures
        passes(super::command_args(cfg), "-maxrate"@, kilobits(kb)),
        passes(
            super::command_args(cfg),
            "-bufsize"@,
            text::decimal(((kb * 1000) / cfg.fps as int) as nat),
        ),
{
    lemma_names();
    let own = super::codec_args(cfg);
    let rc = backends::rc_of(cfg);
    assert(rc.bitrate == Some(kilobits(kb)));
    let k: int = match backends::backend_named(cfg.encoder_name@) {
        Some(BackendId::AmfH264) => 12,
        Some(BackendId::AmfHevc) => 14,
        Some(BackendId::AmfAv1) => 12,
        Some(BackendId::NvencH264) => 12,
        Some(BackendId::NvencHevc) => 12,
        Some(BackendId::NvencAv1) => 12,
        Some(BackendId::QsvH264) => 10,
        Some(BackendId::QsvHevc) => 10,
        Some(BackendId::QsvAv1) => 10,
        Some(BackendId::X264) => 8,
        Some(BackendId::X265) => 8,
        Some(BackendId::SvtAv1) => 8,
        _ => 14,
    };
    assert(own[k] == "-maxrate"@);
    assert(own[k + 1] == kilobits(kb));
    assert(own[k + 2] == "-bufsize"@);
    assert(own[k + 3] == rc.vbv_buf->0);
    lemma_own(cfg, k);
    lemma_own(cfg, k + 2);
}

/// Without a bitrate the quality reaches the encoder, under the flags of its
/// family.
pub proof fn law_quality_is_passed(cfg: EncoderConfig)
    requires
        cfg.bitrate_kbps is None,
    ensures
        ({
            let args = super::command_args(cfg);
            let name = cfg.encoder_name@;
            let quality = text::decimal(cfg.quality as nat);
            &&& name == "h264_amf"@ || name == "hevc_amf"@ || name == "av1_amf"@ ==> passes(
                args,
                "-rc"@,
                "cqp"@,
            ) && passes(args, "-qp_i"@, quality) && passes(args, "-qp_p"@, quality)
            &&& name == "h264_nvenc"@ || name == "hevc_nvenc"@ || name == "av1_nvenc"@ ==> passes(
                args,
                "-rc"@,
                "constqp"@,
            ) && passes(args, "-qp"@, quality)
            &&& name == "h264_qsv"@ || name == "hevc_qsv"@ || name == "av1_qsv"@ ==> passes(
                args,
                "-global_quality"@,
                quality,
            )
            &&& name == "h264_mf"@ || name == "hevc_mf"@ ==> passes(
                args,
                "-rate_control"@,
                "quality"@,
            ) && passes(args, "-quality"@, quality)
            &&& name == "libx264"@ || name == "libx265"@ || name == "libsvtav1"@ || name
                == "libaom-av1"@ ==> passes(args, "-crf"@, quality)
            &&& name == "libaom-av1"@ ==> passes(args, "-b:v"@, "0"@)
        }),
{
    lemma_names();
    let own = super::codec_args(cfg);
    let name = cfg.encoder_name@;
    let quality = text::decimal(cfg.quality as nat);
    if name == "h264_amf"@ || name == "av1_amf"@ {
        assert(own[8] == "-rc"@ && own[9] == "cqp"@ && own[10] == "-qp_i"@ && own[11] == quality
            && own[12] == "-qp_p"@ && own[13] == quality);
        lemma_own(cfg, 8);
        lemma_own(cfg, 10);
        lemma_own(cfg, 12);
    } else if name == "hevc_amf"@ {
        assert(own[10] == "-rc"@ && own[11] == "cqp"@ && own[12] == "-qp_i"@ && own[13] == quality
            && own[14] == "-qp_p"@ && own[15] == quality);
        lemma_own(cfg, 10);
        lemma_own(cfg, 12);
        lemma_own(cfg, 14);
    } else if name == "h264_nvenc"@ || name == "hevc_nvenc"@ || name == "av1_nvenc"@ {
        assert(own[8] == "-rc"@ && own[9] == "constqp"@ && own[10] == "-qp"@ && own[11] == quality);
        lemma_own(cfg, 8);
        lemma_own(cfg, 10);
    } else if name == "h264_qsv"@ || name == "hevc_qsv"@ || name == "av1_qsv"@ {
        assert(own[8] == "-global_quality"@ && own[9] == quality);
        lemma_own(cfg, 8);
    } else if name == "h264_mf"@ || name == "hevc_mf"@ {
        assert(own[6] == "-rate_control"@ && own[7] == "quality"@ && own[8] == "-quality"@ && own[9]
            == quality);
        lemma_own(cfg, 6);
        lemma_own(cfg, 8);
    } else if name == "libx264"@ || name == "libx265"@ || name == "libsvtav1"@ {
        assert(own[6] == "-crf"@ && own[7] == quality);
        lemma_own(cfg, 6);
    } else if name == "libaom-av1"@ {
        assert(own[12] == "-crf"@ && own[13] == quality && own[14] == "-b:v"@ && own[15] == "0"@);
        lemma_own(cfg, 12);
        lemma_own(cfg, 14);
    }
}

/// With a bitrate the encoders that have a rate control mode are told to hold
/// it constant.
pub proof fn law_bitrate_is_constant(cfg: EncoderConfig)
    requires
        cfg.bitrate_kbps is Some,
    ensures
        ({
            let args = super::command_args(cfg);
            let name = cfg.encoder_name@;
            &&& name == "h264_amf"@ || name == "hevc_amf"@ || name == "av1_amf"@ || name
                == "h264_nvenc"@ || name == "hevc_nvenc"@ || name == "av1_nvenc"@ ==> passes(
                args,
                "-rc"@,
                "cbr"@,
            )
            &&& name == "h264_mf"@ || name == "hevc_mf"@ ==> passes(args, "-rate_control"@, "cbr"@)
        }),
{
    lemma_names();
    let own = super::codec_args(cfg);
    let name = cfg.encoder_name@;
    if name == "h264_amf"@ || name == "av1_amf"@ || name == "h264_nvenc"@ || name == "hevc_nvenc"@
        || name == "av1_nvenc"@ {
        assert(own[8] == "-rc"@ && own[9] == "cbr"@);
        lemma_own(cfg, 8);
    } else if name == "hevc_amf"@ {
        assert(own[10] == "-rc"@ && own[11] == "cbr"@);
        lemma_own(cfg, 10);
    } else if name == "h264_mf"@ || name == "hevc_mf"@ {
        assert(own[6] == "-rate_control"@ && own[7] == "cbr"@);
        lemma_own(cfg, 6);
    }
}

/// More than one slice is asked for of every encoder that can cut pictures
/// into slices.
pub proof fn law_slices_are_passed(cfg: EncoderConfig)
    requires
        cfg.slices > 1,
    ensures
        ({
            let args = super::command_args(cfg);
            let name = cfg.encoder_name@;
            let slices = text::decimal(cfg.slices as nat);
            &&& name == "h264_amf"@ || name == "hevc_amf"@ || name == "h264_nvenc"@ || name
                == "hevc_nvenc"@ || name == "h264_qsv"@ || name == "hevc_qsv"@ || name
                == "libx264"@ ==> passes(args, "-slices"@, slices)
            &&& name == "libx265"@ ==> passes(args, "-x265-params"@, "slices="@ + slices)
        }),
{
    lemma_names();
    let own = super::codec_args(cfg);
    let name = cfg.encoder_name@;
    let slices = text::decimal(cfg.slices as nat);
    let k = own.len() - 2;
    if name == "h264_amf"@ || name == "hevc_amf"@ || name == "h264_nvenc"@ || name == "hevc_nvenc"@
        || name == "h264_qsv"@ || name == "hevc_qsv"@ || name == "libx264"@ {
        assert(own[k] == "-slices"@ && own[k + 1] == slices);
        lemma_own(cfg, k);
    } else if name == "libx265"@ {
        assert(own[k] == "-x265-params"@ && own[k + 1] == "slices="@ + slices);
        lemma_own(cfg, k);
    }
}

/// One slice takes two arguments less than several.
pub proof fn law_slices_cost_one_flag(cfg: EncoderConfig, slices: u32)
    requires
        cfg.slices <= 1,
        slices > 1,
        ({
            let name = cfg.encoder_name@;
            name == "h264_amf"@ || name == "hevc_amf"@ || name == "h264_nvenc"@ || name
                == "hevc_nvenc"@ || name == "h264_qsv"@ || name == "hevc_qsv"@ || name
                == "libx264"@ || name == "libx265"@
        }),
    ensures
        super::command_args((EncoderConfig { slices, ..cfg })).len() == super::command_args(
            cfg,
        ).len() + 2,
{
    lemma_names();
    let other = EncoderConfig { slices, ..cfg };
    let a = backends::rc_of(cfg);
    let b = backends::rc_of(other);
    assert(a.bitrate == b.bitrate && a.vbv_buf == b.vbv_buf && a.quality == b.quality);
    assert(super::codec_args(other).len() == super::codec_args(cfg).len() + 2);
}

/// The profile follows the chroma, for the encoders that are given one.
pub proof fn law_profile_follows_chroma(cfg: EncoderConfig)
    ensures
        ({
            let args = super::command_args(cfg);
            let name = cfg.encoder_name@;
            let full = cfg.chroma == Chroma::Yuv444;
            &&& name == "h264_amf"@ ==> passes(
                args,
                "-profile:v"@,
                if full {
                    "high"@
                } else {
                    "main"@
                },
            )
            &&& name == "hevc_amf"@ ==> passes(
                args,
                "-profile:v"@,
                if full {
                    "rext"@
                } else {
                    "main"@
                },
            )
            &&& name == "libx264"@ ==> passes(
                args,
                "-profile:v"@,
                if full {
                    "high444"@
                } else {
                    "baseline"@
                },
            )
        }),
{
    lemma_names();
    let own = super::codec_args(cfg);
    let name = cfg.encoder_name@;
    let rc = backends::rc_of(cfg);
    let several: int = if cfg.slices > 1 {
        4
    } else {
        2
    };
    if name == "h264_amf"@ || name == "hevc_amf"@ || name == "libx264"@ {
        let k = own.len() - several;
        assert(own[k] == "-profile:v"@);
        lemma_own(cfg, k);
    }
}

/// Each family is told to trade size for speed and latency, in its own words.
/// AMF must be told to make the key frames that are forced on it IDR frames,
/// and for HEVC to repeat the parameter sets in them.
pub proof fn law_families_are_told_to_hurry(cfg: EncoderConfig)
    ensures
        ({
            let args = super::command_args(cfg);
            let name = cfg.encoder_name@;
            &&& name == "h264_amf"@ || name == "hevc_amf"@ || name == "av1_amf"@ ==> passes(
                args,
                "-usage"@,
                "ultralowlatency"@,
            ) && passes(args, "-quality"@, "speed"@) && passes(args, "-forced_idr"@, "1"@)
            &&& name == "hevc_amf"@ ==> passes(args, "-header_insertion_mode"@, "idr"@)
            &&& name == "h264_nvenc"@ || name == "hevc_nvenc"@ || name == "av1_nvenc"@ ==> passes(
                args,
                "-preset"@,
                "p1"@,
            ) && passes(args, "-tune"@, "ull"@) && passes(args, "-zerolatency"@, "1"@)
            &&& name == "h264_qsv"@ || name == "hevc_qsv"@ || name == "av1_qsv"@ ==> passes(
                args,
                "-preset"@,
                "veryfast"@,
            ) && passes(args, "-low_power"@, "1"@) && passes(args, "-async_depth"@, "1"@)
            &&& name == "h264_mf"@ || name == "hevc_mf"@ ==> passes(
                args,
                "-scenario"@,
                "live_streaming"@,
            ) && passes(args, "-hw_encoding"@, "true"@)
            &&& name == "libx264"@ || name == "libx265"@ ==> passes(
                args,
                "-preset"@,
                "ultrafast"@,
            ) && passes(args, "-tune"@, "zerolatency"@)
            &&& name == "libsvtav1"@ ==> passes(args, "-preset"@, "12"@) && passes(
                args,
                "-svtav1-params"@,
                "low-latency=1:tune=0"@,
            )
            &&& name == "libaom-av1"@ ==> passes(args, "-cpu-used"@, "8"@) && passes(
                args,
                "-row-mt"@,
                "1"@,
            ) && passes(args, "-tile-columns"@, "2"@) && passes(args, "-tile-rows"@, "1"@)
                && passes(args, "-usage"@, "realtime"@)
        }),
{
    lemma_names();
    let own = super::codec_args(cfg);
    let name = cfg.encoder_name@;
    if name == "h264_amf"@ || name == "hevc_amf"@ || name == "av1_amf"@ {
        assert(own[2] == "-usage"@ && own[3] == "ultralowlatency"@ && own[4] == "-quality"@ && own[5]
            == "speed"@ && own[6] == "-forced_idr"@ && own[7] == "1"@);
    } else if name == "h264_nvenc"@ || name == "hevc_nvenc"@ || name == "av1_nvenc"@ {
        assert(own[2] == "-preset"@ && own[3] == "p1"@ && own[4] == "-tune"@ && own[5] == "ull"@
            && own[6] == "-zerolatency"@ && own[7] == "1"@);
    } else if name == "h264_qsv"@ || name == "hevc_qsv"@ || name == "av1_qsv"@ {
        assert(own[2] == "-preset"@ && own[3] == "veryfast"@ && own[4] == "-low_power"@ && own[5]
            == "1"@ && own[6] == "-async_depth"@ && own[7] == "1"@);
    } else if name == "h264_mf"@ || name == "hevc_mf"@ {
        assert(own[2] == "-scenario"@ && own[3] == "live_streaming"@ && own[4] == "-hw_encoding"@
            && own[5] == "true"@);
    } else if name == "libx264"@ || name == "libx265"@ {
        assert(own[2] == "-preset"@ && own[3] == "ultrafast"@ && own[4] == "-tune"@ && own[5]
            == "zerolatency"@);
    } else if name == "libsvtav1"@ {
        assert(own[2] == "-preset"@ && own[3] == "12"@ && own[4] == "-svtav1-params"@ && own[5]
            == "low-latency=1:tune=0"@);
    } else if name == "libaom-av1"@ {
        assert(own[2] == "-cpu-used"@ && own[3] == "8"@ && own[4] == "-row-mt"@ && own[5] == "1"@);
        assert(own[6] == "-tile-columns"@ && own[7] == "2"@ && own[8] == "-tile-rows"@ && own[9]
            == "1"@ && own[10] == "-usage"@ && own[11] == "realtime"@);
        lemma_own(cfg, 8);
        lemma_own(cfg, 10);
    }
    if own.len() > 3 {
        lemma_own(cfg, 2);
    }
    if own.len() > 5 {
        lemma_own(cfg, 4);
    }
    if own.len() > 7 {
        lemma_own(cfg, 6);
    }
    if name == "hevc_amf"@ {
        assert(own[8] == "-header_insertion_mode"@ && own[9] == "idr"@);
        lemma_own(cfg, 8);
    }
}

/// The codec of an encoder is read off its name, whatever the case of its
/// letters: AV1 if `av1` or `aom` occurs in it, else HEVC if `hevc` or `265`
/// does, else H.264.
pub proof fn law_codec_is_read_off_the_name(name: Seq<char>)
    ensures
        ({
            let n = text::lowered(name);
            let av1 = text::occurs(n, "av1"@) || text::occurs(n, "aom"@);
            let hevc = text::occurs(n, "hevc"@) || text::occurs(n, "265"@);
            &&& super::codec_named(name) == CodecKind::Av1 <==> av1
            &&& super::codec_named(name) == CodecKind::Hevc <==> !av1 && hevc
            &&& super::codec_named(n) == super::codec_named(name)
        }),
{
    let n = text::lowered(name);
    if name.len() > 0 {
        text::law_lowered(name, 0);
    }
    assert(text::lowered(n) =~= n);
    reveal_strlit("av1");
    reveal_strlit("svtav1");
    reveal_strlit("265");
    reveal_strlit("h265");
    if text::occurs(n, "svtav1"@) {
        let i = choose|i: int| text::occurs_at(n, "svtav1"@, i);
        let t = n.subrange(i, i + 6);
        assert(t.subrange(3, 6) =~= "av1"@);
        assert(n.subrange(i + 3, i + 6) =~= t.subrange(3, 6));
        assert(text::occurs_at(n, "av1"@, i + 3));
    }
    if text::occurs(n, "h265"@) {
        let i = choose|i: int| text::occurs_at(n, "h265"@, i);
        let t = n.subrange(i, i + 4);
        assert(t.subrange(1, 4) =~= "265"@);
        assert(n.subrange(i + 1, i + 4) =~= t.subrange(1, 4));
        assert(text::occurs_at(n, "265"@, i + 1));
    }
}

/// The number of a codec on the wire.
pub proof fn law_codec_numbers()
    ensures
        CodecKind::H264.id() == 0,
        CodecKind::Hevc.id() == 1,
        CodecKind::Av1.id() == 2,
{
}

/// What an encoder can do follows from its family and its codec: qualities run
/// to 51, for AV1 to 63 and for Media Foundation to 100, from 1 on with Quick
/// Sync and from 0 elsewhere; slices exist outside AV1, except with Media
/// Foundation; 4:4:4 exists outside AV1 with AMF, NVENC and the software
/// encoders, and for AV1 with libaom alone. An encoder that is not known is
/// taken to have neither slices nor 4:4:4.
pub proof fn law_what_encoders_can_do(cfg: EncoderConfig)
    ensures
        ({
            let name = cfg.encoder_name@;
            let caps = validate::config_caps(cfg);
            let amf = name == "h264_amf"@ || name == "hevc_amf"@ || name == "av1_amf"@;
            let nvenc = name == "h264_nvenc"@ || name == "hevc_nvenc"@ || name == "av1_nvenc"@;
            let qsv = name == "h264_qsv"@ || name == "hevc_qsv"@ || name == "av1_qsv"@;
            let mf = name == "h264_mf"@ || name == "hevc_mf"@;
            let software = name == "libx264"@ || name == "libx265"@ || name == "libsvtav1"@ || name
                == "libaom-av1"@;
            let av1 = name == "av1_amf"@ || name == "av1_nvenc"@ || name == "av1_qsv"@ || name
                == "libsvtav1"@ || name == "libaom-av1"@;
            &&& caps.vendor == if amf {
                HwVendor::Amd
            } else if nvenc {
                HwVendor::Nvidia
            } else if qsv {
                HwVendor::Intel
            } else if mf {
                HwVendor::Microsoft
            } else if software {
                HwVendor::Software
            } else {
                HwVendor::Other
            }
            &&& caps.min_quality == if qsv {
                1int
            } else {
                0
            }
            &&& caps.max_quality == if mf {
                100int
            } else if av1 {
                63
            } else {
                51
            }
            &&& caps.supports_slices <==> !av1 && (amf || nvenc || qsv || software)
            &&& caps.supports_yuv444 <==> name == "libaom-av1"@ || !av1 && (amf || nvenc
                || software)
        }),
{
    lemma_names();
}

/// The first thing wrong with a configuration is reported: a size of zero, then
/// a rate of zero, then a bitrate of zero, then a quality out of range, then
/// 4:4:4 where there is none, then slices where there are none. The report
/// names the encoder and the range.
pub proof fn law_first_problem_is_reported(cfg: EncoderConfig)
    ensures
        ({
            let caps = validate::config_caps(cfg);
            let p = validate::problem_with(cfg);
            let sized = cfg.width > 0 && cfg.height > 0;
            let timed = sized && cfg.fps > 0;
            let rated = timed && (cfg.bitrate_kbps is Some ==> cfg.bitrate_kbps->0 > 0);
            let graded = rated && caps.min_quality <= cfg.quality <= caps.max_quality;
            let coloured = graded && (cfg.chroma == Chroma::Yuv420 || caps.supports_yuv444);
            let sliced = coloured && (cfg.slices <= 1 || caps.supports_slices);
            &&& p is None <==> sliced
            &&& !sized ==> p == Some(Problem::ZeroResolution)
            &&& sized && !timed ==> p == Some(Problem::FpsZero)
            &&& timed && !rated ==> p == Some(Problem::BitrateZero)
            &&& rated && !graded ==> p is Some && p->0 is QualityOutOfRange && p->0->value
                == cfg.quality && p->0->min == caps.min_quality && p->0->max == caps.max_quality
                && p->0->QualityOutOfRange_encoder == cfg.encoder_name@
            &&& graded && !coloured ==> p is Some && p->0 is ChromaUnsupported
                && p->0->ChromaUnsupported_encoder == cfg.encoder_name@
            &&& coloured && !sliced ==> p is Some && p->0 is SlicesUnsupported
                && p->0->SlicesUnsupported_encoder == cfg.encoder_name@
        }),
{
}

/// A hint is given wherever in the line the cause stands, and only for the
/// known causes.
pub proof fn law_hints(before: Seq<char>, after: Seq<char>, line: Seq<char>)
    ensures
        super::hint_for(before + "CreateComponent(AMFVideoEncoderHW_AV1) failed"@ + after) == Some(
            super::HINT_AV1_AMF@,
        ),
        super::hint_for(before + "Cannot load nvEncodeAPI"@ + after) is Some,
        super::hint_for(before + "OpenEncodeSessionEx failed: unsupported device"@ + after)
            is Some,
        super::hint_for(line) is Some ==> text::occurs(
            line,
            "CreateComponent(AMFVideoEncoderHW_AV1) failed"@,
        ) || text::occurs(line, "Cannot load nvEncodeAPI"@) || text::occurs(
            line,
            "OpenEncodeSessionEx failed: unsupported device"@,
        ) || text::occurs(line, "hevc_metadata"@) && text::occurs(line, "VPS id 0 not available"@),
        text::occurs(line, "hevc_metadata"@) && text::occurs(line, "VPS id 0 not available"@)
            ==> super::hint_for(line) is Some,
        text::occurs(line, "Cannot load nvEncodeAPI"@) && !text::occurs(
            line,
            "CreateComponent(AMFVideoEncoderHW_AV1) failed"@,
        ) ==> super::hint_for(line) == Some(super::HINT_NVENC@),
        text::occurs(line, "OpenEncodeSessionEx failed: unsupported device"@) && !text::occurs(
            line,
            "CreateComponent(AMFVideoEncoderHW_AV1) failed"@,
        ) ==> super::hint_for(line) == Some(super::HINT_NVENC@),
        super::hint_for(line) is Some && !text::occurs(
            line,
            "CreateComponent(AMFVideoEncoderHW_AV1) failed"@,
        ) && !text::occurs(line, "Cannot load nvEncodeAPI"@) && !text::occurs(
            line,
            "OpenEncodeSessionEx failed: unsupported device"@,
        ) ==> super::hint_for(line) == Some(super::HINT_HEVC_VPS@),
{
    let a = "CreateComponent(AMFVideoEncoderHW_AV1) failed"@;
    let b = "Cannot load nvEncodeAPI"@;
    let c = "OpenEncodeSessionEx failed: unsupported device"@;
    text::law_occurs_means_surrounded(before + a + after, before, a, after);
    text::law_occurs_means_surrounded(before + b + after, before, b, after);
    text::law_occurs_means_surrounded(before + c + after, before, c, after);
}

/// Counters add up and wrap around at two to the power of 64.
pub proof fn law_counters_wrap(a: u64, b: u64)
    ensures
        super::counted(a, b) == (a + b) % 0x1_0000_0000_0000_0000,
{
}

/// The key flag of the frames that come out of the encoder's output, for the
/// two codecs with start codes.
pub proof fn law_stream_key_frames(codec: CodecKind, s: Seq<u8>, i: int)
    requires
        codec != CodecKind::Av1,
        0 <= i < super::stream_frames(codec, s).len(),
    ensures
        ({
            let unit = splitter::payload_of(super::stream_frames(codec, s)[i]);
            super::stream_frames(codec, s)[i].is_keyframe <==> exists|j: int|
                0 <= j && j + 3 < unit.len() && #[trigger] unit[j] == 0 && unit[j + 1] == 0
                    && unit[j + 2] == 1 && if codec == CodecKind::H264 {
                    unit[j + 3] % 32 == 5
                } else {
                    16 <= (unit[j + 3] / 2) % 64 <= 23
                }
        }),
{
    if codec == CodecKind::H264 {
        splitter::law_key_frames_hold_a_key_slice(splitter::NalSyntax::H264, s, i);
    } else {
        splitter::law_key_frames_hold_a_key_slice(splitter::NalSyntax::Hevc, s, i);
    }
}

/// What is said of each problem with a configuration.
pub proof fn law_problem_messages(value: u8, min: u8, max: u8, encoder: Seq<char>)
    ensures
        validate::problem_message((Problem::QualityOutOfRange { value, min, max, encoder }))
            == "quality="@ + text::decimal(value as nat) + " is outside "@ + encoder
            + "'s range ["@ + text::decimal(min as nat) + ", "@ + text::decimal(max as nat) + "]"@,
        validate::problem_message((Problem::ChromaUnsupported { encoder })) == "encoder "@ + encoder
            + " does not support 4:4:4 chroma"@,
        validate::problem_message((Problem::SlicesUnsupported { encoder })) == "encoder "@ + encoder
            + " ignores --slices > 1"@,
        validate::problem_message(Problem::BitrateZero) == "--bitrate-kbps must be > 0 when set"@,
        validate::problem_message(Problem::FpsZero) == "fps must be > 0"@,
        validate::problem_message(Problem::ZeroResolution) == "width and height must both be > 0"@,
{
}

/// The words for the vendors.
pub proof fn law_vendor_names()
    ensures
        HwVendor::Amd.name() == "amd"@,
        HwVendor::Nvidia.name() == "nvidia"@,
        HwVendor::Intel.name() == "intel"@,
        HwVendor::Microsoft.name() == "microsoft"@,
        HwVendor::Software.name() == "software"@,
        HwVendor::Other.name() == "other"@,
{
}

} // verus!
