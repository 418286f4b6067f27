//! Checks of an encoder configuration before FFmpeg is started, so that the
//! operator gets a precise message.

use super::backends;
use super::backends::{lookup, BackendCaps};
use super::{Chroma, EncoderConfig};
use crate::text;
use vstd::prelude::*;

verus! {

/// Why a configuration cannot be used.
#[derive(Debug, Clone, PartialEq, Eq)]
pub enum ValidationError {
    /// The quality is outside the encoder's range.
    QualityOutOfRange { value: u8, min: u8, max: u8, encoder: String },
    /// 4:4:4 chroma is asked of an encoder that does not take it.
    ChromaUnsupported { encoder: String },
    /// Several slices are asked of an encoder that ignores the count.
    SlicesUnsupported { encoder: String },
    /// The bitrate is zero.
    BitrateZero,
    /// The frame rate is zero.
    FpsZero,
    /// The width or the height is zero.
    ZeroResolution,
}

/// What a [`ValidationError`] says.
pub enum Problem {
    QualityOutOfRange { value: u8, min: u8, max: u8, encoder: Seq<char> },
    ChromaUnsupported { encoder: Seq<char> },
    SlicesUnsupported { encoder: Seq<char> },
    BitrateZero,
    FpsZero,
    ZeroResolution,
}

impl View for ValidationError {
    type V = Problem;

    open spec fn view(&self) -> Problem {
        match self {
            ValidationError::QualityOutOfRange { value, min, max, encoder } =>
                Problem::QualityOutOfRange {
                    value: *value,
                    min: *min,
                    max: *max,
                    encoder: encoder@,
                },
            ValidationError::ChromaUnsupported { encoder } => Problem::ChromaUnsupported {
                encoder: encoder@,
            },
            ValidationError::SlicesUnsupported { encoder } => Problem::SlicesUnsupported {
                encoder: encoder@,
            },
            ValidationError::BitrateZero => Problem::BitrateZero,
            ValidationError::FpsZero => Problem::FpsZero,
            ValidationError::ZeroResolution => Problem::ZeroResolution,
        }
    }
}

/// The message of a problem.
pub open spec fn problem_message(p: Problem) -> Seq<char> {
    match p {
        Problem::QualityOutOfRange { value, min, max, encoder } => "quality="@ + text::decimal(
            value as nat,
        ) + " is outside "@ + encoder + "'s range ["@ + text::decimal(min as nat) + ", "@
            + text::decimal(max as nat) + "]"@,
        Problem::ChromaUnsupported { encoder } => "encoder "@ + encoder
            + " does not support 4:4:4 chroma"@,
        Problem::SlicesUnsupported { encoder } => "encoder "@ + encoder + " ignores --slices > 1"@,
        Problem::BitrateZero => "--bitrate-kbps must be > 0 when set"@,
        Problem::FpsZero => "fps must be > 0"@,
        Problem::ZeroResolution => "width and height must both be > 0"@,
    }
}

impl ValidationError {
    /// What to tell the operator.
    pub fn message(&self) -> (s: String)
        ensures
            s@ == problem_message(self@),
    {
        let mut s = String::new();
        match self {
            ValidationError::QualityOutOfRange { value, min, max, encoder } => {
                text::push_text(&mut s, "quality=");
                text::push_decimal(&mut s, *value as u64);
                text::push_text(&mut s, " is outside ");
                text::push_text(&mut s, encoder.as_str());
                text::push_text(&mut s, "'s range [");
                text::push_decimal(&mut s, *min as u64);
                text::push_text(&mut s, ", ");
                text::push_decimal(&mut s, *max as u64);
                text::push_text(&mut s, "]");
            },
            ValidationError::ChromaUnsupported { encoder } => {
                text::push_text(&mut s, "encoder ");
                text::push_text(&mut s, encoder.as_str());
                text::push_text(&mut s, " does not support 4:4:4 chroma");
            },
            ValidationError::SlicesUnsupported { encoder } => {
                text::push_text(&mut s, "encoder ");
                text::push_text(&mut s, encoder.as_str());
                text::push_text(&mut s, " ignores --slices > 1");
            },
            ValidationError::BitrateZero => {
                text::push_text(&mut s, "--bitrate-kbps must be > 0 when set");
            },
            ValidationError::FpsZero => {
                text::push_text(&mut s, "fps must be > 0");
            },
            ValidationError::ZeroResolution => {
                text::push_text(&mut s, "width and height must both be > 0");
            },
        }
        proof {
            assert(s@ =~= problem_message(self@));
        }
        s
    }
}

/// What the encoder of a configuration supports; of an encoder that is not
/// known, what is taken for granted.
pub open spec fn config_caps(cfg: EncoderConfig) -> BackendCaps {
    match backends::backend_named(cfg.encoder_name@) {
        Some(id) => backends::caps_of(id),
        None => backends::unknown_caps(),
    }
}

/// The first problem of a configuration, if it has any.
pub open spec fn problem_with(cfg: EncoderConfig) -> Option<Problem> {
    let caps = config_caps(cfg);
    if cfg.width == 0 || cfg.height == 0 {
        Some(Problem::ZeroResolution)
    } else if cfg.fps == 0 {
        Some(Problem::FpsZero)
    } else if cfg.bitrate_kbps == Some(0u32) {
        Some(Problem::BitrateZero)
    } else if cfg.quality < caps.min_quality || cfg.quality > caps.max_quality {
        Some(
            Problem::QualityOutOfRange {
                value: cfg.quality,
                min: caps.min_quality,
                max: caps.max_quality,
                encoder: cfg.encoder_name@,
            },
        )
    } else if cfg.chroma == Chroma::Yuv444 && !caps.supports_yuv444 {
        Some(Problem::ChromaUnsupported { encoder: cfg.encoder_name@ })
    } else if cfg.slices > 1 && !caps.supports_slices {
        Some(Problem::SlicesUnsupported { encoder: cfg.encoder_name@ })
    } else {
        None
    }
}

/// What the encoder of a configuration supports.
pub fn caps_for(cfg: &EncoderConfig) -> (r: BackendCaps)
    ensures
        r == config_caps(*cfg),
{
    match lookup(cfg.encoder_name.as_str()) {
        Some(b) => b.caps,
        None => BackendCaps::unknown(),
    }
}

/// Checks a configuration. Returns what its encoder supports, or the first
/// problem.
pub fn validate(cfg: &EncoderConfig) -> (r: Result<BackendCaps, ValidationError>)
    ensures
        match r {
            Ok(caps) => problem_with(*cfg) is None && caps == config_caps(*cfg),
            Err(e) => problem_with(*cfg) == Some(e@),
        },
{
    if cfg.width == 0 || cfg.height == 0 {
        return Err(ValidationError::ZeroResolution);
    }
    if cfg.fps == 0 {
        return Err(ValidationError::FpsZero);
    }
    if let Some(kb) = cfg.bitrate_kbps {
        if kb == 0 {
            return Err(ValidationError::BitrateZero);
        }
    }
    let caps = caps_for(cfg);
    if cfg.quality < caps.min_quality || cfg.quality > caps.max_quality {
        return Err(
            ValidationError::QualityOutOfRange {
                value: cfg.quality,
                min: caps.min_quality,
                max: caps.max_quality,
                encoder: cfg.encoder_name.clone(),
            },
        );
    }
    if cfg.chroma == Chroma::Yuv444 && !caps.supports_yuv444 {
        return Err(ValidationError::ChromaUnsupported { encoder: cfg.encoder_name.clone() });
    }
    if cfg.slices > 1 && !caps.supports_slices {
        return Err(ValidationError::SlicesUnsupported { encoder: cfg.encoder_name.clone() });
    }
    Ok(caps)
}

/// A configuration passes exactly when its sizes and rates are positive and
/// its encoder supports the quality, the chroma and the slices asked for.
pub proof fn law_valid_means_supported(cfg: EncoderConfig)
    ensures
        problem_with(cfg) is None <==> {
            &&& cfg.width > 0
            &&& cfg.height > 0
            &&& cfg.fps > 0
            &&& cfg.bitrate_kbps != Some(0u32)
            &&& config_caps(cfg).min_quality <= cfg.quality <= config_caps(cfg).max_quality
            &&& cfg.chroma == Chroma::Yuv444 ==> config_caps(cfg).supports_yuv444
            &&& cfg.slices > 1 ==> config_caps(cfg).supports_slices
        },
{
}

} // verus!
