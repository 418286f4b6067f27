//! Encoders without a builder of their own: the name, and a bitrate if one is
//! set.

use super::{RcArgs, RcModel};
use crate::encoder::EncoderConfig;
use crate::text;
use vstd::prelude::*;

verus! {

/// The flags of an encoder that is not known.
pub open spec fn generic_args(cfg: EncoderConfig, rc: RcModel) -> Seq<Seq<char>> {
    seq!["-c:v"@, cfg.encoder_name@] + match rc.bitrate {
        Some(br) => seq!["-b:v"@, br],
        None => Seq::empty(),
    }
}

/// Appends the flags of an encoder that is not known.
pub fn build(args: &mut Vec<String>, cfg: &EncoderConfig, rc: &RcArgs)
    ensures
        text::texts(final(args)@) == text::texts(old(args)@) + generic_args(*cfg, rc@),
{
    text::push_string(args, "-c:v");
    text::push_string(args, cfg.encoder_name.as_str());
    if let Some(br) = &rc.bitrate_arg {
        text::push_string(args, "-b:v");
        text::push_string(args, br.as_str());
    }
    proof {
        assert(text::texts(args@) =~= text::texts(old(args)@) + generic_args(*cfg, rc@));
    }
}

} // verus!
