//! Which encoders work on this machine, and which of them to use.

use crate::encoder::backends;
use crate::encoder::backends::{lookup, HwVendor, KNOWN_ENCODERS};
use crate::encoder::laws;
use crate::encoder::{codec_named, CodecKind};
use crate::text;
use crate::wire;
use vstd::prelude::*;

verus! {

/// What is known of one encoder.
#[derive(Debug, Clone, PartialEq, Eq)]
pub struct EncoderCapability {
    /// FFmpeg encoder name.
    pub name: String,
    /// The codec that the name tells of.
    pub codec: CodecKind,
    /// Vendor of the hardware it runs on.
    pub hw_vendor: HwVendor,
    /// Whether FFmpeg has it and, where that was tried, it encodes.
    pub working: bool,
    /// Why it does not work.
    pub reason: Option<String>,
}

/// What an [`EncoderCapability`] says.
pub struct CapabilityModel {
    pub name: Seq<char>,
    pub codec: CodecKind,
    pub hw_vendor: HwVendor,
    pub working: bool,
    pub reason: Option<Seq<char>>,
}

impl View for EncoderCapability {
    type V = CapabilityModel;

    open spec fn view(&self) -> CapabilityModel {
        CapabilityModel {
            name: self.name@,
            codec: self.codec,
            hw_vendor: self.hw_vendor,
            working: self.working,
            reason: match self.reason {
                Some(s) => Some(s@),
                None => None,
            },
        }
    }
}

/// What a list of capabilities says.
pub open spec fn capability_models(v: Seq<EncoderCapability>) -> Seq<CapabilityModel> {
    Seq::new(v.len(), |i: int| v[i]@)
}

// ── FFmpeg's table ─────────────────────────────────────────────────

/// Whether a line is the rule above FFmpeg's table.
pub open spec fn is_rule(line: Seq<char>) -> bool {
    text::starts(line, " -----"@) || text::starts(line, "------"@)
}

/// The name in a line of the table: its second word, if the first, the flags,
/// says video.
pub open spec fn video_encoder(line: Seq<char>) -> Seq<Seq<char>> {
    let w = text::words(line);
    if w.len() >= 2 && text::starts(w[0], "V"@) {
        seq![w[1]]
    } else {
        Seq::empty()
    }
}

/// The video encoders in the lines behind the rule.
pub open spec fn table_encoders(ls: Seq<Seq<char>>, in_table: bool) -> Seq<Seq<char>>
    decreases ls.len(),
{
    if ls.len() == 0 {
        Seq::empty()
    } else if is_rule(ls[0]) {
        table_encoders(ls.drop_first(), true)
    } else if in_table {
        video_encoder(ls[0]) + table_encoders(ls.drop_first(), true)
    } else {
        table_encoders(ls.drop_first(), false)
    }
}

/// Reads the output of `ffmpeg -encoders`: the names of the video encoders.
pub fn parse_ffmpeg_encoders(stdout: &str) -> (out: Vec<String>)
    ensures
        text::texts(out@) == table_encoders(text::lines(stdout@), false),
{
    let chars = text::chars_of(stdout);
    let lines = text::split_lines(chars.as_slice());
    let ghost all = text::lines(stdout@);
    let mut out: Vec<String> = Vec::new();
    let mut in_table: bool = false;
    let mut i: usize = 0;
    proof {
        assert(all.skip(0) =~= all);
        assert(text::texts(out@) + table_encoders(all, false) =~= table_encoders(all, false));
    }
    while i < lines.len()
        invariant
            i <= lines@.len(),
            text::pieces(lines@) == all,
            text::texts(out@) + table_encoders(all.skip(i as int), in_table) == table_encoders(
                all,
                false,
            ),
        decreases lines@.len() - i,
    {
        let line = lines[i];
        proof {
            assert(all[i as int] == line@);
            assert(all.skip(i as int)[0] == line@);
            assert(all.skip(i as int).drop_first() =~= all.skip(i + 1));
        }
        let ghost before = text::texts(out@);
        let ghost rest = table_encoders(all.skip(i + 1), true);
        if text::starts_with(line, " -----") || text::starts_with(line, "------") {
            in_table = true;
        } else if in_table {
            let words = text::split_whitespace(line);
            proof {
                assert(text::words(line@).len() == words@.len());
            }
            if words.len() >= 2 {
                proof {
                    assert(text::words(line@)[0] == words@[0]@);
                    assert(text::words(line@)[1] == words@[1]@);
                }
                if text::starts_with(words[0], "V") {
                    let name = text::string_of(words[1]);
                    out.push(name);
                    proof {
                        assert(text::texts(out@) =~= before.push(words@[1]@));
                        assert(before + (seq![words@[1]@] + rest) =~= text::texts(out@) + rest);
                    }
                } else {
                    proof {
                        assert(Seq::<Seq<char>>::empty() + rest =~= rest);
                    }
                }
            } else {
                proof {
                    assert(Seq::<Seq<char>>::empty() + rest =~= rest);
                }
            }
        }
        i = i + 1;
    }
    proof {
        assert(all.skip(i as int) =~= Seq::<Seq<char>>::empty());
        assert(text::texts(out@) + Seq::<Seq<char>>::empty() =~= text::texts(out@));
    }
    out
}

/// How a run of FFmpeg ended.
#[derive(Debug, Clone, Copy)]
pub enum ToolRun<'a> {
    /// It could not be started, for this cause.
    NotStarted { cause: &'a str },
    /// It ended, and wrote this to its output.
    Finished { success: bool, stdout: &'a [u8] },
}

/// The video encoders that a run of `ffmpeg -encoders` tells of: none if it
/// failed. An error only if it could not be started.
pub fn list_ffmpeg_encoders(run: ToolRun) -> (r: Result<Vec<String>, String>)
    ensures
        match run {
            ToolRun::NotStarted { cause } => r matches Err(e) && e@
                == "Failed to spawn ffmpeg -encoders: "@ + cause@,
            ToolRun::Finished { success, stdout } => r matches Ok(out) && text::texts(out@) == (
            if success {
                table_encoders(text::lines(wire::text_of(stdout@)), false)
            } else {
                Seq::<Seq<char>>::empty()
            }),
        },
{
    match run {
        ToolRun::NotStarted { cause } => {
            let mut e = "Failed to spawn ffmpeg -encoders: ".to_owned();
            text::push_text(&mut e, cause);
            Err(e)
        },
        ToolRun::Finished { success, stdout } => {
            if !success {
                let out: Vec<String> = Vec::new();
                proof {
                    assert(text::texts(out@) =~= Seq::<Seq<char>>::empty());
                }
                return Ok(out);
            }
            let s = wire::text_from_bytes(stdout);
            Ok(parse_ffmpeg_encoders(s.as_str()))
        },
    }
}

// ── Probing ────────────────────────────────────────────────────────

/// The row of the encoder `name`, given the encoders FFmpeg has.
pub open spec fn probed(name: Seq<char>, installed: Seq<Seq<char>>) -> CapabilityModel {
    CapabilityModel {
        name,
        codec: codec_named(name),
        hw_vendor: match backends::backend_named(name) {
            Some(id) => backends::caps_of(id).vendor,
            None => HwVendor::Other,
        },
        working: installed.contains(name),
        reason: if installed.contains(name) {
            None
        } else {
            Some("not in ffmpeg -encoders"@)
        },
    }
}

fn probe_one(name: &str, installed: &Vec<String>) -> (r: EncoderCapability)
    ensures
        r@ == probed(name@, text::texts(installed@)),
{
    let hw_vendor = match lookup(name) {
        Some(b) => b.caps.vendor,
        None => HwVendor::Other,
    };
    let working: bool = text::holds_text(installed, name);
    let reason = if working {
        None
    } else {
        Some("not in ffmpeg -encoders".to_owned())
    };
    EncoderCapability {
        name: name.to_owned(),
        codec: CodecKind::from_encoder_name(name),
        hw_vendor,
        working,
        reason,
    }
}

/// One row for each known encoder, given the encoders FFmpeg has.
pub fn probe(installed: &Vec<String>) -> (r: Vec<EncoderCapability>)
    ensures
        capability_models(r@) == Seq::new(
            backends::known_encoders().len(),
            |i: int| probed(backends::known_encoders()[i], text::texts(installed@)),
        ),
{
    let ghost known = backends::known_encoders();
    let ghost have = text::texts(installed@);
    let mut r: Vec<EncoderCapability> = Vec::new();
    let mut i: usize = 0;
    while i < KNOWN_ENCODERS.len()
        invariant
            i <= 15,
            known == backends::known_encoders(),
            have == text::texts(installed@),
            r@.len() == i,
            forall|j: int| 0 <= j < i ==> (#[trigger] r@[j])@ == probed(known[j], have),
        decreases 15 - i,
    {
        proof {
            assert(KNOWN_ENCODERS@[i as int]@ == known[i as int]);
        }
        let row = probe_one(KNOWN_ENCODERS[i], installed);
        r.push(row);
        i = i + 1;
    }
    proof {
        assert(capability_models(r@) =~= Seq::new(known.len(), |j: int| probed(known[j], have)));
    }
    r
}

/// What is left of a row when the encoder was tried: a failure, where it was
/// taken to work, becomes the reason that it does not.
pub open spec fn after_attempt(
    cap: CapabilityModel,
    failure: Option<Seq<char>>,
) -> CapabilityModel {
    match failure {
        Some(e) => if cap.working {
            CapabilityModel { working: false, reason: Some(e), ..cap }
        } else {
            cap
        },
        None => cap,
    }
}

/// What is known of the encoders once those that FFmpeg has were tried.
/// `failures` holds what went wrong with each row, `None` where nothing did.
pub fn probe_with_encode(
    caps: Vec<EncoderCapability>,
    failures: Vec<Option<String>>,
) -> (r: Vec<EncoderCapability>)
    requires
        caps@.len() == failures@.len(),
    ensures
        capability_models(r@) == Seq::new(
            caps@.len(),
            |i: int|
                after_attempt(
                    caps@[i]@,
                    match failures@[i] {
                        Some(s) => Some(s@),
                        None => None,
                    },
                ),
        ),
{
    let mut r: Vec<EncoderCapability> = Vec::new();
    let mut i: usize = 0;
    while i < caps.len()
        invariant
            i <= caps@.len(),
            caps@.len() == failures@.len(),
            r@.len() == i,
            forall|j: int|
                0 <= j < i ==> (#[trigger] r@[j])@ == after_attempt(
                    caps@[j]@,
                    match failures@[j] {
                        Some(s) => Some(s@),
                        None => None,
                    },
                ),
        decreases caps@.len() - i,
    {
        let cap = &caps[i];
        let reason = match &cap.reason {
            Some(s) => Some(s.clone()),
            None => None,
        };
        let row = match &failures[i] {
            Some(e) if cap.working => EncoderCapability {
                name: cap.name.clone(),
                codec: cap.codec,
                hw_vendor: cap.hw_vendor,
                working: false,
                reason: Some(e.clone()),
            },
            _ => EncoderCapability {
                name: cap.name.clone(),
                codec: cap.codec,
                hw_vendor: cap.hw_vendor,
                working: cap.working,
                reason,
            },
        };
        r.push(row);
        i = i + 1;
    }
    proof {
        assert(capability_models(r@) =~= Seq::new(
            caps@.len(),
            |j: int|
                after_attempt(
                    caps@[j]@,
                    match failures@[j] {
                        Some(s) => Some(s@),
                        None => None,
                    },
                ),
        ));
    }
    r
}

/// The arguments of a trial: one frame of one pixel into nowhere.
pub open spec fn trial_args(encoder: Seq<char>) -> Seq<Seq<char>> {
    seq![
        "-hide_banner"@,
        "-loglevel"@,
        "error"@,
        "-f"@,
        "rawvideo"@,
        "-pix_fmt"@,
        "bgra"@,
        "-video_size"@,
        "1x1"@,
        "-framerate"@,
        "1"@,
        "-i"@,
        "pipe:0"@,
        "-frames:v"@,
        "1"@,
        "-c:v"@,
        encoder,
        "-f"@,
        "null"@,
        "-"@,
    ]
}

/// The arguments of a trial of `encoder`.
pub fn trial_command(encoder: &str) -> (args: Vec<String>)
    ensures
        text::texts(args@) == trial_args(encoder@),
{
    let mut args: Vec<String> = Vec::new();
    text::push_string(&mut args, "-hide_banner");
    text::push_string(&mut args, "-loglevel");
    text::push_string(&mut args, "error");
    text::push_string(&mut args, "-f");
    text::push_string(&mut args, "rawvideo");
    text::push_string(&mut args, "-pix_fmt");
    text::push_string(&mut args, "bgra");
    text::push_string(&mut args, "-video_size");
    text::push_string(&mut args, "1x1");
    text::push_string(&mut args, "-framerate");
    text::push_string(&mut args, "1");
    text::push_string(&mut args, "-i");
    text::push_string(&mut args, "pipe:0");
    text::push_string(&mut args, "-frames:v");
    text::push_string(&mut args, "1");
    text::push_string(&mut args, "-c:v");
    text::push_string(&mut args, encoder);
    text::push_string(&mut args, "-f");
    text::push_string(&mut args, "null");
    text::push_string(&mut args, "-");
    proof {
        assert(text::texts(args@) =~= trial_args(encoder@));
    }
    args
}

/// What became of a trial at one moment.
#[derive(Debug, Clone)]
pub enum TrialEvent {
    /// The process could not be started, for this cause.
    NotStarted { cause: String },
    /// It ended with a status, and wrote this to its error output.
    Exited { success: bool, status: String, stderr: String },
    /// It still runs.
    Running { past_deadline: bool },
    /// It could not be waited for, for this cause.
    WaitFailed { cause: String },
}

/// What a trial amounts to.
#[derive(Debug, Clone, PartialEq, Eq)]
pub enum TrialOutcome {
    /// The encoder works.
    Works,
    /// It does not, for this reason.
    Fails { reason: String },
    /// Not known yet: wait and ask again.
    Pending,
}

/// The last line of a text, trimmed; empty if there is none.
pub open spec fn last_line(s: Seq<char>) -> Seq<char> {
    let ls = text::lines(s);
    if ls.len() == 0 {
        Seq::empty()
    } else {
        text::trimmed(ls.last())
    }
}

/// The reason that a trial event gives, or `None`.
pub open spec fn failure_of(event: TrialEvent) -> Option<Seq<char>> {
    match event {
        TrialEvent::NotStarted { cause } => Some("spawn failed: "@ + cause@),
        TrialEvent::Exited { success, status, stderr } => if success {
            None
        } else {
            Some("encode probe exited "@ + status@ + " ("@ + last_line(stderr@) + ")"@)
        },
        TrialEvent::Running { past_deadline } => if past_deadline {
            Some("encode probe timed out"@)
        } else {
            None
        },
        TrialEvent::WaitFailed { cause } => Some("wait failed: "@ + cause@),
    }
}

/// Judges a trial by what became of it.
pub fn try_one_frame(event: TrialEvent) -> (r: TrialOutcome)
    ensures
        match r {
            TrialOutcome::Works => event matches TrialEvent::Exited { success, .. } && success,
            TrialOutcome::Pending => event matches TrialEvent::Running { past_deadline }
                && !past_deadline,
            TrialOutcome::Fails { reason } => failure_of(event) == Some(reason@),
        },
        r is Fails <==> failure_of(event) is Some,
{
    match event {
        TrialEvent::NotStarted { cause } => {
            let mut reason = "spawn failed: ".to_owned();
            text::push_text(&mut reason, cause.as_str());
            TrialOutcome::Fails { reason }
        },
        TrialEvent::Exited { success, status, stderr } => {
            if success {
                return TrialOutcome::Works;
            }
            let chars = text::chars_of(stderr.as_str());
            let lines = text::split_lines(chars.as_slice());
            let mut reason = "encode probe exited ".to_owned();
            text::push_text(&mut reason, status.as_str());
            text::push_text(&mut reason, " (");
            proof {
                assert(text::lines(stderr@).len() == lines@.len());
            }
            if lines.len() > 0 {
                let last = text::string_of(text::trim(lines[lines.len() - 1]));
                proof {
                    assert(text::lines(stderr@).last() == lines@[lines@.len() - 1]@);
                }
                text::push_text(&mut reason, last.as_str());
            }
            text::push_text(&mut reason, ")");
            proof {
                assert(Some(reason@) =~= failure_of(event)) by {
                    assert(reason@ =~= "encode probe exited "@ + status@ + " ("@ + last_line(
                        stderr@,
                    ) + ")"@);
                }
            }
            TrialOutcome::Fails { reason }
        },
        TrialEvent::Running { past_deadline } => {
            if past_deadline {
                TrialOutcome::Fails { reason: "encode probe timed out".to_owned() }
            } else {
                TrialOutcome::Pending
            }
        },
        TrialEvent::WaitFailed { cause } => {
            let mut reason = "wait failed: ".to_owned();
            text::push_text(&mut reason, cause.as_str());
            TrialOutcome::Fails { reason }
        },
    }
}

// ── Selection ──────────────────────────────────────────────────────

/// What an encoder is picked by.
pub enum Criterion {
    /// Runs on this vendor's hardware and puts this codec out.
    Vendor(HwVendor, CodecKind),
    /// Runs on hardware and puts this codec out.
    Hardware(CodecKind),
    /// Has this name.
    Named(Seq<char>),
    /// Anything.
    Any,
}

/// Whether an encoder works and meets a criterion.
pub open spec fn meets(cap: CapabilityModel, by: Criterion) -> bool {
    cap.working && match by {
        Criterion::Vendor(vendor, codec) => cap.hw_vendor == vendor && cap.codec == codec,
        Criterion::Hardware(codec) => cap.hw_vendor != HwVendor::Software && cap.codec == codec,
        Criterion::Named(name) => cap.name == name,
        Criterion::Any => true,
    }
}

/// The first encoder at or behind `i` that meets a criterion.
pub open spec fn first_meeting(caps: Seq<CapabilityModel>, by: Criterion, i: int) -> Option<int>
    decreases caps.len() - i,
{
    if i >= caps.len() {
        None
    } else if meets(caps[i], by) {
        Some(i)
    } else {
        first_meeting(caps, by, i + 1)
    }
}

/// Whether `vendor` stands for hardware.
pub open spec fn is_hardware(vendor: HwVendor) -> bool {
    vendor != HwVendor::Software && vendor != HwVendor::Other
}

/// The criteria for hardware of the vendors that are present: AV1, HEVC, then
/// H.264 of each.
pub open spec fn vendor_criteria(vendors: Seq<HwVendor>) -> Seq<Criterion>
    decreases vendors.len(),
{
    if vendors.len() == 0 {
        Seq::empty()
    } else if is_hardware(vendors.last()) {
        vendor_criteria(vendors.drop_last()) + seq![
            Criterion::Vendor(vendors.last(), CodecKind::Av1),
            Criterion::Vendor(vendors.last(), CodecKind::Hevc),
            Criterion::Vendor(vendors.last(), CodecKind::H264),
        ]
    } else {
        vendor_criteria(vendors.drop_last())
    }
}

/// The criteria that need no vendor: any hardware, then software by name,
/// then anything.
pub open spec fn common_criteria() -> Seq<Criterion> {
    seq![
        Criterion::Hardware(CodecKind::Av1),
        Criterion::Hardware(CodecKind::Hevc),
        Criterion::Hardware(CodecKind::H264),
        Criterion::Named("libsvtav1"@),
        Criterion::Named("libx265"@),
        Criterion::Named("libx264"@),
        Criterion::Any,
    ]
}

/// The encoder that meets the first criterion that any encoder meets.
pub open spec fn pick(caps: Seq<CapabilityModel>, by: Seq<Criterion>) -> Option<int>
    decreases by.len(),
{
    if by.len() == 0 {
        None
    } else {
        match first_meeting(caps, by[0], 0) {
            Some(i) => Some(i),
            None => pick(caps, by.drop_first()),
        }
    }
}

/// The encoder to use, given the vendors whose hardware is present.
pub open spec fn selection(caps: Seq<CapabilityModel>, vendors: Seq<HwVendor>) -> Option<int> {
    pick(caps, vendor_criteria(vendors) + common_criteria())
}

proof fn lemma_first_meeting(caps: Seq<CapabilityModel>, by: Criterion, i: int)
    requires
        0 <= i,
    ensures
        match first_meeting(caps, by, i) {
            Some(k) => i <= k < caps.len() && meets(caps[k], by) && forall|j: int|
                i <= j < k ==> !meets(caps[j], by),
            None => forall|j: int| i <= j < caps.len() ==> !meets(caps[j], by),
        },
    decreases caps.len() - i,
{
    if i < caps.len() && !meets(caps[i], by) {
        lemma_first_meeting(caps, by, i + 1);
    }
}

/// Skipping criteria that nothing meets changes nothing.
proof fn lemma_pick_skip(caps: Seq<CapabilityModel>, front: Seq<Criterion>, back: Seq<Criterion>)
    ensures
        pick(caps, front + back) == (match pick(caps, front) {
            Some(i) => Some(i),
            None => pick(caps, back),
        }),
    decreases front.len(),
{
    if front.len() == 0 {
        assert(front + back =~= back);
    } else {
        assert((front + back).drop_first() =~= front.drop_first() + back);
        lemma_pick_skip(caps, front.drop_first(), back);
    }
}

fn find_hardware(
    caps: &[EncoderCapability],
    vendor: Option<HwVendor>,
    codec: CodecKind,
) -> (r: Option<usize>)
    ensures
        ({
            let by = match vendor {
                Some(v) => Criterion::Vendor(v, codec),
                None => Criterion::Hardware(codec),
            };
            match r {
                Some(i) => first_meeting(capability_models(caps@), by, 0) == Some(i as int),
                None => first_meeting(capability_models(caps@), by, 0) is None,
            }
        }),
        r is Some ==> r->0 < caps@.len(),
{
    let ghost by = match vendor {
        Some(v) => Criterion::Vendor(v, codec),
        None => Criterion::Hardware(codec),
    };
    let ghost models = capability_models(caps@);
    let mut i: usize = 0;
    while i < caps.len()
        invariant
            i <= caps@.len(),
            models == capability_models(caps@),
            by == (match vendor {
                Some(v) => Criterion::Vendor(v, codec),
                None => Criterion::Hardware(codec),
            }),
            first_meeting(models, by, i as int) == first_meeting(models, by, 0),
        decreases caps@.len() - i,
    {
        let c = &caps[i];
        assert(models[i as int] == c@);
        let right_vendor: bool = match vendor {
            Some(v) => c.hw_vendor == v,
            None => c.hw_vendor != HwVendor::Software,
        };
        if c.working && right_vendor && c.codec == codec {
            return Some(i);
        }
        i = i + 1;
    }
    None
}

fn find_named(caps: &[EncoderCapability], name: Option<&str>) -> (r: Option<usize>)
    ensures
        ({
            let by = match name {
                Some(n) => Criterion::Named(n@),
                None => Criterion::Any,
            };
            match r {
                Some(i) => first_meeting(capability_models(caps@), by, 0) == Some(i as int),
                None => first_meeting(capability_models(caps@), by, 0) is None,
            }
        }),
        r is Some ==> r->0 < caps@.len(),
{
    let ghost by = match name {
        Some(n) => Criterion::Named(n@),
        None => Criterion::Any,
    };
    let ghost models = capability_models(caps@);
    let mut i: usize = 0;
    while i < caps.len()
        invariant
            i <= caps@.len(),
            models == capability_models(caps@),
            by == (match name {
                Some(n) => Criterion::Named(n@),
                None => Criterion::Any,
            }),
            first_meeting(models, by, i as int) == first_meeting(models, by, 0),
        decreases caps@.len() - i,
    {
        let c = &caps[i];
        assert(models[i as int] == c@);
        let right_name: bool = match name {
            Some(n) => text::same(c.name.as_str(), n),
            None => true,
        };
        if c.working && right_name {
            return Some(i);
        }
        i = i + 1;
    }
    None
}

/// The encoder of a vendor, or of any hardware: AV1, HEVC, then H.264.
fn find_by_codec(caps: &[EncoderCapability], vendor: Option<HwVendor>) -> (r: Option<usize>)
    ensures
        ({
            let by = match vendor {
                Some(v) => seq![
                    Criterion::Vendor(v, CodecKind::Av1),
                    Criterion::Vendor(v, CodecKind::Hevc),
                    Criterion::Vendor(v, CodecKind::H264),
                ],
                None => common_criteria().take(3),
            };
            match r {
                Some(i) => pick(capability_models(caps@), by) == Some(i as int),
                None => pick(capability_models(caps@), by) is None,
            }
        }),
        r is Some ==> r->0 < caps@.len(),
{
    proof {
        reveal_with_fuel(pick, 4);
    }
    if let Some(i) = find_hardware(caps, vendor, CodecKind::Av1) {
        return Some(i);
    }
    if let Some(i) = find_hardware(caps, vendor, CodecKind::Hevc) {
        return Some(i);
    }
    find_hardware(caps, vendor, CodecKind::H264)
}

fn find_default(caps: &[EncoderCapability], vendors: &[HwVendor]) -> (r: Option<usize>)
    ensures
        match r {
            Some(i) => selection(capability_models(caps@), vendors@) == Some(i as int),
            None => selection(capability_models(caps@), vendors@) is None,
        },
        r is Some ==> r->0 < caps@.len(),
{
    let ghost models = capability_models(caps@);
    let ghost common = common_criteria();
    let mut i: usize = 0;
    proof {
        lemma_pick_skip(models, vendor_criteria(vendors@), common);
        assert(vendors@.take(0) =~= Seq::<HwVendor>::empty());
    }
    while i < vendors.len()
        invariant
            i <= vendors@.len(),
            models == capability_models(caps@),
            pick(models, vendor_criteria(vendors@.take(i as int))) is None,
            common == common_criteria(),
            selection(models, vendors@) == (match pick(models, vendor_criteria(vendors@)) {
                Some(k) => Some(k),
                None => pick(models, common),
            }),
        decreases vendors@.len() - i,
    {
        let v = vendors[i];
        let ghost done = vendors@.take(i as int);
        let ghost more = vendors@.take(i + 1);
        let ghost own = seq![
            Criterion::Vendor(v, CodecKind::Av1),
            Criterion::Vendor(v, CodecKind::Hevc),
            Criterion::Vendor(v, CodecKind::H264),
        ];
        proof {
            assert(more.drop_last() =~= done);
            assert(more.last() == v);
            lemma_pick_skip(models, vendor_criteria(done), own);
        }
        if v != HwVendor::Software && v != HwVendor::Other {
            if let Some(k) = find_by_codec(caps, Some(v)) {
                proof {
                    lemma_vendors_extend(models, vendors@, i + 1);
                }
                return Some(k);
            }
        }
        i = i + 1;
    }
    proof {
        assert(vendors@.take(i as int) =~= vendors@);
        lemma_pick_skip(models, common.take(3), common.skip(3));
        assert(common.take(3) + common.skip(3) =~= common);
        reveal_with_fuel(pick, 5);
    }
    if let Some(k) = find_by_codec(caps, None) {
        return Some(k);
    }
    if let Some(k) = find_named(caps, Some("libsvtav1")) {
        return Some(k);
    }
    if let Some(k) = find_named(caps, Some("libx265")) {
        return Some(k);
    }
    if let Some(k) = find_named(caps, Some("libx264")) {
        return Some(k);
    }
    find_named(caps, None)
}

/// What the first vendors decide, further ones do not change.
proof fn lemma_vendors_extend(caps: Seq<CapabilityModel>, vendors: Seq<HwVendor>, n: int)
    requires
        0 <= n <= vendors.len(),
        pick(caps, vendor_criteria(vendors.take(n))) is Some,
    ensures
        pick(caps, vendor_criteria(vendors)) == pick(caps, vendor_criteria(vendors.take(n))),
    decreases vendors.len() - n,
{
    if n == vendors.len() {
        assert(vendors.take(n) =~= vendors);
    } else {
        let more = vendors.take(n + 1);
        assert(more.drop_last() =~= vendors.take(n));
        let v = more.last();
        let own = seq![
            Criterion::Vendor(v, CodecKind::Av1),
            Criterion::Vendor(v, CodecKind::Hevc),
            Criterion::Vendor(v, CodecKind::H264),
        ];
        lemma_pick_skip(caps, vendor_criteria(vendors.take(n)), own);
        lemma_vendors_extend(caps, vendors, n + 1);
    }
}

/// Picks the encoder to use, preferring the hardware that is present: AV1,
/// HEVC and H.264 of each vendor in turn, then of any hardware, then
/// software.
pub fn select_default<'a>(
    caps: &'a [EncoderCapability],
    vendors_present: &[HwVendor],
) -> (r: Option<&'a EncoderCapability>)
    ensures
        match r {
            Some(c) => selection(capability_models(caps@), vendors_present@) is Some && c@
                == capability_models(caps@)[selection(
                capability_models(caps@),
                vendors_present@,
            )->0],
            None => selection(capability_models(caps@), vendors_present@) is None,
        },
{
    match find_default(caps, vendors_present) {
        Some(i) => Some(&caps[i]),
        None => None,
    }
}

/// The vendors whose adapters are listed by the system: none are, so that the
/// order without vendors applies.
pub fn dxgi_vendors() -> (r: Vec<HwVendor>)
    ensures
        r@ == Seq::<HwVendor>::empty(),
{
    Vec::new()
}

// ── Laws ───────────────────────────────────────────────────────────

proof fn lemma_pick(caps: Seq<CapabilityModel>, by: Seq<Criterion>)
    ensures
        match pick(caps, by) {
            Some(i) => 0 <= i < caps.len() && caps[i].working && exists|k: int|
                0 <= k < by.len() && #[trigger] meets(caps[i], by[k]) && forall|j: int, m: int|
                    0 <= j < k && 0 <= m < caps.len() ==> !(#[trigger] meets(caps[m], by[j])),
            None => forall|k: int, m: int|
                0 <= k < by.len() && 0 <= m < caps.len() ==> !(#[trigger] meets(caps[m], by[k])),
        },
    decreases by.len(),
{
    if by.len() > 0 {
        lemma_first_meeting(caps, by[0], 0);
        let rest = by.drop_first();
        match first_meeting(caps, by[0], 0) {
            Some(i) => {
                assert(meets(caps[i], by[0]));
            },
            None => {
                lemma_pick(caps, rest);
                match pick(caps, rest) {
                    Some(i) => {
                        let k = choose|k: int|
                            0 <= k < rest.len() && #[trigger] meets(caps[i], rest[k]) && forall|
                                j: int,
                                m: int,
                            |
                                0 <= j < k && 0 <= m < caps.len() ==> !(#[trigger] meets(caps[m], rest[j]));
                        assert(by[k + 1] == rest[k]);
                        assert forall|j: int, m: int|
                            0 <= j < k + 1 && 0 <= m < caps.len() implies !(#[trigger] meets(caps[m], by[j])) by {
                            if j > 0 {
                                assert(by[j] == rest[j - 1]);
                            }
                        }
                    },
                    None => {
                        assert forall|k: int, m: int|
                            0 <= k < by.len() && 0 <= m < caps.len() implies !(#[trigger] meets(caps[m], by[k])) by {
                            if k > 0 {
                                assert(by[k] == rest[k - 1]);
                            }
                        }
                    },
                }
            },
        }
    }
}

/// The encoder that is picked works, and none is picked only when none works.
pub proof fn law_selection_works(caps: Seq<CapabilityModel>, vendors: Seq<HwVendor>)
    ensures
        match selection(caps, vendors) {
            Some(i) => 0 <= i < caps.len() && caps[i].working,
            None => forall|m: int| 0 <= m < caps.len() ==> !(#[trigger] caps[m]).working,
        },
{
    let by = vendor_criteria(vendors) + common_criteria();
    lemma_pick(caps, by);
    let k = by.len() - 1;
    assert(by[k] == Criterion::Any);
    if selection(caps, vendors) is None {
        assert forall|m: int| 0 <= m < caps.len() implies !(#[trigger] caps[m]).working by {
            assert(!meets(caps[m], by[k]));
        }
    }
}

/// Hardware beats software: when an encoder that runs on hardware works, the
/// one that is picked runs on hardware too.
pub proof fn law_hardware_beats_software(
    caps: Seq<CapabilityModel>,
    vendors: Seq<HwVendor>,
    m: int,
)
    requires
        0 <= m < caps.len(),
        caps[m].working,
        caps[m].hw_vendor != HwVendor::Software,
    ensures
        selection(caps, vendors) is Some,
        caps[selection(caps, vendors)->0].hw_vendor != HwVendor::Software,
{
    let own = vendor_criteria(vendors);
    let common = common_criteria();
    lemma_pick_skip(caps, own, common);
    lemma_pick(caps, own);
    lemma_vendor_criteria(vendors);
    match pick(caps, own) {
        Some(i) => {
            let k = choose|k: int|
                0 <= k < own.len() && #[trigger] meets(caps[i], own[k]) && forall|j: int, n: int|
                    0 <= j < k && 0 <= n < caps.len() ==> !(#[trigger] meets(caps[n], own[j]));
            assert(own[k] is Vendor);
        },
        None => {
            lemma_pick_skip(caps, common.take(3), common.skip(3));
            assert(common.take(3) + common.skip(3) =~= common);
            let hw = common.take(3);
            lemma_pick(caps, hw);
            let k = match caps[m].codec {
                CodecKind::Av1 => 0int,
                CodecKind::Hevc => 1int,
                CodecKind::H264 => 2int,
            };
            assert(meets(caps[m], hw[k]));
        },
    }
}

proof fn lemma_vendor_criteria(vendors: Seq<HwVendor>)
    ensures
        forall|k: int|
            0 <= k < vendor_criteria(vendors).len() ==> (#[trigger] vendor_criteria(
                vendors,
            )[k]) is Vendor && is_hardware(vendor_criteria(vendors)[k]->Vendor_0)
                && vendors.contains(vendor_criteria(vendors)[k]->Vendor_0),
    decreases vendors.len(),
{
    if vendors.len() > 0 {
        let before = vendors.drop_last();
        lemma_vendor_criteria(before);
        let v = vendors.last();
        assert(vendors[vendors.len() - 1] == v);
        assert forall|k: int| 0 <= k < vendor_criteria(vendors).len() implies (
        #[trigger] vendor_criteria(vendors)[k]) is Vendor && is_hardware(
            vendor_criteria(vendors)[k]->Vendor_0,
        ) && vendors.contains(vendor_criteria(vendors)[k]->Vendor_0) by {
            let c = vendor_criteria(vendors)[k];
            if k < vendor_criteria(before).len() {
                assert(c == vendor_criteria(before)[k]);
                let x = c->Vendor_0;
                let w = choose|w: int| 0 <= w < before.len() && before[w] == x;
                assert(vendors[w] == x);
            }
        }
    }
}

/// Hardware that is present comes first: when an encoder of a present vendor
/// works, the one that is picked is of a present vendor too.
pub proof fn law_present_vendors_come_first(
    caps: Seq<CapabilityModel>,
    vendors: Seq<HwVendor>,
    m: int,
)
    requires
        0 <= m < caps.len(),
        caps[m].working,
        is_hardware(caps[m].hw_vendor),
        vendors.contains(caps[m].hw_vendor),
    ensures
        selection(caps, vendors) is Some,
        vendors.contains(caps[selection(caps, vendors)->0].hw_vendor),
{
    let own = vendor_criteria(vendors);
    lemma_pick_skip(caps, own, common_criteria());
    lemma_pick(caps, own);
    lemma_vendor_criteria(vendors);
    lemma_has_criterion(vendors, caps[m].hw_vendor, caps[m].codec);
    let c = Criterion::Vendor(caps[m].hw_vendor, caps[m].codec);
    let k = choose|k: int| 0 <= k < own.len() && own[k] == c;
    assert(meets(caps[m], own[k]));
    match pick(caps, own) {
        Some(i) => {
            let q = choose|q: int|
                0 <= q < own.len() && #[trigger] meets(caps[i], own[q]) && forall|j: int, n: int|
                    0 <= j < q && 0 <= n < caps.len() ==> !(#[trigger] meets(caps[n], own[j]));
            assert(own[q] is Vendor);
        },
        None => {},
    }
}

proof fn lemma_has_criterion(vendors: Seq<HwVendor>, v: HwVendor, codec: CodecKind)
    requires
        is_hardware(v),
        vendors.contains(v),
    ensures
        vendor_criteria(vendors).contains(Criterion::Vendor(v, codec)),
    decreases vendors.len(),
{
    let all = vendor_criteria(vendors);
    let before = vendors.drop_last();
    let c = Criterion::Vendor(v, codec);
    if vendors.last() == v {
        let n = vendor_criteria(before).len();
        let k = match codec {
            CodecKind::Av1 => 0int,
            CodecKind::Hevc => 1int,
            CodecKind::H264 => 2int,
        };
        assert(all[n + k] == c);
    } else {
        let w = choose|w: int| 0 <= w < vendors.len() && vendors[w] == v;
        assert(before[w] == v);
        lemma_has_criterion(before, v, codec);
        let k = choose|k: int|
            0 <= k < vendor_criteria(before).len() && vendor_criteria(before)[k] == c;
        assert(all[k] == c);
    }
}

/// A probe has one row per known encoder, and each that does not work says why.
pub proof fn law_probe_rows(installed: Seq<Seq<char>>, i: int)
    requires
        0 <= i < backends::known_encoders().len(),
    ensures
        probed(backends::known_encoders()[i], installed).name == backends::known_encoders()[i],
        probed(backends::known_encoders()[i], installed).working <==> probed(
            backends::known_encoders()[i],
            installed,
        ).reason is None,
{
}

/// Trying an encoder never makes a broken one work, and one that works keeps
/// working only without a failure.
pub proof fn law_attempts_only_downgrade(cap: CapabilityModel, failure: Option<Seq<char>>)
    ensures
        after_attempt(cap, failure).working <==> cap.working && failure is None,
        after_attempt(cap, failure).name == cap.name,
{
}

/// Where a codec stands among those to prefer: AV1, then HEVC, then H.264.
spec fn preference(codec: CodecKind) -> int {
    match codec {
        CodecKind::Av1 => 1,
        CodecKind::Hevc => 2,
        CodecKind::H264 => 3,
    }
}

/// The first criterion that anything meets decides, and the first that meets it
/// is picked.
proof fn lemma_pick_at(caps: Seq<CapabilityModel>, by: Seq<Criterion>, k: int, m: int)
    requires
        0 <= k < by.len(),
        0 <= m < caps.len(),
        meets(caps[m], by[k]),
        forall|j: int, n: int|
            0 <= j < k && 0 <= n < caps.len() ==> !(#[trigger] meets(caps[n], by[j])),
    ensures
        pick(caps, by) is Some,
        ({
            let i = pick(caps, by)->0;
            0 <= i < caps.len() && meets(caps[i], by[k]) && forall|n: int|
                0 <= n < i ==> !meets(#[trigger] caps[n], by[k])
        }),
    decreases k,
{
    lemma_first_meeting(caps, by[0], 0);
    if k > 0 {
        assert forall|n: int| 0 <= n < caps.len() implies !meets(caps[n], by[0]) by {}
        let rest = by.drop_first();
        assert(rest[k - 1] == by[k]);
        assert forall|j: int, n: int| 0 <= j < k - 1 && 0 <= n < caps.len() implies !(
        #[trigger] meets(caps[n], rest[j])) by {
            assert(rest[j] == by[j + 1]);
        }
        lemma_pick_at(caps, rest, k - 1, m);
    }
}

/// Of three criteria that go through the codecs, the one for the best codec
/// that is there decides.
proof fn lemma_pick_codec(
    caps: Seq<CapabilityModel>,
    by: Seq<Criterion>,
    good: spec_fn(CapabilityModel) -> bool,
    m: int,
)
    requires
        by.len() >= 3,
        0 <= m < caps.len(),
        good(caps[m]),
        forall|n: int|
            0 <= n < caps.len() ==> (meets(#[trigger] caps[n], by[0]) <==> good(caps[n])
                && caps[n].codec == CodecKind::Av1),
        forall|n: int|
            0 <= n < caps.len() ==> (meets(#[trigger] caps[n], by[1]) <==> good(caps[n])
                && caps[n].codec == CodecKind::Hevc),
        forall|n: int|
            0 <= n < caps.len() ==> (meets(#[trigger] caps[n], by[2]) <==> good(caps[n])
                && caps[n].codec == CodecKind::H264),
    ensures
        pick(caps, by) is Some,
        ({
            let i = pick(caps, by)->0;
            0 <= i < caps.len() && good(caps[i]) && forall|n: int|
                0 <= n < caps.len() && good(#[trigger] caps[n]) ==> preference(caps[i].codec)
                    <= preference(caps[n].codec) && (caps[i].codec == caps[n].codec ==> i <= n)
        }),
{
    if exists|n: int|
        0 <= n < caps.len() && good(#[trigger] caps[n]) && caps[n].codec == CodecKind::Av1 {
        let n = choose|n: int|
            0 <= n < caps.len() && good(#[trigger] caps[n]) && caps[n].codec == CodecKind::Av1;
        lemma_pick_at(caps, by, 0, n);
    } else if exists|n: int|
        0 <= n < caps.len() && good(#[trigger] caps[n]) && caps[n].codec == CodecKind::Hevc {
        let n = choose|n: int|
            0 <= n < caps.len() && good(#[trigger] caps[n]) && caps[n].codec == CodecKind::Hevc;
        lemma_pick_at(caps, by, 1, n);
    } else {
        lemma_pick_at(caps, by, 2, m);
    }
}

/// No criterion of a present vendor is met when none of their encoders works.
proof fn lemma_no_present_vendor(caps: Seq<CapabilityModel>, vendors: Seq<HwVendor>)
    requires
        forall|n: int|
            0 <= n < caps.len() && (#[trigger] caps[n]).working && is_hardware(caps[n].hw_vendor)
                ==> !vendors.contains(caps[n].hw_vendor),
    ensures
        pick(caps, vendor_criteria(vendors)) is None,
{
    let own = vendor_criteria(vendors);
    lemma_vendor_criteria(vendors);
    lemma_pick(caps, own);
    if let Some(i) = pick(caps, own) {
        let k = choose|k: int|
            0 <= k < own.len() && #[trigger] meets(caps[i], own[k]) && forall|j: int, n: int|
                0 <= j < k && 0 <= n < caps.len() ==> !(#[trigger] meets(caps[n], own[j]));
        assert(own[k] is Vendor);
        assert(caps[i].working);
    }
}

/// When no present vendor has an encoder that works, the best codec decides
/// among all that run on hardware: none that works has a better codec than the
/// one that is picked, and of several with its codec it is the first.
pub proof fn law_best_codec_among_hardware(
    caps: Seq<CapabilityModel>,
    vendors: Seq<HwVendor>,
    m: int,
)
    requires
        0 <= m < caps.len(),
        caps[m].working,
        caps[m].hw_vendor != HwVendor::Software,
        forall|n: int|
            0 <= n < caps.len() && (#[trigger] caps[n]).working && caps[n].hw_vendor
                != HwVendor::Software && caps[n].hw_vendor != HwVendor::Other ==> !vendors.contains(
                caps[n].hw_vendor,
            ),
    ensures
        selection(caps, vendors) is Some,
        ({
            let i = selection(caps, vendors)->0;
            &&& 0 <= i < caps.len()
            &&& caps[i].working
            &&& caps[i].hw_vendor != HwVendor::Software
            &&& forall|n: int|
                0 <= n < caps.len() && (#[trigger] caps[n]).working && caps[n].hw_vendor
                    != HwVendor::Software ==> {
                    &&& caps[n].codec == CodecKind::Av1 ==> caps[i].codec == CodecKind::Av1
                    &&& caps[n].codec == CodecKind::Hevc ==> caps[i].codec != CodecKind::H264
                    &&& caps[n].codec == caps[i].codec ==> i <= n
                }
        }),
{
    lemma_no_present_vendor(caps, vendors);
    lemma_pick_skip(caps, vendor_criteria(vendors), common_criteria());
    let good = |c: CapabilityModel| c.working && c.hw_vendor != HwVendor::Software;
    lemma_pick_codec(caps, common_criteria(), good, m);
}

proof fn lemma_vendor_criteria_concat(a: Seq<HwVendor>, b: Seq<HwVendor>)
    ensures
        vendor_criteria(a + b) == vendor_criteria(a) + vendor_criteria(b),
    decreases b.len(),
{
    if b.len() == 0 {
        assert(a + b =~= a);
        assert(vendor_criteria(a) + vendor_criteria(b) =~= vendor_criteria(a));
    } else {
        lemma_vendor_criteria_concat(a, b.drop_last());
        assert((a + b).drop_last() =~= a + b.drop_last());
        assert((a + b).last() == b.last());
        assert(vendor_criteria(a + b) =~= vendor_criteria(a) + vendor_criteria(b));
    }
}

/// The vendors are gone through in the order in which they are present. The
/// first with an encoder that works decides: one of its encoders is picked,
/// none of those that work has a better codec, and of several with its codec it
/// is the first.
pub proof fn law_first_present_vendor_decides(
    caps: Seq<CapabilityModel>,
    vendors: Seq<HwVendor>,
    a: int,
    m: int,
)
    requires
        0 <= a < vendors.len(),
        vendors[a] != HwVendor::Software,
        vendors[a] != HwVendor::Other,
        0 <= m < caps.len(),
        caps[m].working,
        caps[m].hw_vendor == vendors[a],
        forall|b: int, n: int|
            #![trigger vendors[b], caps[n]]
            0 <= b < a && 0 <= n < caps.len() && caps[n].working && caps[n].hw_vendor
                != HwVendor::Software && caps[n].hw_vendor != HwVendor::Other ==> caps[n].hw_vendor
                != vendors[b],
    ensures
        selection(caps, vendors) is Some,
        ({
            let i = selection(caps, vendors)->0;
            &&& 0 <= i < caps.len()
            &&& caps[i].working
            &&& caps[i].hw_vendor == vendors[a]
            &&& forall|n: int|
                0 <= n < caps.len() && (#[trigger] caps[n]).working && caps[n].hw_vendor
                    == vendors[a] ==> {
                    &&& caps[n].codec == CodecKind::Av1 ==> caps[i].codec == CodecKind::Av1
                    &&& caps[n].codec == CodecKind::Hevc ==> caps[i].codec != CodecKind::H264
                    &&& caps[n].codec == caps[i].codec ==> i <= n
                }
        }),
{
    let v = vendors[a];
    let before = vendors.take(a);
    let after = vendors.skip(a + 1);
    assert(vendors =~= before + (seq![v] + after));
    lemma_vendor_criteria_concat(before, seq![v] + after);
    lemma_vendor_criteria_concat(seq![v], after);
    assert(seq![v].drop_last() =~= Seq::<HwVendor>::empty());
    let own = seq![
        Criterion::Vendor(v, CodecKind::Av1),
        Criterion::Vendor(v, CodecKind::Hevc),
        Criterion::Vendor(v, CodecKind::H264),
    ];
    assert(vendor_criteria(Seq::<HwVendor>::empty()) =~= Seq::<Criterion>::empty());
    assert(vendor_criteria(seq![v]) =~= own);
    let rest = own + (vendor_criteria(after) + common_criteria());
    assert(vendor_criteria(vendors) + common_criteria() =~= vendor_criteria(before) + rest);
    assert forall|n: int|
        0 <= n < caps.len() && (#[trigger] caps[n]).working && is_hardware(
            caps[n].hw_vendor,
        ) implies !before.contains(caps[n].hw_vendor) by {
        if before.contains(caps[n].hw_vendor) {
            let b = choose|b: int| 0 <= b < before.len() && before[b] == caps[n].hw_vendor;
            assert(vendors[b] == before[b]);
        }
    }
    lemma_no_present_vendor(caps, before);
    lemma_pick_skip(caps, vendor_criteria(before), rest);
    assert(rest[0] == own[0] && rest[1] == own[1] && rest[2] == own[2]);
    let good = |c: CapabilityModel| c.working && c.hw_vendor == v;
    lemma_pick_codec(caps, rest, good, m);
}

/// When only software encoders work, libsvtav1 is picked if it works, else
/// libx265, else libx264, else the first that works.
pub proof fn law_software_order(caps: Seq<CapabilityModel>, vendors: Seq<HwVendor>, m: int)
    requires
        0 <= m < caps.len(),
        caps[m].working,
        forall|n: int|
            0 <= n < caps.len() && (#[trigger] caps[n]).working ==> caps[n].hw_vendor
                == HwVendor::Software,
    ensures
        selection(caps, vendors) is Some,
        ({
            let i = selection(caps, vendors)->0;
            let name = caps[i].name;
            &&& 0 <= i < caps.len()
            &&& caps[i].working
            &&& caps[m].name == "libsvtav1"@ ==> name == "libsvtav1"@
            &&& caps[m].name == "libx265"@ ==> name == "libsvtav1"@ || name == "libx265"@
            &&& caps[m].name == "libx264"@ ==> name == "libsvtav1"@ || name == "libx265"@ || name
                == "libx264"@
            &&& caps[m].name == name ==> i <= m
            &&& name != "libsvtav1"@ && name != "libx265"@ && name != "libx264"@ ==> i <= m
        }),
{
    lemma_no_present_vendor(caps, vendors);
    lemma_pick_skip(caps, vendor_criteria(vendors), common_criteria());
    let by = common_criteria();
    assert forall|j: int, n: int| 0 <= j < 3 && 0 <= n < caps.len() implies !(#[trigger] meets(
        caps[n],
        by[j],
    )) by {}
    if exists|n: int|
        0 <= n < caps.len() && (#[trigger] caps[n]).working && caps[n].name == "libsvtav1"@ {
        let n = choose|n: int|
            0 <= n < caps.len() && (#[trigger] caps[n]).working && caps[n].name == "libsvtav1"@;
        lemma_pick_at(caps, by, 3, n);
    } else if exists|n: int|
        0 <= n < caps.len() && (#[trigger] caps[n]).working && caps[n].name == "libx265"@ {
        let n = choose|n: int|
            0 <= n < caps.len() && (#[trigger] caps[n]).working && caps[n].name == "libx265"@;
        lemma_pick_at(caps, by, 4, n);
    } else if exists|n: int|
        0 <= n < caps.len() && (#[trigger] caps[n]).working && caps[n].name == "libx264"@ {
        let n = choose|n: int|
            0 <= n < caps.len() && (#[trigger] caps[n]).working && caps[n].name == "libx264"@;
        lemma_pick_at(caps, by, 5, n);
    } else {
        lemma_pick_at(caps, by, 6, m);
    }
}

proof fn lemma_table_push(ls: Seq<Seq<char>>, line: Seq<char>, in_table: bool)
    ensures
        table_encoders(ls.push(line), in_table) == table_encoders(ls, in_table) + if (in_table
            || exists|i: int| 0 <= i < ls.len() && is_rule(#[trigger] ls[i])) && !is_rule(line) {
            video_encoder(line)
        } else {
            Seq::empty()
        },
    decreases ls.len(),
{
    let all = ls.push(line);
    if ls.len() == 0 {
        assert(all.drop_first() =~= Seq::<Seq<char>>::empty());
        assert(all[0] == line);
        assert(table_encoders(all.drop_first(), true) =~= Seq::<Seq<char>>::empty());
        assert(table_encoders(all.drop_first(), false) =~= Seq::<Seq<char>>::empty());
    } else {
        assert(all[0] == ls[0]);
        let rest = ls.drop_first();
        assert(all.drop_first() =~= rest.push(line));
        lemma_table_push(rest, line, true);
        lemma_table_push(rest, line, false);
        if exists|i: int| 0 <= i < ls.len() && is_rule(#[trigger] ls[i]) {
            let i = choose|i: int| 0 <= i < ls.len() && is_rule(#[trigger] ls[i]);
            if i > 0 {
                assert(rest[i - 1] == ls[i]);
            }
        }
        if exists|i: int| 0 <= i < rest.len() && is_rule(#[trigger] rest[i]) {
            let i = choose|i: int| 0 <= i < rest.len() && is_rule(#[trigger] rest[i]);
            assert(ls[i + 1] == rest[i]);
        }
    }
    assert(table_encoders(all, in_table) =~= table_encoders(ls, in_table) + if (in_table || exists|
        i: int,
    | 0 <= i < ls.len() && is_rule(#[trigger] ls[i])) && !is_rule(line) {
        video_encoder(line)
    } else {
        Seq::empty()
    });
}

/// A line of FFmpeg's table of encoders adds at most one name to the list, at
/// its end: its second word, if a rule (a line that starts with six dashes, or
/// a space and five) stands above it, it is no rule itself, and its first word
/// starts with a V.
pub proof fn law_table_row(ls: Seq<Seq<char>>, line: Seq<char>)
    ensures
        ({
            let rule = |l: Seq<char>|
                text::starts(l, "------"@) || text::starts(l, " -----"@);
            let w = text::words(line);
            let before = table_encoders(ls, false);
            let after = table_encoders(ls.push(line), false);
            if (exists|i: int| 0 <= i < ls.len() && rule(#[trigger] ls[i])) && !rule(line)
                && w.len() >= 2 && w[0].len() > 0 && w[0][0] == 'V' {
                after == before.push(w[1])
            } else {
                after == before
            }
        }),
        table_encoders(Seq::empty(), false) == Seq::<Seq<char>>::empty(),
{
    lemma_table_push(ls, line, false);
    reveal_strlit("V");
    let w = text::words(line);
    let before = table_encoders(ls, false);
    if w.len() >= 2 {
        if text::starts(w[0], "V"@) {
            assert(w[0].subrange(0, 1)[0] == 'V');
        }
        if w[0].len() > 0 && w[0][0] == 'V' {
            assert(w[0].subrange(0, 1) =~= "V"@);
        }
    }
    assert(before + Seq::<Seq<char>>::empty() =~= before);
    if w.len() >= 2 {
        assert(before + seq![w[1]] =~= before.push(w[1]));
    }
}

/// A probe tells of an encoder that it works exactly when FFmpeg lists it, and
/// otherwise why not; its vendor is the one whose hardware the name stands for.
pub proof fn law_probe_tells(name: Seq<char>, installed: Seq<Seq<char>>)
    ensures
        ({
            let cap = probed(name, installed);
            &&& cap.name == name
            &&& cap.codec == codec_named(name)
            &&& cap.working <==> installed.contains(name)
            &&& !installed.contains(name) ==> cap.reason == Some("not in ffmpeg -encoders"@)
            &&& installed.contains(name) ==> cap.reason is None
            &&& cap.hw_vendor == if name == "h264_amf"@ || name == "hevc_amf"@ || name
                == "av1_amf"@ {
                HwVendor::Amd
            } else if name == "h264_nvenc"@ || name == "hevc_nvenc"@ || name == "av1_nvenc"@ {
                HwVendor::Nvidia
            } else if name == "h264_qsv"@ || name == "hevc_qsv"@ || name == "av1_qsv"@ {
                HwVendor::Intel
            } else if name == "h264_mf"@ || name == "hevc_mf"@ {
                HwVendor::Microsoft
            } else if name == "libx264"@ || name == "libx265"@ || name == "libsvtav1"@ || name
                == "libaom-av1"@ {
                HwVendor::Software
            } else {
                HwVendor::Other
            }
        }),
{
    laws::lemma_names();
}

/// A failed trial is what a row then tells; what it says of the encoder apart
/// from that stays.
pub proof fn law_failed_trial_is_told(cap: CapabilityModel, cause: Seq<char>)
    ensures
        cap.working ==> after_attempt(cap, Some(cause)).reason == Some(cause),
        !cap.working ==> after_attempt(cap, Some(cause)) == cap,
        after_attempt(cap, None) == cap,
        after_attempt(cap, Some(cause)).name == cap.name,
        after_attempt(cap, Some(cause)).codec == cap.codec,
        after_attempt(cap, Some(cause)).hw_vendor == cap.hw_vendor,
{
}

/// A trial encodes one frame with the encoder and throws it away.
pub proof fn law_trial_tries_the_encoder(encoder: Seq<char>)
    ensures
        laws::passes(trial_args(encoder), "-c:v"@, encoder),
        laws::passes(trial_args(encoder), "-frames:v"@, "1"@),
        laws::passes(trial_args(encoder), "-i"@, "pipe:0"@),
        laws::passes(trial_args(encoder), "-video_size"@, "1x1"@),
        laws::passes(trial_args(encoder), "-pix_fmt"@, "bgra"@),
        laws::passes(trial_args(encoder), "-f"@, "rawvideo"@),
        laws::passes(trial_args(encoder), "-f"@, "null"@),
        laws::passes(trial_args(encoder), "-framerate"@, "1"@),
        trial_args(encoder).last() == "-"@,
{
    let a = trial_args(encoder);
    assert(a[3] == "-f"@ && a[4] == "rawvideo"@ && a[5] == "-pix_fmt"@ && a[6] == "bgra"@);
    assert(a[7] == "-video_size"@ && a[8] == "1x1"@ && a[9] == "-framerate"@ && a[10] == "1"@);
    assert(a[11] == "-i"@ && a[12] == "pipe:0"@ && a[13] == "-frames:v"@ && a[14] == "1"@);
    assert(a[15] == "-c:v"@ && a[16] == encoder && a[17] == "-f"@ && a[18] == "null"@);
}

/// The reason that is told of a failed trial is the last line of the error
/// output, without the white space around it.
pub proof fn law_last_line(before: Seq<char>, line: Seq<char>)
    requires
        line.len() > 0,
        !line.contains('\n'),
    ensures
        last_line(line) == text::trimmed(line),
        last_line(before.push('\n') + line) == text::trimmed(line),
        last_line(Seq::<char>::empty()) == Seq::<char>::empty(),
    decreases before.len(),
{
    text::law_lines(line, Seq::empty());
    let s = before.push('\n') + line;
    text::lemma_find(before, '\n', 0);
    let n = text::find(before, '\n', 0);
    if n < before.len() {
        let first = before.take(n);
        let rest = before.skip(n + 1);
        law_last_line(rest, line);
        text::lemma_find(s, '\n', 0);
        assert(s[n] == before[n]);
        assert forall|j: int| 0 <= j < n implies s[j] != '\n' by {
            assert(s[j] == before[j]);
        }
        assert(text::find(s, '\n', 0) == n);
        assert(s.subrange(n + 1, s.len() as int) =~= rest.push('\n') + line);
        lemma_some_lines(rest, line);
    } else {
        text::lemma_find(s, '\n', 0);
        assert(s[before.len() as int] == '\n');
        assert forall|j: int| 0 <= j < before.len() implies s[j] != '\n' by {
            assert(s[j] == before[j]);
        }
        assert(text::find(s, '\n', 0) == before.len());
        assert(s.subrange(before.len() as int + 1, s.len() as int) =~= line);
    }
}

proof fn lemma_some_lines(before: Seq<char>, line: Seq<char>)
    ensures
        text::lines(before.push('\n') + line).len() > 0,
{
    let s = before.push('\n') + line;
    text::lemma_find(s, '\n', 0);
    assert(s[before.len() as int] == '\n');
}

/// Hardware encoders are known in front of software encoders, and among the
/// former those of a better codec come first.
pub proof fn law_known_encoders_are_ordered()
    ensures
        backends::known_encoders().len() == 15,
        backends::known_encoders() == seq!["av1_amf"@, "av1_nvenc"@, "av1_qsv"@] + seq![
            "hevc_amf"@,
            "hevc_nvenc"@,
            "hevc_qsv"@,
            "hevc_mf"@,
        ] + seq!["h264_amf"@, "h264_nvenc"@, "h264_qsv"@, "h264_mf"@] + seq![
            "libsvtav1"@,
            "libaom-av1"@,
            "libx265"@,
            "libx264"@,
        ],
{
    assert(backends::known_encoders() =~= seq!["av1_amf"@, "av1_nvenc"@, "av1_qsv"@] + seq![
        "hevc_amf"@,
        "hevc_nvenc"@,
        "hevc_qsv"@,
        "hevc_mf"@,
    ] + seq!["h264_amf"@, "h264_nvenc"@, "h264_qsv"@, "h264_mf"@] + seq![
        "libsvtav1"@,
        "libaom-av1"@,
        "libx265"@,
        "libx264"@,
    ]);
}

/// Why a trial fails, in words: it could not be started, ended badly, took too
/// long, or could not be waited for. One that ended well or still has time has
/// not failed.
pub proof fn law_trial_failures(event: TrialEvent)
    ensures
        match event {
            TrialEvent::NotStarted { cause } => failure_of(event) == Some(
                "spawn failed: "@ + cause@,
            ),
            TrialEvent::Exited { success, status, stderr } => if success {
                failure_of(event) is None
            } else {
                failure_of(event) == Some(
                    "encode probe exited "@ + status@ + " ("@ + last_line(stderr@) + ")"@,
                )
            },
            TrialEvent::Running { past_deadline } => if past_deadline {
                failure_of(event) == Some("encode probe timed out"@)
            } else {
                failure_of(event) is None
            },
            TrialEvent::WaitFailed { cause } => failure_of(event) == Some(
                "wait failed: "@ + cause@,
            ),
        },
{
}

} // verus!
