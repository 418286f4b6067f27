//! The rules of a streaming session: what the client is told at the start,
//! what its messages lead to, and what is sent when the link is slow.

use crate::config::{EncoderSection, Settings};
use crate::diagnostics::Diagnostics;
use crate::encoder::backends::HwVendor;
use crate::encoder::splitter;
use crate::encoder::{CodecKind, EncodedFrame, EncoderConfig, FrameModel};
use crate::hw_probe;
use crate::hw_probe::EncoderCapability;
use crate::input;
use crate::input::{InputAction, InputSimulator, VirtualScreen};
use crate::protocol;
use crate::protocol::{
    AudioDeviceInfo, ClientMessage, EncoderInfo, MonitorInfo, ProfileInfo, ServerMessage,
    MSG_VIDEO_FRAME,
};
use crate::text;
use crate::wire;
use vstd::prelude::*;

verus! {

// ── Lists for the client ───────────────────────────────────────────

/// The number of a vendor on the wire.
pub open spec fn vendor_id(v: HwVendor) -> u8 {
    match v {
        HwVendor::Amd => 0,
        HwVendor::Nvidia => 1,
        HwVendor::Intel => 2,
        HwVendor::Microsoft => 3,
        HwVendor::Software => 4,
        HwVendor::Other => 5,
    }
}

/// The number of a vendor on the wire.
pub fn hw_vendor_to_id(v: HwVendor) -> (r: u8)
    ensures
        r == vendor_id(v),
{
    match v {
        HwVendor::Amd => 0,
        HwVendor::Nvidia => 1,
        HwVendor::Intel => 2,
        HwVendor::Microsoft => 3,
        HwVendor::Software => 4,
        HwVendor::Other => 5,
    }
}

/// At most 255, which is what a list message can count.
pub open spec fn listed(n: nat) -> nat {
    if n < 255 {
        n
    } else {
        255
    }
}

/// The device list for audio devices with these names.
pub open spec fn device_list_model(names: Seq<Seq<char>>) -> Seq<protocol::DeviceModel> {
    Seq::new(
        listed(names.len()),
        |i: int| protocol::DeviceModel { index: i as u8, name: names[i] },
    )
}

/// Cuts a list of audio devices to what a message can count.
pub fn limit_devices(names: Vec<String>) -> (r: Vec<String>)
    ensures
        text::texts(r@) == text::texts(names@).take(listed(names@.len()) as int),
{
    let mut names = names;
    let ghost all = text::texts(names@);
    if names.len() > 255 {
        names.truncate(255);
    }
    proof {
        assert(text::texts(names@) =~= all.take(listed(all.len()) as int));
    }
    names
}

/// The message that lists the audio devices. It is sent even if there are
/// none, to say so.
pub fn device_list(names: &Vec<String>) -> (r: ServerMessage)
    ensures
        r@ == (protocol::ServerModel::AudioDeviceList {
            devices: device_list_model(text::texts(names@)),
        }),
{
    let ghost all = text::texts(names@);
    let mut devices: Vec<AudioDeviceInfo> = Vec::new();
    let mut i: usize = 0;
    while i < names.len() && i < 255
        invariant
            i <= names@.len(),
            i <= 255,
            all == text::texts(names@),
            protocol::device_models(devices@) == device_list_model(all).take(i as int),
        decreases names@.len() - i,
    {
        let ghost before = devices@;
        devices.push(AudioDeviceInfo { index: i as u8, name: names[i].clone() });
        proof {
            let d = device_list_model(all)[i as int];
            assert(protocol::device_models(devices@) =~= protocol::device_models(before).push(d));
            assert(device_list_model(all).take(i + 1) =~= device_list_model(all).take(
                i as int,
            ).push(d));
        }
        i = i + 1;
    }
    proof {
        assert(device_list_model(all).take(i as int) =~= device_list_model(all));
    }
    ServerMessage::AudioDeviceList { devices }
}

/// The encoders among `caps` that work.
pub open spec fn working(caps: Seq<hw_probe::CapabilityModel>) -> Seq<hw_probe::CapabilityModel>
    decreases caps.len(),
{
    if caps.len() == 0 {
        Seq::empty()
    } else if caps.last().working {
        working(caps.drop_last()).push(caps.last())
    } else {
        working(caps.drop_last())
    }
}

/// An entry of the encoder list.
pub open spec fn encoder_entry_model(
    cap: hw_probe::CapabilityModel,
    i: int,
    active: Seq<char>,
) -> protocol::EncoderModel {
    protocol::EncoderModel {
        index: i as u8,
        name: cap.name,
        codec: cap.codec.id(),
        hw_vendor: vendor_id(cap.hw_vendor),
        active: cap.name == active,
    }
}

/// The encoder list: the encoders that work, as many as a message can count.
pub open spec fn encoder_list_model(
    caps: Seq<hw_probe::CapabilityModel>,
    active: Seq<char>,
) -> Seq<protocol::EncoderModel> {
    Seq::new(
        listed(working(caps).len()),
        |i: int| encoder_entry_model(working(caps)[i], i, active),
    )
}

proof fn lemma_working_prefix(caps: Seq<hw_probe::CapabilityModel>, k: int)
    requires
        0 <= k <= caps.len(),
    ensures
        working(caps.take(k)).len() <= working(caps).len(),
        working(caps).take(working(caps.take(k)).len() as int) == working(caps.take(k)),
    decreases caps.len() - k,
{
    if k == caps.len() {
        assert(caps.take(k) =~= caps);
        assert(working(caps).take(working(caps).len() as int) =~= working(caps));
    } else {
        lemma_working_prefix(caps, k + 1);
        assert(caps.take(k + 1).drop_last() =~= caps.take(k));
        let here = working(caps.take(k));
        let next = working(caps.take(k + 1));
        let n = here.len() as int;
        assert(working(caps).take(n) =~= working(caps).take(next.len() as int).take(n));
        assert(next.take(n) =~= here);
    }
}

/// The message that lists the encoders that work; the one in use is marked.
pub fn encoder_list(caps: &Vec<EncoderCapability>, active: &str) -> (r: ServerMessage)
    ensures
        r@ == (protocol::ServerModel::EncoderList {
            encoders: encoder_list_model(hw_probe::capability_models(caps@), active@),
        }),
{
    let ghost models = hw_probe::capability_models(caps@);
    let ghost full = encoder_list_model(models, active@);
    let mut encoders: Vec<EncoderInfo> = Vec::new();
    let mut i: usize = 0;
    proof {
        assert(models.take(0) =~= Seq::<hw_probe::CapabilityModel>::empty());
        assert(full.take(0) =~= Seq::<protocol::EncoderModel>::empty());
    }
    while i < caps.len() && encoders.len() < 255
        invariant
            i <= caps@.len(),
            encoders@.len() <= 255,
            models == hw_probe::capability_models(caps@),
            full == encoder_list_model(models, active@),
            encoders@.len() == working(models.take(i as int)).len(),
            protocol::encoder_models(encoders@) == full.take(encoders@.len() as int),
        decreases caps@.len() - i,
    {
        let c = &caps[i];
        proof {
            assert(models.take(i + 1).drop_last() =~= models.take(i as int));
            assert(models.take(i + 1).last() == c@);
            lemma_working_prefix(models, i + 1);
        }
        if c.working {
            let ghost before = encoders@;
            let n: usize = encoders.len();
            let entry = EncoderInfo {
                index: n as u8,
                name: c.name.clone(),
                codec: c.codec.protocol_id(),
                hw_vendor: hw_vendor_to_id(c.hw_vendor),
                active: text::same(c.name.as_str(), active),
            };
            let ghost model = entry@;
            encoders.push(entry);
            proof {
                assert(working(models)[n as int] == working(models.take(i + 1))[n as int]);
                assert(model == full[n as int]);
                assert(protocol::encoder_models(encoders@) =~= protocol::encoder_models(
                    before,
                ).push(model));
                assert(full.take(n + 1) =~= full.take(n as int).push(model));
            }
        }
        i = i + 1;
    }
    proof {
        lemma_working_prefix(models, i as int);
        assert(models.take(models.len() as int) =~= models);
        assert(full.take(encoders@.len() as int) =~= full);
    }
    ServerMessage::EncoderList { encoders }
}

/// The profile list: the profiles in the order of their names, as many as a
/// message can count.
pub open spec fn profile_list_model(
    names: Seq<Seq<char>>,
    active: Option<Seq<char>>,
) -> Seq<protocol::ProfileModel> {
    Seq::new(
        listed(names.len()),
        |i: int|
            protocol::ProfileModel {
                index: i as u8,
                name: names[i],
                active: active == Some(names[i]),
            },
    )
}

/// The message that lists the profiles; the default one is marked.
pub fn profile_list(section: &EncoderSection) -> (r: ServerMessage)
    ensures
        r@ == (protocol::ServerModel::ProfileList {
            profiles: profile_list_model(
                section.names(),
                crate::config::opt_text(section.default_profile),
            ),
        }),
{
    let ghost names = section.names();
    let ghost active = crate::config::opt_text(section.default_profile);
    let ghost full = profile_list_model(names, active);
    let mut profiles: Vec<ProfileInfo> = Vec::new();
    let mut i: usize = 0;
    while i < section.profiles.len() && i < 255
        invariant
            i <= section.profiles@.len(),
            i <= 255,
            names == section.names(),
            active == crate::config::opt_text(section.default_profile),
            full == profile_list_model(names, active),
            protocol::profile_models(profiles@) == full.take(i as int),
        decreases section.profiles@.len() - i,
    {
        let name = &section.profiles[i].name;
        let is_active: bool = match &section.default_profile {
            Some(d) => text::same(d.as_str(), name.as_str()),
            None => false,
        };
        let ghost before = profiles@;
        let entry = ProfileInfo { index: i as u8, name: name.clone(), active: is_active };
        let ghost model = entry@;
        profiles.push(entry);
        proof {
            assert(names[i as int] == name@);
            assert(model == full[i as int]);
            assert(protocol::profile_models(profiles@) =~= protocol::profile_models(before).push(
                model,
            ));
            assert(full.take(i + 1) =~= full.take(i as int).push(model));
        }
        i = i + 1;
    }
    proof {
        assert(full.take(i as int) =~= full);
    }
    ServerMessage::ProfileList { profiles }
}

/// What a list of messages says.
pub open spec fn message_models(v: Seq<ServerMessage>) -> Seq<protocol::ServerModel> {
    Seq::new(v.len(), |i: int| v[i]@)
}

/// What the client is told when it connects: the monitors, if there are any,
/// then the audio devices, the encoders and the profiles.
pub open spec fn greeting_model(
    monitors: Seq<MonitorInfo>,
    names: Seq<Seq<char>>,
    caps: Seq<hw_probe::CapabilityModel>,
    encoder: Seq<char>,
    profiles: Seq<Seq<char>>,
    profile: Option<Seq<char>>,
) -> Seq<protocol::ServerModel> {
    let lists = seq![
        protocol::ServerModel::AudioDeviceList { devices: device_list_model(names) },
        protocol::ServerModel::EncoderList { encoders: encoder_list_model(caps, encoder) },
        protocol::ServerModel::ProfileList { profiles: profile_list_model(profiles, profile) },
    ];
    if monitors.len() == 0 {
        lists
    } else {
        seq![protocol::ServerModel::MonitorList { monitors }] + lists
    }
}

/// The messages that greet a client.
pub fn greeting(
    monitors: &Vec<MonitorInfo>,
    names: &Vec<String>,
    caps: &Vec<EncoderCapability>,
    encoder: &str,
    section: &EncoderSection,
) -> (r: Vec<ServerMessage>)
    ensures
        message_models(r@) == greeting_model(
            monitors@,
            text::texts(names@),
            hw_probe::capability_models(caps@),
            encoder@,
            section.names(),
            crate::config::opt_text(section.default_profile),
        ),
{
    let mut r: Vec<ServerMessage> = Vec::new();
    if monitors.len() > 0 {
        let mut copied: Vec<MonitorInfo> = Vec::new();
        let mut i: usize = 0;
        while i < monitors.len()
            invariant
                i <= monitors@.len(),
                copied@ == monitors@.take(i as int),
            decreases monitors@.len() - i,
        {
            copied.push(monitors[i]);
            proof {
                assert(copied@ =~= monitors@.take(i + 1));
            }
            i = i + 1;
        }
        proof {
            assert(copied@ =~= monitors@);
        }
        r.push(ServerMessage::MonitorList { monitors: copied });
    }
    r.push(device_list(names));
    r.push(encoder_list(caps, encoder));
    r.push(profile_list(section));
    proof {
        assert(message_models(r@) =~= greeting_model(
            monitors@,
            text::texts(names@),
            hw_probe::capability_models(caps@),
            encoder@,
            section.names(),
            crate::config::opt_text(section.default_profile),
        ));
    }
    r
}

// ── Start of a session ─────────────────────────────────────────────

/// What the socket gave while the client was waited for.
pub enum SocketEvent<'a> {
    /// A binary message.
    Binary { data: &'a [u8] },
    /// The client is gone.
    Closed,
    /// Anything else.
    Other,
}

/// What to do while the client is waited for.
#[derive(Debug, Clone, Copy, PartialEq, Eq, Structural)]
pub enum StartAction {
    /// Wait for the next message.
    Wait,
    /// Stream this monitor.
    Stream { monitor: u8 },
    /// End the session.
    HangUp,
}

/// What a socket event leads to while the client is waited for: a session
/// starts when the client is ready, or asks for a monitor.
pub open spec fn start_action(event: SocketEvent) -> StartAction {
    match event {
        SocketEvent::Binary { data } => match protocol::parse_client(data@) {
            Some(ClientMessage::ClientReady) => StartAction::Stream { monitor: 0 },
            Some(ClientMessage::SelectMonitor { index }) => StartAction::Stream { monitor: index },
            _ => StartAction::Wait,
        },
        SocketEvent::Closed => StartAction::HangUp,
        SocketEvent::Other => StartAction::Wait,
    }
}

/// Decides what to do while the client is waited for.
pub fn await_client(event: SocketEvent) -> (r: StartAction)
    ensures
        r == start_action(event),
{
    match event {
        SocketEvent::Binary { data } => match ClientMessage::decode(data) {
            Some(ClientMessage::ClientReady) => StartAction::Stream { monitor: 0 },
            Some(ClientMessage::SelectMonitor { index }) => StartAction::Stream { monitor: index },
            _ => StartAction::Wait,
        },
        SocketEvent::Closed => StartAction::HangUp,
        SocketEvent::Other => StartAction::Wait,
    }
}

/// Where the monitor with an index lies; at the origin if it is not listed.
pub open spec fn monitor_origin(monitors: Seq<MonitorInfo>, index: u8, i: int) -> (i32, i32)
    decreases monitors.len() - i,
{
    if i >= monitors.len() {
        (0i32, 0i32)
    } else if monitors[i].index == index {
        (monitors[i].x as i32, monitors[i].y as i32)
    } else {
        monitor_origin(monitors, index, i + 1)
    }
}

/// Finds where the monitor with an index lies.
pub fn find_monitor_origin(monitors: &Vec<MonitorInfo>, index: u8) -> (r: (i32, i32))
    ensures
        r == monitor_origin(monitors@, index, 0),
{
    let mut i: usize = 0;
    while i < monitors.len()
        invariant
            i <= monitors@.len(),
            monitor_origin(monitors@, index, i as int) == monitor_origin(monitors@, index, 0),
        decreases monitors@.len() - i,
    {
        if monitors[i].index == index {
            return (monitors[i].x as i32, monitors[i].y as i32);
        }
        i = i + 1;
    }
    (0, 0)
}

/// The size of a display as the client, the cursor and the input see it: cut to
/// sixteen bits.
pub fn shown_size(width: u32, height: u32) -> (r: (u16, u16))
    ensures
        r == ((width % 65536) as u16, (height % 65536) as u16),
{
    ((width % 65536) as u16, (height % 65536) as u16)
}

/// The message that opens the stream. A frame rate that does not fit it is cut.
pub fn server_info(width: u16, height: u16, fps: u32, codec: CodecKind) -> (r: ServerMessage)
    ensures
        r == (ServerMessage::ServerInfo {
            width,
            height,
            fps: (fps % 256) as u8,
            codec: codec.id(),
        }),
{
    ServerMessage::ServerInfo { width, height, fps: (fps % 256) as u8, codec: codec.protocol_id() }
}

/// What the encoder is asked to do for a display of this size.
pub fn encoder_config(s: &Settings, width: u32, height: u32) -> (r: EncoderConfig)
    ensures
        r.width == width,
        r.height == height,
        r.fps == s.fps,
        r.quality == s.quality,
        r.encoder_name@ == s.encoder@,
        r.codec == s.codec,
        r.chroma == s.chroma,
        r.slices == s.slices,
        r.bitrate_kbps == s.bitrate_kbps,
{
    EncoderConfig {
        width,
        height,
        fps: s.fps,
        quality: s.quality,
        encoder_name: s.encoder.clone(),
        codec: s.codec,
        chroma: s.chroma,
        slices: s.slices,
        bitrate_kbps: s.bitrate_kbps,
    }
}

/// Microseconds from one frame to the next.
pub fn frame_interval_us(fps: u32) -> (r: u64)
    requires
        fps > 0,
    ensures
        r == 1_000_000int / fps as int,
{
    1_000_000 / (fps as u64)
}

/// Microseconds from the start of the capture to frame `frame_no`.
pub fn frame_due_us(fps: u32, frame_no: u64) -> (r: u128)
    requires
        fps > 0,
    ensures
        r == (1_000_000int / fps as int) * frame_no,
{
    let interval: u64 = frame_interval_us(fps);
    proof {
        assert(1_000_000int / fps as int <= 1_000_000) by (nonlinear_arith)
            requires
                fps > 0,
        ;
        assert(interval * frame_no <= 1_000_000 * frame_no) by (nonlinear_arith)
            requires
                interval <= 1_000_000,
        ;
    }
    (interval as u128) * (frame_no as u128)
}

// ── Messages of the client ─────────────────────────────────────────

/// Where a message of the client goes.
#[derive(Debug, Clone, PartialEq, Eq)]
pub enum Routed {
    /// Stop capturing audio.
    StopAudio,
    /// Capture the audio of this device.
    StartAudio { device: String },
    /// Echo this timestamp.
    Pong { client_ts_us: u64 },
    /// Hand the message to the desktop.
    Input,
}

/// What a [`Routed`] says.
pub enum RoutedModel {
    StopAudio,
    StartAudio { device: Seq<char> },
    Pong { client_ts_us: u64 },
    Input,
}

impl View for Routed {
    type V = RoutedModel;

    open spec fn view(&self) -> RoutedModel {
        match self {
            Routed::StopAudio => RoutedModel::StopAudio,
            Routed::StartAudio { device } => RoutedModel::StartAudio { device: device@ },
            Routed::Pong { client_ts_us } => RoutedModel::Pong { client_ts_us: *client_ts_us },
            Routed::Input => RoutedModel::Input,
        }
    }
}

/// Where a message goes. Audio is switched off by index 255 and by any index
/// that is not listed.
pub open spec fn route_model(data: Seq<u8>, devices: Seq<Seq<char>>) -> RoutedModel {
    match protocol::parse_client(data) {
        Some(ClientMessage::SelectAudio { index }) => if index == 255 || index >= devices.len() {
            RoutedModel::StopAudio
        } else {
            RoutedModel::StartAudio { device: devices[index as int] }
        },
        Some(ClientMessage::Ping { client_ts_us }) => RoutedModel::Pong { client_ts_us },
        _ => RoutedModel::Input,
    }
}

/// Decides where a message of the client goes.
pub fn route(data: &[u8], devices: &Vec<String>) -> (r: Routed)
    ensures
        r@ == route_model(data@, text::texts(devices@)),
{
    match ClientMessage::decode(data) {
        Some(ClientMessage::SelectAudio { index }) => {
            if index == 255 || index as usize >= devices.len() {
                Routed::StopAudio
            } else {
                Routed::StartAudio { device: devices[index as usize].clone() }
            }
        },
        Some(ClientMessage::Ping { client_ts_us }) => Routed::Pong { client_ts_us },
        _ => Routed::Input,
    }
}

/// The answer to a ping.
pub fn pong(client_ts_us: u64) -> (r: Vec<u8>)
    ensures
        r@ == protocol::server_bytes((protocol::ServerModel::Pong { client_ts_us })),
{
    let m = ServerMessage::Pong { client_ts_us };
    m.encode()
}

/// The actions of a message that was handed to the desktop. A message that
/// cannot be read stands for none. Requests for another monitor, encoder or
/// profile are ignored: a session keeps what it started with. `None` if a
/// position cannot be worked out in 32 bits.
pub open spec fn input_actions(
    sim: InputSimulator,
    data: Seq<u8>,
    screen: VirtualScreen,
) -> Option<Seq<input::ActionModel>> {
    match protocol::parse_client(data) {
        Some(msg) => if sim.can_handle(msg, screen) {
            Some(sim.actions(msg, screen))
        } else {
            None
        },
        None => Some(Seq::empty()),
    }
}

/// Works out the actions of a message that was handed to the desktop.
pub fn on_input(sim: &InputSimulator, data: &[u8], screen: VirtualScreen) -> (r: Option<
    Vec<InputAction>,
>)
    ensures
        match r {
            Some(v) => input_actions(*sim, data@, screen) == Some(input::action_models(v@)),
            None => input_actions(*sim, data@, screen) is None,
        },
{
    match ClientMessage::decode(data) {
        Some(msg) => {
            if sim.accepts(msg, screen) {
                Some(sim.handle(msg, screen))
            } else {
                None
            }
        },
        None => {
            let none: Vec<InputAction> = Vec::new();
            proof {
                assert(input::action_models(none@) =~= Seq::<input::ActionModel>::empty());
            }
            Some(none)
        },
    }
}

// ── Audio ──────────────────────────────────────────────────────────

/// Which audio device is captured.
pub struct AudioControl {
    current: Option<String>,
}

impl AudioControl {
    /// The device that is captured.
    pub closed spec fn device(&self) -> Option<Seq<char>> {
        crate::config::opt_text(self.current)
    }

    /// Capturing the configured device, if there is one.
    pub fn new(configured: Option<String>) -> (r: Self)
        ensures
            r.device() == crate::config::opt_text(configured),
    {
        AudioControl { current: configured }
    }

    /// Switches to what is asked for, and tells whether a capture has to be
    /// stopped first.
    pub fn switch(&mut self, asked: Option<String>) -> (stop_first: bool)
        ensures
            stop_first == (old(self).device() is Some),
            final(self).device() == crate::config::opt_text(asked),
    {
        let stop_first: bool = self.current.is_some();
        self.current = asked;
        stop_first
    }
}

// ── Frames to send ─────────────────────────────────────────────────

/// The key frames among `frames`.
pub open spec fn key_frames(frames: Seq<FrameModel>) -> Seq<FrameModel>
    decreases frames.len(),
{
    if frames.len() == 0 {
        Seq::empty()
    } else if frames.last().is_keyframe {
        key_frames(frames.drop_last()).push(frames.last())
    } else {
        key_frames(frames.drop_last())
    }
}

/// The queue once `f` has joined it: a key frame sends the delta frames in
/// front of it away, since the decoder starts anew with it.
pub open spec fn queue_with(queue: Seq<FrameModel>, f: FrameModel) -> Seq<FrameModel> {
    if f.is_keyframe {
        key_frames(queue).push(f)
    } else {
        queue.push(f)
    }
}

/// The queue once all of `frames` have joined it in turn.
pub open spec fn coalesced(frames: Seq<FrameModel>) -> Seq<FrameModel>
    decreases frames.len(),
{
    if frames.len() == 0 {
        Seq::empty()
    } else {
        queue_with(coalesced(frames.drop_last()), frames.last())
    }
}

/// The frames that wait to be sent.
pub struct SendQueue {
    frames: Vec<EncodedFrame>,
}

impl SendQueue {
    /// The frames, the oldest first.
    pub closed spec fn waiting(&self) -> Seq<FrameModel> {
        splitter::frame_models(self.frames@)
    }

    /// No frames.
    pub fn new() -> (r: Self)
        ensures
            r.waiting() == Seq::<FrameModel>::empty(),
    {
        let r = SendQueue { frames: Vec::new() };
        proof {
            assert(r.waiting() =~= Seq::<FrameModel>::empty());
        }
        r
    }

    /// Adds a frame, and tells how many delta frames it sent away.
    pub fn enqueue(&mut self, f: EncodedFrame) -> (dropped: usize)
        ensures
            final(self).waiting() == queue_with(old(self).waiting(), f@),
            dropped == old(self).waiting().len() + 1 - final(self).waiting().len(),
    {
        let mut dropped: usize = 0;
        if f.is_keyframe {
            let ghost all = splitter::frame_models(self.frames@);
            let mut kept: Vec<EncodedFrame> = Vec::new();
            let mut rest: Vec<EncodedFrame> = Vec::new();
            rest.append(&mut self.frames);
            let total: usize = rest.len();
            let ghost mut n: int = 0;
            proof {
                assert(rest@ =~= old(self).frames@);
                assert(splitter::frame_models(kept@) =~= key_frames(all.take(0)));
                assert(splitter::frame_models(rest@) =~= all.skip(0));
            }
            while rest.len() > 0
                invariant
                    0 <= n,
                    n + rest@.len() == all.len(),
                    all.len() == total,
                    splitter::frame_models(rest@) == all.skip(n),
                    splitter::frame_models(kept@) == key_frames(all.take(n)),
                    dropped + kept@.len() == n,
                decreases rest@.len(),
            {
                let ghost before = rest@;
                let g = rest.remove(0);
                proof {
                    assert(splitter::frame_models(before)[0] == all.skip(n)[0]);
                    assert(g@ == all[n]);
                    assert(all.take(n + 1).drop_last() =~= all.take(n));
                    assert forall|i: int| 0 <= i < rest@.len() implies rest@[i]@ == all[n + 1
                        + i] by {
                        assert(rest@[i] == before[i + 1]);
                        assert(splitter::frame_models(before)[i + 1] == all.skip(n)[i + 1]);
                    }
                    assert(splitter::frame_models(rest@) =~= all.skip(n + 1));
                }
                if g.is_keyframe {
                    let ghost was = kept@;
                    let ghost model = g@;
                    kept.push(g);
                    proof {
                        assert(splitter::frame_models(kept@) =~= splitter::frame_models(was).push(
                            model,
                        ));
                    }
                } else {
                    dropped = dropped + 1;
                }
                proof {
                    n = n + 1;
                }
            }
            proof {
                assert(all.take(n) =~= all);
            }
            self.frames = kept;
        }
        let ghost was = self.frames@;
        let ghost model = f@;
        self.frames.push(f);
        proof {
            assert(splitter::frame_models(self.frames@) =~= splitter::frame_models(was).push(
                model,
            ));
        }
        dropped
    }

    /// Takes the oldest frame.
    pub fn pop(&mut self) -> (r: Option<EncodedFrame>)
        ensures
            match r {
                Some(f) => old(self).waiting().len() > 0 && f@ == old(self).waiting()[0]
                    && final(self).waiting() == old(self).waiting().drop_first(),
                None => old(self).waiting().len() == 0 && final(self).waiting() == old(
                    self,
                ).waiting(),
            },
    {
        if self.frames.len() == 0 {
            return None;
        }
        let f = self.frames.remove(0);
        proof {
            assert(self.waiting() =~= old(self).waiting().drop_first());
        }
        Some(f)
    }
}

/// Whether a frame has room for the wire header.
pub open spec fn has_header_room(f: FrameModel) -> bool {
    f.data.len() >= EncodedFrame::HEADER_LEN
}

/// The message that carries a frame.
pub open spec fn frame_message(f: FrameModel, timestamp_us: u64) -> Seq<u8> {
    protocol::server_bytes(
        (protocol::ServerModel::VideoFrame {
            timestamp_us,
            is_keyframe: f.is_keyframe,
            data: splitter::payload_of(f),
        }),
    )
}

/// Fills the wire header of a frame in place: tag, timestamp, keyframe flag.
pub fn stamp_frame(f: EncodedFrame, timestamp_us: u64) -> (r: Vec<u8>)
    requires
        has_header_room(f@),
    ensures
        r@ == frame_message(f@, timestamp_us),
{
    let is_keyframe: bool = f.is_keyframe;
    let mut data = f.data;
    let ghost all = data@;
    let mut head: Vec<u8> = Vec::new();
    head.push(MSG_VIDEO_FRAME);
    wire::put_u64(&mut head, timestamp_us);
    wire::put_flag(&mut head, is_keyframe);
    proof {
        assert(wire::le64(timestamp_us).len() == 8);
        assert(head@ =~= seq![MSG_VIDEO_FRAME] + wire::le64(timestamp_us) + seq![
            wire::flag(is_keyframe),
        ]);
    }
    let mut i: usize = 0;
    while i < EncodedFrame::HEADER_LEN
        invariant
            i <= EncodedFrame::HEADER_LEN,
            head@.len() == EncodedFrame::HEADER_LEN,
            data@.len() == all.len(),
            all.len() >= EncodedFrame::HEADER_LEN,
            forall|j: int| 0 <= j < i ==> data@[j] == head@[j],
            forall|j: int| i <= j < all.len() ==> data@[j] == all[j],
        decreases EncodedFrame::HEADER_LEN - i,
    {
        data[i] = head[i];
        i = i + 1;
    }
    proof {
        assert(data@ =~= frame_message(f@, timestamp_us));
    }
    data
}

/// What was sent in a session.
#[derive(Debug, Clone, Copy, PartialEq, Eq, Structural)]
pub struct SenderCounters {
    pub sent_frames: u64,
    pub sent_keys: u64,
    /// Frames sent when the frame rate was last observed.
    pub observed_frames: u64,
}

impl SenderCounters {
    /// Nothing was sent.
    pub fn new() -> (r: Self)
        ensures
            r == (SenderCounters { sent_frames: 0, sent_keys: 0, observed_frames: 0 }),
    {
        SenderCounters { sent_frames: 0, sent_keys: 0, observed_frames: 0 }
    }

    /// Counts a frame of `bytes` bytes that was sent.
    pub fn frame_sent(&mut self, is_keyframe: bool, bytes: usize, d: &mut Diagnostics)
        ensures
            *final(self) == (SenderCounters {
                sent_frames: crate::encoder::counted(old(self).sent_frames, 1),
                sent_keys: if is_keyframe {
                    crate::encoder::counted(old(self).sent_keys, 1)
                } else {
                    old(self).sent_keys
                },
                ..*old(self)
            }),
            *final(d) == (Diagnostics {
                frames_sent: crate::encoder::counted(old(d).frames_sent, 1),
                bytes_sent: crate::encoder::counted(old(d).bytes_sent, bytes as u64),
                ..*old(d)
            }),
    {
        self.sent_frames = self.sent_frames.wrapping_add(1);
        if is_keyframe {
            self.sent_keys = self.sent_keys.wrapping_add(1);
        }
        d.frame_sent(bytes);
    }

    /// Observes the frame rate at the end of a window.
    pub fn observe(&mut self, d: &mut Diagnostics)
        ensures
            *final(self) == (SenderCounters {
                observed_frames: old(self).sent_frames,
                ..*old(self)
            }),
            *final(d) == (Diagnostics {
                current_fps: crate::diagnostics::observed_fps(
                    old(self).sent_frames,
                    old(self).observed_frames,
                ),
                ..*old(d)
            }),
    {
        d.observe_fps(self.sent_frames, self.observed_frames);
        self.observed_frames = self.sent_frames;
    }
}

// ── Laws ───────────────────────────────────────────────────────────

/// Vendors have different numbers on the wire.
pub proof fn law_vendor_ids_differ(a: HwVendor, b: HwVendor)
    ensures
        vendor_id(a) == vendor_id(b) ==> a == b,
{
}

/// The lists that the client is sent fit their count, and count their entries
/// from zero.
pub proof fn law_lists_fit(
    names: Seq<Seq<char>>,
    caps: Seq<hw_probe::CapabilityModel>,
    encoder: Seq<char>,
    profile: Option<Seq<char>>,
)
    ensures
        device_list_model(names).len() <= 255,
        encoder_list_model(caps, encoder).len() <= 255,
        profile_list_model(names, profile).len() <= 255,
        forall|i: int|
            0 <= i < device_list_model(names).len() ==> (#[trigger] device_list_model(
                names,
            )[i]).index == i,
        forall|i: int|
            0 <= i < encoder_list_model(caps, encoder).len() ==> (#[trigger] encoder_list_model(
                caps,
                encoder,
            )[i]).index == i,
        forall|i: int|
            0 <= i < profile_list_model(names, profile).len() ==> (#[trigger] profile_list_model(
                names,
                profile,
            )[i]).index == i,
{
}

/// Every encoder in the list works, and every one that works is in the list as
/// far as it can count.
pub proof fn law_listed_encoders_work(caps: Seq<hw_probe::CapabilityModel>, m: int)
    requires
        0 <= m < caps.len(),
        caps[m].working,
    ensures
        working(caps).contains(caps[m]),
        forall|i: int| 0 <= i < working(caps).len() ==> (#[trigger] working(caps)[i]).working,
    decreases caps.len(),
{
    let head = caps.drop_last();
    lemma_working(caps);
    if m < head.len() {
        assert(head[m] == caps[m]);
        law_listed_encoders_work(head, m);
        let i = choose|i: int| 0 <= i < working(head).len() && working(head)[i] == caps[m];
        assert(working(caps)[i] == caps[m]);
    } else {
        let w = working(caps);
        assert(w[w.len() - 1] == caps[m]);
    }
}

proof fn lemma_working(caps: Seq<hw_probe::CapabilityModel>)
    ensures
        forall|i: int| 0 <= i < working(caps).len() ==> (#[trigger] working(caps)[i]).working,
    decreases caps.len(),
{
    if caps.len() > 0 {
        lemma_working(caps.drop_last());
        let before = working(caps.drop_last());
        assert forall|i: int| 0 <= i < working(caps).len() implies (
        #[trigger] working(caps)[i]).working by {
            if i < before.len() {
                assert(working(caps)[i] == before[i]);
            }
        }
    }
}

/// Whether every name in a list fits its length field.
pub open spec fn names_fit(names: Seq<Seq<char>>) -> bool {
    forall|i: int|
        0 <= i < names.len() ==> vstd::utf8::encode_utf8(#[trigger] names[i]).len() <= 65535
}

/// The client reads every message of the greeting as it was meant.
pub proof fn law_greeting_is_read(
    monitors: Seq<MonitorInfo>,
    names: Seq<Seq<char>>,
    caps: Seq<hw_probe::CapabilityModel>,
    encoder: Seq<char>,
    profiles: Seq<Seq<char>>,
    profile: Option<Seq<char>>,
    i: int,
)
    requires
        monitors.len() <= 255,
        names_fit(names),
        names_fit(profiles),
        forall|m: int|
            0 <= m < caps.len() ==> vstd::utf8::encode_utf8((#[trigger] caps[m]).name).len()
                <= 65535,
        0 <= i < greeting_model(monitors, names, caps, encoder, profiles, profile).len(),
    ensures
        ({
            let m = greeting_model(monitors, names, caps, encoder, profiles, profile)[i];
            protocol::parse_server(protocol::server_bytes(m)) == Some(m)
        }),
{
    let m = greeting_model(monitors, names, caps, encoder, profiles, profile)[i];
    lemma_working_is_among(caps);
    assert forall|j: int| 0 <= j < encoder_list_model(caps, encoder).len() implies
        vstd::utf8::encode_utf8((#[trigger] encoder_list_model(caps, encoder)[j]).name).len()
        <= 65535 by {
        assert(caps.contains(working(caps)[j]));
    }
    assert forall|j: int| 0 <= j < device_list_model(names).len() implies vstd::utf8::encode_utf8(
        (#[trigger] device_list_model(names)[j]).name,
    ).len() <= 65535 by {
        assert(device_list_model(names)[j].name == names[j]);
    }
    assert forall|j: int|
        0 <= j < profile_list_model(profiles, profile).len() implies vstd::utf8::encode_utf8(
        (#[trigger] profile_list_model(profiles, profile)[j]).name,
    ).len() <= 65535 by {
        assert(profile_list_model(profiles, profile)[j].name == profiles[j]);
    }
    protocol::law_server_round_trip(m);
}

proof fn lemma_working_is_among(caps: Seq<hw_probe::CapabilityModel>)
    ensures
        forall|i: int| 0 <= i < working(caps).len() ==> caps.contains(#[trigger] working(caps)[i]),
    decreases caps.len(),
{
    if caps.len() > 0 {
        let head = caps.drop_last();
        lemma_working_is_among(head);
        assert forall|i: int| 0 <= i < working(caps).len() implies caps.contains(
            #[trigger] working(caps)[i],
        ) by {
            if i < working(head).len() {
                assert(working(caps)[i] == working(head)[i]);
                let j = choose|j: int| 0 <= j < head.len() && head[j] == working(head)[i];
                assert(caps[j] == head[j]);
            } else {
                assert(caps[caps.len() - 1] == working(caps)[i]);
            }
        }
    }
}

/// A device that the client picks from its list is the one that is captured.
pub proof fn law_picked_device_is_captured(names: Seq<Seq<char>>, index: u8)
    requires
        index < names.len(),
        index < 255,
    ensures
        route_model(
            protocol::client_bytes((ClientMessage::SelectAudio { index })),
            names,
        ) == (RoutedModel::StartAudio { device: names[index as int] }),
{
    protocol::law_client_round_trip(ClientMessage::SelectAudio { index });
}

/// A ping is answered with its own timestamp.
pub proof fn law_ping_is_echoed(client_ts_us: u64, names: Seq<Seq<char>>)
    ensures
        route_model(protocol::client_bytes((ClientMessage::Ping { client_ts_us })), names) == (
        RoutedModel::Pong { client_ts_us }),
        protocol::parse_server(
            protocol::server_bytes((protocol::ServerModel::Pong { client_ts_us })),
        ) == Some((protocol::ServerModel::Pong { client_ts_us })),
{
    protocol::law_client_round_trip(ClientMessage::Ping { client_ts_us });
    protocol::law_server_round_trip(protocol::ServerModel::Pong { client_ts_us });
}

/// A frame of a splitter, once stamped, is read by the client as the access
/// unit that the splitter found.
pub proof fn law_stamped_frame_is_read(unit: Seq<u8>, is_keyframe: bool, timestamp_us: u64)
    ensures
        has_header_room(splitter::frame_of(unit, is_keyframe)),
        protocol::parse_server(
            frame_message(splitter::frame_of(unit, is_keyframe), timestamp_us),
        ) == Some((protocol::ServerModel::VideoFrame { timestamp_us, is_keyframe, data: unit })),
{
    splitter::law_frame_carries_its_unit(unit, is_keyframe);
    protocol::law_server_round_trip(
        protocol::ServerModel::VideoFrame { timestamp_us, is_keyframe, data: unit },
    );
}

/// The frames among `frames` that are sent: all key frames, and the delta
/// frames that no later key frame sends away.
pub open spec fn is_sent(frames: Seq<FrameModel>, i: int) -> bool {
    frames[i].is_keyframe || forall|j: int|
        i < j < frames.len() ==> !(#[trigger] frames[j]).is_keyframe
}

/// Where the frames that are sent stand among `frames`.
pub open spec fn sent_positions(frames: Seq<FrameModel>, n: int) -> Seq<int>
    decreases n,
{
    if n <= 0 {
        Seq::empty()
    } else if is_sent(frames, n - 1) {
        sent_positions(frames, n - 1).push(n - 1)
    } else {
        sent_positions(frames, n - 1)
    }
}

/// The frames at `at`.
pub open spec fn frames_at(frames: Seq<FrameModel>, at: Seq<int>) -> Seq<FrameModel> {
    Seq::new(at.len(), |i: int| frames[at[i]])
}

/// Where the key frames stand among the first `n` of `frames`.
spec fn key_positions(frames: Seq<FrameModel>, n: int) -> Seq<int>
    decreases n,
{
    if n <= 0 {
        Seq::empty()
    } else if frames[n - 1].is_keyframe {
        key_positions(frames, n - 1).push(n - 1)
    } else {
        key_positions(frames, n - 1)
    }
}

proof fn lemma_positions_below(frames: Seq<FrameModel>, n: int)
    ensures
        forall|i: int|
            0 <= i < sent_positions(frames, n).len() ==> 0 <= #[trigger] sent_positions(
                frames,
                n,
            )[i] < n,
        forall|i: int|
            0 <= i < key_positions(frames, n).len() ==> 0 <= #[trigger] key_positions(
                frames,
                n,
            )[i] < n,
    decreases n,
{
    if n > 0 {
        lemma_positions_below(frames, n - 1);
        let s = sent_positions(frames, n - 1);
        let k = key_positions(frames, n - 1);
        assert forall|i: int| 0 <= i < sent_positions(frames, n).len() implies 0
            <= #[trigger] sent_positions(frames, n)[i] < n by {
            if i < s.len() {
                assert(sent_positions(frames, n)[i] == s[i]);
            }
        }
        assert forall|i: int| 0 <= i < key_positions(frames, n).len() implies 0
            <= #[trigger] key_positions(frames, n)[i] < n by {
            if i < k.len() {
                assert(key_positions(frames, n)[i] == k[i]);
            }
        }
    }
}

/// Among the first `n` frames, a key frame behind them leaves the key frames.
proof fn lemma_sent_before_key(frames: Seq<FrameModel>, n: int, key: int)
    requires
        0 <= n <= key < frames.len(),
        frames[key].is_keyframe,
    ensures
        sent_positions(frames, n) == key_positions(frames, n),
    decreases n,
{
    if n > 0 {
        lemma_sent_before_key(frames, n - 1, key);
        assert(is_sent(frames, n - 1) == frames[n - 1].is_keyframe) by {
            if !frames[n - 1].is_keyframe {
                assert(n - 1 < key < frames.len() && frames[key].is_keyframe);
            }
        }
    }
}

/// A delta frame at the end changes nothing for those in front of it.
proof fn lemma_sent_before_delta(frames: Seq<FrameModel>, n: int)
    requires
        frames.len() > 0,
        !frames.last().is_keyframe,
        0 <= n < frames.len(),
    ensures
        sent_positions(frames, n) == sent_positions(frames.drop_last(), n),
    decreases n,
{
    if n > 0 {
        lemma_sent_before_delta(frames, n - 1);
        let head = frames.drop_last();
        assert(head[n - 1] == frames[n - 1]);
        assert(is_sent(frames, n - 1) == is_sent(head, n - 1)) by {
            if is_sent(head, n - 1) && !frames[n - 1].is_keyframe {
                assert forall|j: int| n - 1 < j < frames.len() implies !(
                #[trigger] frames[j]).is_keyframe by {
                    if j < head.len() {
                        assert(head[j] == frames[j]);
                    }
                }
            }
            if is_sent(frames, n - 1) && !frames[n - 1].is_keyframe {
                assert forall|j: int| n - 1 < j < head.len() implies !(
                #[trigger] head[j]).is_keyframe by {
                    assert(head[j] == frames[j]);
                }
            }
        }
    }
}

/// The key frames of the frames at sent positions are those at key positions.
proof fn lemma_keys_of_sent(frames: Seq<FrameModel>, n: int)
    requires
        0 <= n <= frames.len(),
    ensures
        key_frames(frames_at(frames, sent_positions(frames, n))) == frames_at(
            frames,
            key_positions(frames, n),
        ),
    decreases n,
{
    if n > 0 {
        lemma_keys_of_sent(frames, n - 1);
        let before = sent_positions(frames, n - 1);
        let all = frames_at(frames, sent_positions(frames, n));
        let keys = frames_at(frames, key_positions(frames, n));
        if is_sent(frames, n - 1) {
            assert(all.drop_last() =~= frames_at(frames, before));
            assert(all.last() == frames[n - 1]);
            if frames[n - 1].is_keyframe {
                assert(keys =~= frames_at(frames, key_positions(frames, n - 1)).push(
                    frames[n - 1],
                ));
            }
        }
    } else {
        assert(frames_at(frames, sent_positions(frames, n)) =~= Seq::<FrameModel>::empty());
        assert(frames_at(frames, key_positions(frames, n)) =~= Seq::<FrameModel>::empty());
    }
}

proof fn lemma_frames_at_prefix(frames: Seq<FrameModel>, at: Seq<int>)
    requires
        frames.len() > 0,
        forall|i: int| 0 <= i < at.len() ==> 0 <= #[trigger] at[i] < frames.len() - 1,
    ensures
        frames_at(frames, at) == frames_at(frames.drop_last(), at),
{
    assert(frames_at(frames, at) =~= frames_at(frames.drop_last(), at));
}

/// What is sent of the frames that wait: every key frame, and every delta
/// frame that no later key frame replaces, in the order they came.
pub proof fn law_key_frames_are_never_dropped(frames: Seq<FrameModel>)
    ensures
        coalesced(frames) == frames_at(frames, sent_positions(frames, frames.len() as int)),
    decreases frames.len(),
{
    let n = frames.len() as int;
    if n == 0 {
        assert(frames_at(frames, sent_positions(frames, n)) =~= Seq::<FrameModel>::empty());
    } else {
        let head = frames.drop_last();
        let last = frames.last();
        law_key_frames_are_never_dropped(head);
        lemma_positions_below(frames, n - 1);
        lemma_positions_below(head, n - 1);
        assert(is_sent(frames, n - 1));
        let at = sent_positions(frames, n);
        assert(at == sent_positions(frames, n - 1).push(n - 1));
        assert(frames_at(frames, at) =~= frames_at(frames, sent_positions(frames, n - 1)).push(
            last,
        ));
        if last.is_keyframe {
            lemma_sent_before_key(frames, n - 1, n - 1);
            lemma_keys_of_sent(head, n - 1);
            lemma_key_positions_prefix(frames, n - 1);
            lemma_frames_at_prefix(frames, key_positions(frames, n - 1));
        } else {
            lemma_sent_before_delta(frames, n - 1);
            lemma_frames_at_prefix(frames, sent_positions(frames, n - 1));
        }
    }
}

proof fn lemma_key_positions_prefix(frames: Seq<FrameModel>, n: int)
    requires
        0 <= n < frames.len(),
    ensures
        key_positions(frames, n) == key_positions(frames.drop_last(), n),
    decreases n,
{
    if n > 0 {
        lemma_key_positions_prefix(frames, n - 1);
        assert(frames.drop_last()[n - 1] == frames[n - 1]);
    }
}

/// No delta frame is sent without the frame it builds on: where a delta frame
/// is sent, so is the frame in front of it. Without a key frame behind the
/// first frame, nothing is dropped.
pub proof fn law_deltas_keep_their_base(frames: Seq<FrameModel>, i: int)
    requires
        0 < i < frames.len(),
        !frames[i].is_keyframe,
        is_sent(frames, i),
    ensures
        is_sent(frames, i - 1),
{
    if !frames[i - 1].is_keyframe {
        assert forall|j: int| i - 1 < j < frames.len() implies !(
        #[trigger] frames[j]).is_keyframe by {
            if j > i {
                assert(!frames[j].is_keyframe);
            }
        }
    }
}

/// The number of each vendor on the wire.
pub proof fn law_vendor_numbers()
    ensures
        vendor_id(HwVendor::Amd) == 0,
        vendor_id(HwVendor::Nvidia) == 1,
        vendor_id(HwVendor::Intel) == 2,
        vendor_id(HwVendor::Microsoft) == 3,
        vendor_id(HwVendor::Software) == 4,
        vendor_id(HwVendor::Other) == 5,
{
}

/// A device list tells the names in their order, the first 255 of them, each
/// with its place as its index.
pub proof fn law_device_list_tells_the_names(names: Seq<Seq<char>>, i: int)
    requires
        0 <= i < device_list_model(names).len(),
    ensures
        names.len() <= 255 ==> device_list_model(names).len() == names.len(),
        names.len() > 255 ==> device_list_model(names).len() == 255,
        device_list_model(names)[i].name == names[i],
        device_list_model(names)[i].index == i,
{
}

proof fn lemma_working_filter(caps: Seq<hw_probe::CapabilityModel>)
    ensures
        working(caps) == caps.filter(|c: hw_probe::CapabilityModel| c.working),
    decreases caps.len(),
{
    reveal(Seq::filter);
    if caps.len() > 0 {
        lemma_working_filter(caps.drop_last());
    }
}

/// An encoder list tells of the encoders that work, in their order, the first
/// 255 of them: each with its place as its index, its name, its codec, its
/// vendor, and whether it is the one in use.
pub proof fn law_encoder_list_tells_what_works(
    caps: Seq<hw_probe::CapabilityModel>,
    active: Seq<char>,
    i: int,
)
    requires
        0 <= i < encoder_list_model(caps, active).len(),
    ensures
        ({
            let shown = caps.filter(|c: hw_probe::CapabilityModel| c.working);
            let list = encoder_list_model(caps, active);
            &&& shown.len() <= 255 ==> list.len() == shown.len()
            &&& shown.len() > 255 ==> list.len() == 255
            &&& list[i].index == i
            &&& list[i].name == shown[i].name
            &&& list[i].codec == match shown[i].codec {
                CodecKind::H264 => 0int,
                CodecKind::Hevc => 1,
                CodecKind::Av1 => 2,
            }
            &&& list[i].hw_vendor == match shown[i].hw_vendor {
                HwVendor::Amd => 0int,
                HwVendor::Nvidia => 1,
                HwVendor::Intel => 2,
                HwVendor::Microsoft => 3,
                HwVendor::Software => 4,
                HwVendor::Other => 5,
            }
            &&& list[i].active <==> shown[i].name == active
        }),
{
    lemma_working_filter(caps);
}

/// A profile list tells the names in their order, the first 255 of them, each
/// with its place as its index and whether it is the one in use.
pub proof fn law_profile_list_tells_the_names(
    names: Seq<Seq<char>>,
    active: Option<Seq<char>>,
    i: int,
)
    requires
        0 <= i < profile_list_model(names, active).len(),
    ensures
        names.len() <= 255 ==> profile_list_model(names, active).len() == names.len(),
        names.len() > 255 ==> profile_list_model(names, active).len() == 255,
        profile_list_model(names, active)[i].name == names[i],
        profile_list_model(names, active)[i].index == i,
        profile_list_model(names, active)[i].active <==> active is Some && active->0 == names[i],
{
}

/// The stream starts when the client says that it is ready, on the first
/// monitor, or when it picks a monitor, on that one. Other messages do not
/// start it, and a closed connection ends the wait.
pub proof fn law_stream_starts_when_asked(event: SocketEvent)
    ensures
        event is Closed ==> start_action(event) == StartAction::HangUp,
        event is Other ==> start_action(event) == StartAction::Wait,
        event matches SocketEvent::Binary { data } ==> ({
            let d = data@;
            if d.len() >= 1 && d[0] == 0x14 {
                start_action(event) == (StartAction::Stream { monitor: 0 })
            } else if d.len() >= 2 && d[0] == 0x15 {
                start_action(event) == (StartAction::Stream { monitor: d[1] })
            } else {
                start_action(event) == StartAction::Wait
            }
        }),
{
}

proof fn lemma_origin_from(monitors: Seq<MonitorInfo>, index: u8, i: int, k: int)
    requires
        0 <= i <= k < monitors.len(),
        monitors[k].index == index,
        forall|j: int| i <= j < k ==> (#[trigger] monitors[j]).index != index,
    ensures
        monitor_origin(monitors, index, i) == (monitors[k].x as i32, monitors[k].y as i32),
    decreases k - i,
{
    if i < k {
        assert(monitors[i].index != index);
        lemma_origin_from(monitors, index, i + 1, k);
    }
}

proof fn lemma_no_origin(monitors: Seq<MonitorInfo>, index: u8, i: int)
    requires
        0 <= i,
        forall|j: int| i <= j < monitors.len() ==> (#[trigger] monitors[j]).index != index,
    ensures
        monitor_origin(monitors, index, i) == (0i32, 0i32),
    decreases monitors.len() - i,
{
    if i < monitors.len() {
        assert(monitors[i].index != index);
        lemma_no_origin(monitors, index, i + 1);
    }
}

/// The origin of a monitor is the place of the first one with its index, and
/// the origin of the desktop if there is none.
pub proof fn law_monitor_origin(monitors: Seq<MonitorInfo>, index: u8, k: int)
    ensures
        0 <= k < monitors.len() && monitors[k].index == index && (forall|j: int|
            0 <= j < k ==> (#[trigger] monitors[j]).index != index) ==> monitor_origin(
            monitors,
            index,
            0,
        ) == (monitors[k].x as i32, monitors[k].y as i32),
        (forall|j: int| 0 <= j < monitors.len() ==> (#[trigger] monitors[j]).index != index)
            ==> monitor_origin(monitors, index, 0) == (0i32, 0i32),
{
    if 0 <= k < monitors.len() && monitors[k].index == index && (forall|j: int|
        0 <= j < k ==> (#[trigger] monitors[j]).index != index) {
        lemma_origin_from(monitors, index, 0, k);
    }
    if forall|j: int| 0 <= j < monitors.len() ==> (#[trigger] monitors[j]).index != index {
        lemma_no_origin(monitors, index, 0);
    }
}

/// While streaming, a picked device is captured; 255, and an index that no
/// device has, turn audio off. A ping is answered with its own timestamp, and
/// everything else is input.
pub proof fn law_messages_are_routed(d: Seq<u8>, devices: Seq<Seq<char>>)
    ensures
        ({
            let r = route_model(d, devices);
            &&& d.len() >= 2 && d[0] == 0x16 && d[1] < 255 && d[1] < devices.len() ==> r == (
            RoutedModel::StartAudio { device: devices[d[1] as int] })
            &&& d.len() >= 2 && d[0] == 0x16 && (d[1] == 255 || d[1] >= devices.len()) ==> r
                == RoutedModel::StopAudio
            &&& d.len() >= 9 && d[0] == 0x19 ==> r is Pong && r->client_ts_us == protocol::spelled(
                d,
                1,
                8,
            )
            &&& d.len() == 0 || (d[0] != 0x16 && d[0] != 0x19) ==> r == RoutedModel::Input
        }),
{
    if d.len() >= 9 {
        protocol::law_client_is_read(d);
    }
}

/// A message that cannot be read does nothing; one that can does what the
/// simulator does for it, unless its place does not fit.
pub proof fn law_input_reaches_the_simulator(
    sim: InputSimulator,
    m: ClientMessage,
    d: Seq<u8>,
    screen: VirtualScreen,
)
    ensures
        sim.can_handle(m, screen) ==> input_actions(sim, protocol::client_bytes(m), screen) == Some(
            sim.actions(m, screen),
        ),
        !sim.can_handle(m, screen) ==> input_actions(sim, protocol::client_bytes(m), screen)
            is None,
        protocol::parse_client(d) is None ==> input_actions(sim, d, screen) is Some
            && input_actions(sim, d, screen)->0.len() == 0,
{
    protocol::law_client_round_trip(m);
}

/// What goes out for a frame: one, the timestamp in eight bytes with the least
/// significant first, whether it is a key frame, and the access unit.
pub proof fn law_stamped_frame_layout(unit: Seq<u8>, is_keyframe: bool, timestamp_us: u64)
    ensures
        ({
            let d = frame_message(splitter::frame_of(unit, is_keyframe), timestamp_us);
            &&& d.len() == 10 + unit.len()
            &&& d[0] == 1
            &&& protocol::spelled(d, 1, 8) == timestamp_us
            &&& d[9] == (if is_keyframe {
                1int
            } else {
                0
            })
            &&& d.skip(10) == unit
        }),
{
    splitter::law_frame_carries_its_unit(unit, is_keyframe);
    protocol::law_server_layout(
        protocol::ServerModel::VideoFrame { timestamp_us, is_keyframe, data: unit },
    );
}

/// A key frame drops the delta frames that wait and nothing else; a delta frame
/// drops nothing. Either goes to the end of the queue.
pub proof fn law_queue(queue: Seq<FrameModel>, f: FrameModel)
    ensures
        !f.is_keyframe ==> queue_with(queue, f) == queue.push(f),
        f.is_keyframe ==> queue_with(queue, f) == queue.filter(
            |x: FrameModel| x.is_keyframe,
        ).push(f),
{
    lemma_key_filter(queue);
}

proof fn lemma_key_filter(queue: Seq<FrameModel>)
    ensures
        key_frames(queue) == queue.filter(|x: FrameModel| x.is_keyframe),
    decreases queue.len(),
{
    reveal(Seq::filter);
    if queue.len() > 0 {
        lemma_key_filter(queue.drop_last());
    }
}

/// A client is greeted with the monitors, if there are any, then the audio
/// devices, then the encoders, then the profiles.
pub proof fn law_greeting_order(
    monitors: Seq<MonitorInfo>,
    names: Seq<Seq<char>>,
    caps: Seq<hw_probe::CapabilityModel>,
    encoder: Seq<char>,
    profiles: Seq<Seq<char>>,
    profile: Option<Seq<char>>,
)
    ensures
        ({
            let g = greeting_model(monitors, names, caps, encoder, profiles, profile);
            let n: int = if monitors.len() > 0 {
                1
            } else {
                0
            };
            &&& g.len() == n + 3
            &&& monitors.len() > 0 ==> g[0] == (protocol::ServerModel::MonitorList { monitors })
            &&& g[n] is AudioDeviceList && g[n]->devices == device_list_model(names)
            &&& g[n + 1] is EncoderList && g[n + 1]->encoders == encoder_list_model(caps, encoder)
            &&& g[n + 2] is ProfileList && g[n + 2]->profiles == profile_list_model(
                profiles,
                profile,
            )
        }),
{
}

} // verus!
